use vstd::prelude::*;
use crate::features::{
    copy_features, is_mask, entropy_of, masked, lemma_masked_narrows, lemma_masked_idempotent,
    lemma_masked_le_mask,
};
use crate::grid::{
    Grid, Node, undetermined_count, lemma_undet_bounds, lemma_undet_pointwise, lemma_undet_strict,
};
use crate::rules::{rule_spec, Direction, RuleTable};

verus! {

/// What any propagation wave does to a grid: dimensions are kept, every slot
/// only ever turns off, every cell's entropy is non-increasing, and a cell
/// that was already determined (collapsed or contradicted) is not touched.
pub open spec fn wave_step(pre: Grid, post: Grid) -> bool {
    &&& post.width == pre.width
    &&& post.height == pre.height
    &&& post.feature_width == pre.feature_width
    &&& post@.len() == pre@.len()
    &&& forall|i: int| 0 <= i < pre@.len() ==> (#[trigger] post@[i]).len() == pre@[i].len()
    &&& forall|i: int, j: int|
        0 <= i < pre@.len() && 0 <= j < pre@[i].len() ==> #[trigger] post@[i][j] <= pre@[i][j]
    &&& forall|i: int|
        0 <= i < pre@.len() ==> entropy_of(#[trigger] post@[i]) <= entropy_of(pre@[i])
    &&& forall|i: int|
        0 <= i < pre@.len() && entropy_of(#[trigger] pre@[i]) <= 1 ==> post@[i] == pre@[i]
}

/// Entropy monotonicity composes: across any sequence of propagation waves,
/// every cell's entropy is non-increasing and determined cells stay put.
pub proof fn lemma_wave_step_trans(a: Grid, b: Grid, c: Grid)
    requires
        wave_step(a, b),
        wave_step(b, c),
    ensures
        wave_step(a, c),
{
    assert forall|i: int| 0 <= i < a@.len() implies (#[trigger] c@[i]).len() == a@[i].len() by {
        assert(b@[i].len() == a@[i].len());
    }
    assert forall|i: int, j: int|
        0 <= i < a@.len() && 0 <= j < a@[i].len() implies #[trigger] c@[i][j] <= a@[i][j] by {
        assert(b@[i][j] <= a@[i][j]);
        assert(c@[i][j] <= b@[i][j]);
    }
    assert forall|i: int|
        0 <= i < a@.len() implies entropy_of(#[trigger] c@[i]) <= entropy_of(a@[i]) by {
        assert(entropy_of(b@[i]) <= entropy_of(a@[i]));
    }
    assert forall|i: int|
        0 <= i < a@.len() && entropy_of(#[trigger] a@[i]) <= 1 implies c@[i] == a@[i] by {
        assert(b@[i] == a@[i]);
        assert(entropy_of(b@[i]) <= 1);
    }
}

/// What a collapsed cell's wave owes its neighbor at `(nx, ny)`: if the
/// coordinate is on the grid, by the end of the wave that cell is either
/// determined (collapsed or contradicted) or holds no possibility beyond the
/// mask its direction's rule derives from the collapsed vector `data`.
pub open spec fn neighbor_narrowed(
    table: Seq<Seq<usize>>,
    pre: Grid,
    post: Grid,
    data: Seq<usize>,
    nx: int,
    ny: int,
    direction: Direction,
) -> bool {
    pre.in_bounds(nx, ny) ==> {
        ||| entropy_of(post@[pre.spec_index_of(nx, ny)]) <= 1
        ||| forall|j: int|
            0 <= j < pre.feature_width ==> #[trigger] post@[pre.spec_index_of(nx, ny)][j]
                <= rule_spec(table, direction, data)[j]
    }
}

/// The contract of one `propagate` call: a wave step, where out-of-bounds
/// coordinates and determined target cells are no-ops, and an undetermined
/// target is intersected with the rule's mask — touching no other cell
/// unless the target collapsed to entropy exactly 1, in which case the wave
/// recurses and leaves each of the four neighbors determined or narrowed at
/// least to its direction's rule mask of the collapsed vector.
pub open spec fn propagate_post(
    table: Seq<Seq<usize>>,
    pre: Grid,
    post: Grid,
    trigger: Seq<usize>,
    direction: Direction,
    x: int,
    y: int,
) -> bool {
    let idx = pre.spec_index_of(x, y);
    &&& wave_step(pre, post)
    &&& !pre.in_bounds(x, y) ==> post@ == pre@
    &&& pre.in_bounds(x, y) ==> {
        if entropy_of(pre@[idx]) <= 1 {
            post@ == pre@
        } else {
            &&& post@[idx] == masked(pre@[idx], rule_spec(table, direction, trigger))
            &&& entropy_of(post@[idx]) != 1 ==> forall|k: int|
                0 <= k < pre@.len() && k != idx ==> post@[k] == pre@[k]
            &&& entropy_of(post@[idx]) == 1 ==> {
                &&& neighbor_narrowed(table, pre, post, post@[idx], x + 1, y, Direction::Right)
                &&& neighbor_narrowed(table, pre, post, post@[idx], x, y + 1, Direction::Down)
                &&& neighbor_narrowed(table, pre, post, post@[idx], x - 1, y, Direction::Left)
                &&& neighbor_narrowed(table, pre, post, post@[idx], x, y - 1, Direction::Up)
            }
        }
    }
}

/// After one recursive call of a wave on a neighbor and any later wave
/// steps, that neighbor is determined or lies below its direction's rule
/// mask of the collapsed vector. `origin` is the grid the whole wave started
/// from; it shares its dimensions with `pre_call`, the grid at the moment of
/// the neighbor's own call.
proof fn lemma_neighbor_after_call(
    table: Seq<Seq<usize>>,
    origin: Grid,
    pre_call: Grid,
    post_call: Grid,
    fin: Grid,
    data: Seq<usize>,
    nx: int,
    ny: int,
    direction: Direction,
)
    requires
        pre_call.wf(),
        origin.width == pre_call.width,
        origin.height == pre_call.height,
        origin.feature_width == pre_call.feature_width,
        data.len() == pre_call.feature_width,
        propagate_post(table, pre_call, post_call, data, direction, nx, ny),
        wave_step(post_call, fin),
    ensures
        neighbor_narrowed(table, origin, fin, data, nx, ny, direction),
{
    if origin.in_bounds(nx, ny) {
        let nidx = origin.spec_index_of(nx, ny);
        assert(pre_call.in_bounds(nx, ny));
        assert(pre_call.spec_index_of(nx, ny) == nidx);
        pre_call.lemma_index_in_range(nx, ny);
        if entropy_of(pre_call@[nidx]) <= 1 {
            assert(post_call@[nidx] == pre_call@[nidx]);
            assert(fin@[nidx] == post_call@[nidx]);
            assert(entropy_of(fin@[nidx]) <= 1);
        } else {
            let mask = rule_spec(table, direction, data);
            assert(post_call@[nidx] == masked(pre_call@[nidx], mask));
            lemma_masked_le_mask(pre_call@[nidx], mask);
            assert forall|j: int| 0 <= j < origin.feature_width implies #[trigger] fin@[nidx][j]
                <= mask[j] by {
                assert(fin@[nidx][j] <= post_call@[nidx][j]);
                assert(post_call@[nidx][j] <= mask[j]);
            }
        }
    }
}

/// Apply a trigger to the cell at `(x, y)`: intersect the rule's mask into
/// its feature vector, and if the cell collapses to a single possibility,
/// recursively propagate its own vector to the four neighbors. Out-of-bounds
/// coordinates and already determined cells are no-ops, so a wave never
/// revisits a cell and terminates: each recursion strictly lowers the number
/// of undetermined cells.
pub fn propagate(
    grid: &mut Grid,
    rules: &RuleTable,
    trigger: &Vec<usize>,
    direction: Direction,
    x: usize,
    y: usize,
)
    requires
        old(grid).wf(),
        rules.wf(),
        old(grid).feature_width == rules.spec_width(),
        trigger@.len() == old(grid).feature_width,
        is_mask(trigger@),
    ensures
        final(grid).wf(),
        propagate_post(
            rules.table(),
            *old(grid),
            *final(grid),
            trigger@,
            direction,
            x as int,
            y as int,
        ),
        undetermined_count(final(grid)@) <= undetermined_count(old(grid)@),
    decreases undetermined_count(old(grid)@),
{
    if !(x < grid.width && y < grid.height) {
        return;
    }
    let idx = grid.index_of(x, y);
    proof {
        assert(grid@[idx as int] == grid.cells@[idx as int]@);
        assert(is_mask(grid@[idx as int]));
    }
    let e = grid.cells[idx].get_entropy();
    if e <= 1 {
        return;
    }
    let ghost g0 = *grid;
    let mask = rules.rule(&direction, trigger);
    proof {
        lemma_masked_narrows(g0@[idx as int], mask@);
    }
    zip_mut(&mut grid.cells[idx], &mask);
    let ghost g1 = *grid;
    proof {
        assert(g1@ =~= g0@.update(idx as int, masked(g0@[idx as int], mask@)));
        assert(g1.wf());
        assert(wave_step(g0, g1));
        lemma_undet_pointwise(g0@, g1@);
    }
    let e2 = grid.cells[idx].get_entropy();
    if e2 == 1 {
        proof {
            lemma_undet_strict(g0@, g1@, idx as int);
            lemma_undet_bounds(g1@);
        }
        let data = copy_features(&grid.cells[idx].data);
        assert(data@ =~= g1@[idx as int]);
        propagate(grid, rules, &data, Direction::Right, x + 1, y);
        let ghost g2 = *grid;
        proof {
            lemma_undet_pointwise(g1@, g2@);
            lemma_undet_bounds(g2@);
        }
        propagate(grid, rules, &data, Direction::Down, x, y + 1);
        let ghost g3 = *grid;
        proof {
            lemma_wave_step_trans(g1, g2, g3);
            lemma_undet_pointwise(g1@, g3@);
            lemma_undet_bounds(g3@);
        }
        let xl = if x > 0 {
            x - 1
        } else {
            x
        };
        propagate(grid, rules, &data, Direction::Left, xl, y);
        let ghost g4 = *grid;
        proof {
            lemma_wave_step_trans(g1, g3, g4);
            lemma_undet_pointwise(g1@, g4@);
            lemma_undet_bounds(g4@);
        }
        let yu = if y > 0 {
            y - 1
        } else {
            y
        };
        propagate(grid, rules, &data, Direction::Up, x, yu);
        let ghost g5 = *grid;
        proof {
            lemma_wave_step_trans(g1, g4, g5);
            lemma_wave_step_trans(g0, g1, g5);
            // The collapsed target cell is determined from `g1` on, so every
            // recursive wave left it exactly as the mask set it.
            assert(entropy_of(g1@[idx as int]) <= 1);
            assert(g2@[idx as int] == g1@[idx as int]);
            assert(entropy_of(g2@[idx as int]) <= 1);
            assert(g3@[idx as int] == g2@[idx as int]);
            assert(entropy_of(g3@[idx as int]) <= 1);
            assert(g4@[idx as int] == g3@[idx as int]);
            assert(entropy_of(g4@[idx as int]) <= 1);
            assert(g5@[idx as int] == g4@[idx as int]);
            lemma_undet_pointwise(g1@, g5@);
            lemma_undet_strict(g0@, g1@, idx as int);
            // Each neighbor was handed one recursive call, and only further
            // wave steps followed it.
            lemma_wave_step_trans(g2, g3, g4);
            lemma_wave_step_trans(g2, g4, g5);
            lemma_wave_step_trans(g3, g4, g5);
            assert(wave_step(g5, g5));
            assert(g5@[idx as int] == data@);
            lemma_neighbor_after_call(
                rules.table(),
                g0,
                g1,
                g2,
                g5,
                data@,
                x as int + 1,
                y as int,
                Direction::Right,
            );
            lemma_neighbor_after_call(
                rules.table(),
                g0,
                g2,
                g3,
                g5,
                data@,
                x as int,
                y as int + 1,
                Direction::Down,
            );
            if x > 0 {
                lemma_neighbor_after_call(
                    rules.table(),
                    g0,
                    g3,
                    g4,
                    g5,
                    data@,
                    x as int - 1,
                    y as int,
                    Direction::Left,
                );
            }
            if y > 0 {
                lemma_neighbor_after_call(
                    rules.table(),
                    g0,
                    g4,
                    g5,
                    g5,
                    data@,
                    x as int,
                    y as int - 1,
                    Direction::Up,
                );
            }
        }
    } else {
        proof {
            assert forall|k: int|
                0 <= k < g0@.len() && k != idx as int implies g1@[k] == g0@[k] by {}
        }
    }
}

/// Intersect a trigger vector into a node in place by elementwise
/// multiplication: the node keeps exactly the possibilities both admit.
pub fn zip_mut(origin: &mut Node, trigger: &Vec<usize>)
    requires
        old(origin)@.len() == trigger@.len(),
        old(origin).wf(),
        is_mask(trigger@),
    ensures
        final(origin)@ =~= masked(old(origin)@, trigger@),
{
    let ghost orig = origin@;
    let mut i: usize = 0;
    while i < origin.data.len()
        invariant
            0 <= i <= origin.data.len(),
            origin@.len() == orig.len(),
            orig.len() == trigger@.len(),
            is_mask(orig),
            is_mask(trigger@),
            forall|j: int| i <= j < origin@.len() ==> origin@[j] == orig[j],
            forall|j: int| 0 <= j < i ==> origin@[j] == masked(orig, trigger@)[j],
        decreases origin.data.len() - i,
    {
        proof {
            assert(origin@[i as int] == orig[i as int]);
            assert(orig[i as int] <= 1);
            assert(trigger@[i as int] <= 1);
            assert(origin@[i as int] * trigger@[i as int] <= 1) by (nonlinear_arith)
                requires
                    origin@[i as int] <= 1,
                    trigger@[i as int] <= 1,
                    origin@[i as int] >= 0,
                    trigger@[i as int] >= 0,
            ;
        }
        let prod = origin.data[i] * trigger[i];
        origin.data[i] = prod;
        i = i + 1;
    }
}

/// Termination bound: a propagation wave never raises the number of
/// undetermined cells, and that number never exceeds the number of cells of
/// the grid — so on a well-formed grid a wave makes at most `width * height`
/// collapsing steps, each visited cell collapsing at most once.
pub proof fn lemma_wave_step_bounded(pre: Grid, post: Grid)
    requires
        pre.wf(),
        wave_step(pre, post),
    ensures
        0 <= undetermined_count(post@) <= undetermined_count(pre@),
        undetermined_count(pre@) <= pre.width * pre.height,
{
    lemma_undet_pointwise(pre@, post@);
    lemma_undet_bounds(pre@);
    lemma_undet_bounds(post@);
}

/// Idempotence: propagating the same trigger a second time with the
/// identity direction at the same coordinates leaves the grid exactly as
/// the first propagation left it.
pub proof fn lemma_direct_idempotent(
    table: Seq<Seq<usize>>,
    g0: Grid,
    g1: Grid,
    g2: Grid,
    trigger: Seq<usize>,
    x: int,
    y: int,
)
    requires
        g0.wf(),
        trigger.len() == g0.feature_width,
        is_mask(trigger),
        propagate_post(table, g0, g1, trigger, Direction::Direct, x, y),
        propagate_post(table, g1, g2, trigger, Direction::Direct, x, y),
    ensures
        g2@ == g1@,
{
    if !g0.in_bounds(x, y) {
        assert(g1@ == g0@);
        assert(!g1.in_bounds(x, y));
        assert(g2@ == g1@);
    } else {
        let idx = g0.spec_index_of(x, y);
        g0.lemma_index_in_range(x, y);
        assert(g1.in_bounds(x, y));
        assert(g1.spec_index_of(x, y) == idx);
        if entropy_of(g0@[idx]) <= 1 {
            assert(g1@ == g0@);
            assert(g2@ == g1@);
        } else {
            assert(g1@[idx] == masked(g0@[idx], trigger));
            if entropy_of(g1@[idx]) <= 1 {
                assert(g2@ == g1@);
            } else {
                assert(g2@[idx] == masked(g1@[idx], trigger));
                lemma_masked_idempotent(g0@[idx], trigger);
                assert(g2@[idx] == g1@[idx]);
                assert(entropy_of(g2@[idx]) != 1);
                assert(g2@ =~~= g1@);
            }
        }
    }
}

} // verus!
