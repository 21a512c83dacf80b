use vstd::prelude::*;
use vstd::string::StringExecFns;
use crate::display::token_of;
use crate::engine::{propagate, propagate_post, wave_step};
use crate::features::{
    build_one_hot, copy_features, entropy_of, is_mask, lemma_mask_by_possible_one_hot,
    lemma_one_hot_entropy, one_hot,
};
use crate::grid::{
    all_open, lemma_undet_bounds, lemma_undet_strict, undetermined_count, Grid,
};
use crate::random::{choose_from_thread_rng, possible_indices};
use crate::rules::{default_rules, default_table_spec, Direction, RuleTable};
use crate::tile::{WfcError, FEATURE_COUNT};

verus! {

/// The solver's state: a grid of cells and the compatibility table that
/// propagation applies.
pub struct System {
    pub rules: RuleTable,
    pub grid: Grid,
}

/// One line per row of the grid, from row `x` on, each a concatenation of
/// cell tokens, rows separated by a line break.
pub open spec fn rows_spec(g: Grid, x: int) -> Seq<char>
    decreases g.width - x,
{
    if x < 0 || x >= g.width {
        Seq::empty()
    } else if x == g.width - 1 {
        row_spec(g, x, 0)
    } else {
        row_spec(g, x, 0) + "\n"@ + rows_spec(g, x + 1)
    }
}

/// The tokens of the cells of row `x`, from column `y` on.
pub open spec fn row_spec(g: Grid, x: int, y: int) -> Seq<char>
    decreases g.height - y,
{
    if y < 0 || y >= g.height {
        Seq::empty()
    } else {
        token_of(g@[g.spec_index_of(x, y)]) + row_spec(g, x, y + 1)
    }
}

impl System {
    /// A consistent system: rules and grid are well formed and agree on the
    /// feature-vector width.
    pub open spec fn wf(&self) -> bool {
        &&& self.rules.wf()
        &&& self.grid.wf()
        &&& self.grid.feature_width == self.rules.spec_width()
    }

    /// A system over the default tile set: a grid of the given dimensions
    /// with every cell fully open.
    pub fn default(width: usize, height: usize) -> (s: System)
        requires
            width * height <= usize::MAX,
        ensures
            s.wf(),
            s.grid.width == width,
            s.grid.height == height,
            s.grid.feature_width == FEATURE_COUNT,
            s.rules.table() == default_table_spec(),
            forall|i: int|
                0 <= i < s.grid@.len() ==> #[trigger] s.grid@[i] == all_open(
                    FEATURE_COUNT as nat,
                ),
    {
        let rules = default_rules();
        let fw = rules.width();
        let grid = Grid::new_open(width, height, fw);
        System { rules, grid }
    }

    /// A system over a custom rule table. The table's width must match the
    /// registered tile codec, or construction fails with `ConfigMismatch`.
    pub fn with_rules(rules: RuleTable, width: usize, height: usize) -> (r: Result<
        System,
        WfcError,
    >)
        requires
            rules.wf(),
            width * height <= usize::MAX,
        ensures
            match r {
                Ok(s) => {
                    &&& rules.spec_width() == FEATURE_COUNT
                    &&& s.wf()
                    &&& s.rules == rules
                    &&& s.grid.width == width
                    &&& s.grid.height == height
                    &&& forall|i: int|
                        0 <= i < s.grid@.len() ==> #[trigger] s.grid@[i] == all_open(
                            FEATURE_COUNT as nat,
                        )
                },
                Err(e) => e == WfcError::ConfigMismatch && rules.spec_width() != FEATURE_COUNT,
            },
    {
        let fw = rules.width();
        if fw != FEATURE_COUNT {
            return Err(WfcError::ConfigMismatch);
        }
        let grid = Grid::new_open(width, height, fw);
        Ok(System { rules, grid })
    }

    /// Scan the grid for a contradiction. `Ok` exactly when no cell has
    /// entropy 0; a failed generation answers `Contradiction`.
    pub fn check_consistent(&self) -> (r: Result<(), WfcError>)
        requires
            self.wf(),
        ensures
            match r {
                Ok(_) => forall|i: int|
                    0 <= i < self.grid@.len() ==> entropy_of(#[trigger] self.grid@[i]) != 0,
                Err(e) => e == WfcError::Contradiction && exists|i: int|
                    0 <= i < self.grid@.len() && entropy_of(#[trigger] self.grid@[i]) == 0,
            },
    {
        let mut i: usize = 0;
        let n = self.grid.cells.len();
        while i < n
            invariant
                0 <= i <= n,
                n == self.grid@.len(),
                self.wf(),
                forall|k: int| 0 <= k < i ==> entropy_of(#[trigger] self.grid@[k]) != 0,
            decreases n - i,
        {
            proof {
                assert(self.grid@[i as int] == self.grid.cells@[i as int]@);
                assert(is_mask(self.grid@[i as int]));
            }
            if self.grid.cells[i].get_entropy() == 0 {
                return Err(WfcError::Contradiction);
            }
            i = i + 1;
        }
        Ok(())
    }

    /// Render the grid: one line per row, one token per cell — the tile's
    /// name if the cell is collapsed, `S` with the entropy while it is a
    /// superposition, `XX` for a contradiction.
    pub fn show(&self) -> (out: String)
        requires
            self.wf(),
        ensures
            out@ == rows_spec(self.grid, 0),
    {
        let g = &self.grid;
        let mut out = String::new();
        let mut x: usize = 0;
        proof {
            assert(out@ + rows_spec(*g, 0) =~= rows_spec(*g, 0));
        }
        while x < g.width
            invariant
                0 <= x <= g.width,
                self.wf(),
                g == &self.grid,
                rows_spec(*g, 0) == out@ + rows_spec(*g, x as int),
            decreases g.width - x,
        {
            let ghost rest: Seq<char> = if x as int == g.width - 1 {
                Seq::empty()
            } else {
                "\n"@ + rows_spec(*g, x as int + 1)
            };
            proof {
                assert(rows_spec(*g, x as int) =~= row_spec(*g, x as int, 0) + rest);
            }
            let mut y: usize = 0;
            while y < g.height
                invariant
                    0 <= y <= g.height,
                    0 <= x < g.width,
                    self.wf(),
                    g == &self.grid,
                    rows_spec(*g, 0) == out@ + row_spec(*g, x as int, y as int) + rest,
                decreases g.height - y,
            {
                let idx = g.index_of(x, y);
                proof {
                    assert(g@[idx as int] == g.cells@[idx as int]@);
                    assert(is_mask(g@[idx as int]));
                }
                let token = g.cells[idx].token();
                let ghost before = out@;
                out.append(token.as_str());
                proof {
                    assert(row_spec(*g, x as int, y as int) == token_of(
                        g@[g.spec_index_of(x as int, y as int)],
                    ) + row_spec(*g, x as int, y as int + 1));
                    assert(before + row_spec(*g, x as int, y as int) + rest =~= out@ + row_spec(
                        *g,
                        x as int,
                        y as int + 1,
                    ) + rest);
                }
                y = y + 1;
            }
            proof {
                assert(row_spec(*g, x as int, y as int) =~= Seq::<char>::empty());
                assert(out@ + row_spec(*g, x as int, y as int) + rest =~= out@ + rest);
            }
            if x + 1 < g.width {
                let ghost before = out@;
                out.append("\n");
                proof {
                    assert(before + rest =~= out@ + rows_spec(*g, x as int + 1));
                }
            } else {
                proof {
                    assert(rows_spec(*g, x as int + 1) =~= Seq::<char>::empty());
                    assert(out@ + rest =~= out@ + rows_spec(*g, x as int + 1));
                }
            }
            x = x + 1;
        }
        proof {
            assert(rows_spec(*g, x as int) =~= Seq::<char>::empty());
            assert(out@ + rows_spec(*g, x as int) =~= out@);
        }
        out
    }
}

/// Whether `(a, b)` comes before `(x, y)` in row-major coordinate order.
pub open spec fn lex_before(a: int, b: int, x: int, y: int) -> bool {
    a < x || (a == x && b < y)
}

/// Whether `(x, y)` is the first undetermined cell of the grid in row-major
/// order: it is still a superposition and every earlier cell is determined.
pub open spec fn is_first_undetermined(g: Grid, x: int, y: int) -> bool {
    &&& g.in_bounds(x, y)
    &&& entropy_of(g@[g.spec_index_of(x, y)]) > 1
    &&& forall|a: int, b: int|
        g.in_bounds(a, b) && lex_before(a, b, x, y) ==> entropy_of(
            g@[#[trigger] g.spec_index_of(a, b)],
        ) <= 1
}

/// Find the first undetermined cell in row-major order, if any.
pub fn find_undetermined(g: &Grid) -> (r: Option<(usize, usize)>)
    requires
        g.wf(),
    ensures
        match r {
            Some(p) => is_first_undetermined(*g, p.0 as int, p.1 as int),
            None => forall|a: int, b: int|
                g.in_bounds(a, b) ==> entropy_of(g@[#[trigger] g.spec_index_of(a, b)]) <= 1,
        },
{
    let mut x: usize = 0;
    while x < g.width
        invariant
            0 <= x <= g.width,
            g.wf(),
            forall|a: int, b: int|
                g.in_bounds(a, b) && a < x ==> entropy_of(g@[#[trigger] g.spec_index_of(a, b)])
                    <= 1,
        decreases g.width - x,
    {
        let mut y: usize = 0;
        while y < g.height
            invariant
                0 <= y <= g.height,
                0 <= x < g.width,
                g.wf(),
                forall|a: int, b: int|
                    g.in_bounds(a, b) && a < x ==> entropy_of(g@[#[trigger] g.spec_index_of(a, b)])
                        <= 1,
                forall|b: int|
                    0 <= b < y ==> entropy_of(g@[#[trigger] g.spec_index_of(x as int, b)]) <= 1,
            decreases g.height - y,
        {
            let idx = g.index_of(x, y);
            proof {
                assert(g@[idx as int] == g.cells@[idx as int]@);
                assert(is_mask(g@[idx as int]));
            }
            if g.cells[idx].get_entropy() > 1 {
                return Some((x, y));
            }
            y = y + 1;
        }
        x = x + 1;
    }
    None
}

/// A simulation run: the system and the number of rounds played so far.
pub struct Game {
    pub round: u32,
    pub system: System,
}

impl Game {
    /// A game over a freshly built system, before any round.
    pub fn new(system: System) -> (g: Game)
        ensures
            g.round == 0,
            g.system == system,
    {
        Game { round: 0, system }
    }

    /// Force a collapse at `(x, y)` with the identity rule and count the
    /// round. Used for scripted, deterministic scenarios.
    pub fn run(&mut self, trigger: &Vec<usize>, x: usize, y: usize)
        requires
            old(self).system.wf(),
            is_mask(trigger@),
            trigger@.len() == old(self).system.grid.feature_width,
            old(self).round < u32::MAX,
        ensures
            final(self).system.wf(),
            final(self).system.rules == old(self).system.rules,
            final(self).round == old(self).round + 1,
            propagate_post(
                old(self).system.rules.table(),
                old(self).system.grid,
                final(self).system.grid,
                trigger@,
                Direction::Direct,
                x as int,
                y as int,
            ),
            undetermined_count(final(self).system.grid@) <= undetermined_count(
                old(self).system.grid@,
            ),
    {
        propagate(&mut self.system.grid, &self.system.rules, trigger, Direction::Direct, x, y);
        self.round = self.round + 1;
    }

    /// One randomized step of the simulation loop: pick the first
    /// undetermined cell in row-major order, draw one of its possible
    /// features at random, force it there with the identity rule, and count
    /// the round. `None` exactly when every cell is already determined, and
    /// then nothing changes.
    pub fn next_round(&mut self) -> (r: Option<()>)
        requires
            old(self).system.wf(),
            old(self).round < u32::MAX,
        ensures
            final(self).system.wf(),
            final(self).system.rules == old(self).system.rules,
            match r {
                None => *final(self) == *old(self) && forall|a: int, b: int|
                    old(self).system.grid.in_bounds(a, b) ==> entropy_of(
                        old(self).system.grid@[#[trigger] old(self).system.grid.spec_index_of(
                            a,
                            b,
                        )],
                    ) <= 1,
                Some(_) => {
                    &&& final(self).round == old(self).round + 1
                    &&& wave_step(old(self).system.grid, final(self).system.grid)
                    &&& undetermined_count(final(self).system.grid@) < undetermined_count(
                        old(self).system.grid@,
                    )
                    &&& exists|x: int, y: int, i: int|
                        {
                            &&& is_first_undetermined(old(self).system.grid, x, y)
                            &&& 0 <= i < old(self).system.grid.feature_width
                            &&& old(self).system.grid@[old(self).system.grid.spec_index_of(x, y)][i]
                                == 1
                            &&& propagate_post(
                                old(self).system.rules.table(),
                                old(self).system.grid,
                                final(self).system.grid,
                                one_hot(old(self).system.grid.feature_width as nat, i),
                                Direction::Direct,
                                x,
                                y,
                            )
                        }
                },
            },
    {
        let picked = find_undetermined(&self.system.grid);
        match picked {
            None => None,
            Some((x, y)) => {
                let idx = self.system.grid.index_of(x, y);
                proof {
                    assert(is_mask(self.system.grid@[idx as int]));
                }
                let data = copy_features(&self.system.grid.cells[idx].data);
                let indices = possible_indices(&data);
                proof {
                    assert(entropy_of(data@) > 1);
                }
                let pick = choose_from_thread_rng(&indices);
                proof {
                    let k = choose|k: int| 0 <= k < indices@.len() && indices@[k] == pick;
                    assert(data@[pick as int] == 1);
                }
                let trigger = build_one_hot(data.len(), pick);
                proof {
                    lemma_one_hot_entropy(data@.len(), pick as int);
                }
                let ghost pre = *self;
                self.run(&trigger, x, y);
                proof {
                    lemma_mask_by_possible_one_hot(pre.system.grid@[idx as int], pick as int);
                    assert(self.system.grid@[idx as int] == one_hot(
                        pre.system.grid.feature_width as nat,
                        pick as int,
                    ));
                    lemma_one_hot_entropy(pre.system.grid.feature_width as nat, pick as int);
                    lemma_undet_strict(pre.system.grid@, self.system.grid@, idx as int);
                }
                Some(())
            },
        }
    }
}

/// Drive a 30-by-30 game to completion: keep taking randomized rounds until
/// every cell is determined.
pub fn bench() {
    let system = System::default(30, 30);
    let mut game = Game::new(system);
    proof {
        lemma_undet_bounds(game.system.grid@);
    }
    loop
        invariant
            game.system.wf(),
            game.round + undetermined_count(game.system.grid@) <= 900,
        decreases undetermined_count(game.system.grid@),
    {
        proof {
            lemma_undet_bounds(game.system.grid@);
        }
        if game.next_round().is_none() {
            break;
        }
        proof {
            lemma_undet_bounds(game.system.grid@);
        }
        let ghost mid = undetermined_count(game.system.grid@);
        if game.next_round().is_some() {
        }
        proof {
            lemma_undet_bounds(game.system.grid@);
            assert(undetermined_count(game.system.grid@) <= mid);
        }
    }
}

} // verus!
