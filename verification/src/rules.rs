use vstd::prelude::*;
use crate::features::is_mask;
use crate::tile::{encode_spec, tile_index, Tile, WfcError, FEATURE_COUNT};

verus! {

/// The direction a propagation step moves in, from the cell that collapsed
/// toward the neighbor being narrowed. `Direct` is the identity rule used
/// for an initial forced collapse.
#[derive(Clone, Copy, Debug, PartialEq, Eq, Structural)]
pub enum Direction {
    Left,
    Right,
    Up,
    Down,
    Direct,
}

/// A directional compatibility table: row `i` is the mask intersected into a
/// neighbor when tile `i` is observed. The table is data, swappable per tile
/// set without touching the propagation engine.
pub struct RuleTable {
    pub masks: Vec<Vec<usize>>,
}

/// The rows of a vector of feature vectors, as a sequence of sequences.
pub open spec fn rows_of(masks: Vec<Vec<usize>>) -> Seq<Seq<usize>> {
    Seq::new(masks@.len(), |i: int| masks@[i]@)
}

/// The mask a table produces for a trigger under a propagation direction:
/// slot `j` is set exactly when some tile set in the trigger is compatible
/// with tile `j`, the union of the compatibility rows of the trigger's set
/// bits.
pub open spec fn union_mask(table: Seq<Seq<usize>>, trigger: Seq<usize>) -> Seq<usize> {
    Seq::new(
        trigger.len(),
        |j: int|
            if exists|i: int| 0 <= i < trigger.len() && trigger[i] == 1 && table[i][j] == 1 {
                1usize
            } else {
                0usize
            },
    )
}

/// What `rule` returns: the trigger itself for `Direct`, the union mask for
/// every propagation direction.
pub open spec fn rule_spec(table: Seq<Seq<usize>>, direction: Direction, trigger: Seq<usize>) -> Seq<
    usize,
> {
    if direction == Direction::Direct {
        trigger
    } else {
        union_mask(table, trigger)
    }
}

impl RuleTable {
    /// The table's rows as a mathematical sequence of sequences.
    pub open spec fn table(&self) -> Seq<Seq<usize>> {
        rows_of(self.masks)
    }

    /// A well-formed table is square, one row and one column per registered
    /// tile, and every entry is 0 or 1.
    pub open spec fn wf(&self) -> bool {
        &&& forall|i: int|
            0 <= i < self.table().len() ==> (#[trigger] self.table()[i]).len()
                == self.table().len()
        &&& forall|i: int| 0 <= i < self.table().len() ==> is_mask(#[trigger] self.table()[i])
    }

    /// The feature-vector width the table is built for.
    pub open spec fn spec_width(&self) -> int {
        self.table().len() as int
    }

    pub fn width(&self) -> (w: usize)
        ensures
            w == self.spec_width(),
    {
        self.masks.len()
    }

    /// Build a table from its rows. Fails with `ConfigMismatch` exactly when
    /// the rows do not form a square 0/1 table.
    pub fn new(masks: Vec<Vec<usize>>) -> (r: Result<RuleTable, WfcError>)
        ensures
            match r {
                Ok(t) => t.table() == rows_of(masks) && t.wf(),
                Err(e) => e == WfcError::ConfigMismatch && !(RuleTable { masks }).wf(),
            },
{
        let width = masks.len();
        let mut i: usize = 0;
        while i < masks.len()
            invariant
                0 <= i <= masks.len(),
                width == masks.len(),
                forall|k: int|
                    0 <= k < i ==> (#[trigger] rows_of(masks)[k]).len() == rows_of(masks).len(),
                forall|k: int| 0 <= k < i ==> is_mask(#[trigger] rows_of(masks)[k]),
            decreases masks.len() - i,
        {
            if masks[i].len() != width {
                assert((RuleTable { masks }).table()[i as int].len() != (RuleTable {
                    masks,
                }).table().len());
                return Err(WfcError::ConfigMismatch);
            }
            let row = &masks[i];
            let mut j: usize = 0;
            while j < row.len()
                invariant
                    0 <= j <= row.len(),
                    i < masks@.len(),
                    row@ == rows_of(masks)[i as int],
                    forall|k: int| 0 <= k < j ==> row@[k] <= 1,
                decreases row.len() - j,
            {
                if row[j] > 1 {
                    assert(!is_mask((RuleTable { masks }).table()[i as int]));
                    return Err(WfcError::ConfigMismatch);
                }
                j = j + 1;
            }
            i = i + 1;
        }
        Ok(RuleTable { masks })
    }

    /// Compute the mask a trigger induces in a direction. `Direct` returns
    /// the trigger unchanged; a propagation direction returns the union of
    /// the compatibility rows of the trigger's set tiles.
    pub fn rule(&self, direction: &Direction, trigger: &Vec<usize>) -> (mask: Vec<usize>)
        requires
            self.wf(),
            trigger@.len() == self.spec_width(),
            is_mask(trigger@),
        ensures
            mask@ =~= rule_spec(self.table(), *direction, trigger@),
            mask@.len() == trigger@.len(),
            is_mask(mask@),
    {
        match direction {
            Direction::Direct => trigger.clone(),
            _ => {
                let len = trigger.len();
                let mut mask: Vec<usize> = Vec::new();
                let mut j: usize = 0;
                while j < len
                    invariant
                        0 <= j <= len,
                        len == trigger@.len(),
                        trigger@.len() == self.spec_width(),
                        self.wf(),
                        mask@.len() == j,
                        forall|q: int|
                            0 <= q < j ==> mask@[q] == union_mask(self.table(), trigger@)[q],
                    decreases len - j,
                {
                    let mut bit: usize = 0;
                    let mut i: usize = 0;
                    while i < len
                        invariant
                            0 <= i <= len,
                            0 <= j < len,
                            len == trigger@.len(),
                            trigger@.len() == self.spec_width(),
                            self.wf(),
                            bit == if exists|p: int|
                                0 <= p < i && trigger@[p] == 1 && self.table()[p][j as int] == 1 {
                                1usize
                            } else {
                                0usize
                            },
                        decreases len - i,
                    {
                        assert(self.table()[i as int].len() == self.table().len());
                        assert(self.masks@[i as int]@.len() == trigger@.len());
                        if trigger[i] == 1 && self.masks[i][j] == 1 {
                            bit = 1;
                        }
                        i = i + 1;
                    }
                    mask.push(bit);
                    j = j + 1;
                }
                mask
            },
        }
    }
}

/// The default compatibility table of the five registered tiles. Each row
/// lists, per tile, which tiles may stand beside it: water beside water and
/// sand; sand beside water, sand and grass; grass beside everything but
/// water; trees beside grass and trees; rock beside sand and grass.
pub open spec fn default_table_spec() -> Seq<Seq<usize>> {
    seq![
        seq![1usize, 1, 0, 0, 0],
        seq![1usize, 1, 1, 0, 0],
        seq![0usize, 1, 1, 1, 1],
        seq![0usize, 0, 1, 1, 0],
        seq![0usize, 1, 1, 0, 0],
    ]
}

/// Build the default compatibility table.
pub fn default_rules() -> (t: RuleTable)
    ensures
        t.table() =~~= default_table_spec(),
        t.wf(),
        t.spec_width() == FEATURE_COUNT,
{
    let masks: Vec<Vec<usize>> = vec![
        vec![1usize, 1, 0, 0, 0],
        vec![1usize, 1, 1, 0, 0],
        vec![0usize, 1, 1, 1, 1],
        vec![0usize, 0, 1, 1, 0],
        vec![0usize, 1, 1, 0, 0],
    ];
    RuleTable { masks }
}

/// Mask correctness: for a registered tile, a propagation direction's mask
/// has exactly the set bits of that tile's compatibility row, and the
/// identity direction `Direct` returns the trigger itself, whose set bits
/// are exactly the tile.
pub proof fn lemma_mask_correctness(table: Seq<Seq<usize>>, direction: Direction, t: Tile)
    requires
        table.len() == FEATURE_COUNT,
        forall|i: int| 0 <= i < table.len() ==> (#[trigger] table[i]).len() == table.len(),
        forall|i: int| 0 <= i < table.len() ==> is_mask(#[trigger] table[i]),
    ensures
        direction != Direction::Direct ==> rule_spec(table, direction, encode_spec(t)) =~= table[tile_index(t)],
        direction == Direction::Direct ==> rule_spec(table, direction, encode_spec(t)) == encode_spec(t),
{
    if direction != Direction::Direct {
        let trigger = encode_spec(t);
        let k = tile_index(t);
        assert forall|j: int| 0 <= j < trigger.len() implies union_mask(table, trigger)[j]
            == table[k][j] by {
            assert(trigger[k] == 1);
            if table[k][j] == 1 {
                assert(exists|i: int|
                    0 <= i < trigger.len() && trigger[i] == 1 && table[i][j] == 1);
            } else {
                assert(table[k][j] == 0);
                assert forall|i: int|
                    0 <= i < trigger.len() && trigger[i] == 1 implies table[i][j] != 1 by {
                    assert(i == k);
                }
            }
        }
    }
}

} // verus!
