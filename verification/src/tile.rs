use vstd::prelude::*;
use crate::features::{build_one_hot, entropy_of, is_mask, one_hot, lemma_one_hot_entropy};

verus! {

/// Width of every feature vector handled by the registered tile set: one
/// slot per tile.
pub const FEATURE_COUNT: usize = 5;

/// The registered tiles, one per feature slot.
#[derive(Clone, Copy, Debug, PartialEq, Eq, Structural)]
pub enum Tile {
    Water,
    Sand,
    Grass,
    Tree,
    Rock,
}

/// The ways the solver can fail.
#[derive(Clone, Copy, Debug, PartialEq, Eq, Structural)]
pub enum WfcError {
    /// The width of a rule table disagrees with the width of the feature
    /// vectors it is used on: a construction-time configuration error.
    ConfigMismatch,
    /// `decode` was called on a vector that is not the exact encoding of a
    /// registered tile.
    AmbiguousOrInvalidTile,
    /// The simulation loop reached a cell with no possible feature left, a
    /// state its own scan must rule out.
    InvariantViolation,
    /// Some cell of the grid has entropy 0: the generation run failed.
    Contradiction,
}

/// The feature slot a tile occupies.
pub open spec fn tile_index(t: Tile) -> int {
    match t {
        Tile::Water => 0,
        Tile::Sand => 1,
        Tile::Grass => 2,
        Tile::Tree => 3,
        Tile::Rock => 4,
    }
}

/// The encoding of a tile: the one-hot vector set at its slot.
pub open spec fn encode_spec(t: Tile) -> Seq<usize> {
    one_hot(FEATURE_COUNT as nat, tile_index(t))
}

/// The tile a vector decodes to: the unique tile whose encoding it is, if
/// any. A superposition, a contradiction, or a vector of another width
/// decodes to nothing.
pub open spec fn decode_spec(s: Seq<usize>) -> Option<Tile> {
    if s =~= encode_spec(Tile::Water) {
        Some(Tile::Water)
    } else if s =~= encode_spec(Tile::Sand) {
        Some(Tile::Sand)
    } else if s =~= encode_spec(Tile::Grass) {
        Some(Tile::Grass)
    } else if s =~= encode_spec(Tile::Tree) {
        Some(Tile::Tree)
    } else if s =~= encode_spec(Tile::Rock) {
        Some(Tile::Rock)
    } else {
        None
    }
}

/// Encode a tile as a feature vector. Total: every registered tile has a
/// one-hot encoding of the configured width.
pub fn encode(t: Tile) -> (v: Vec<usize>)
    ensures
        v@ =~= encode_spec(t),
        v@.len() == FEATURE_COUNT,
        is_mask(v@),
        entropy_of(v@) == 1,
{
    proof {
        lemma_one_hot_entropy(FEATURE_COUNT as nat, tile_index(t));
    }
    let index: usize = match t {
        Tile::Water => 0,
        Tile::Sand => 1,
        Tile::Grass => 2,
        Tile::Tree => 3,
        Tile::Rock => 4,
    };
    build_one_hot(FEATURE_COUNT, index)
}

/// Decode a feature vector into the tile it encodes. Fails with
/// `AmbiguousOrInvalidTile` exactly when the vector is not the one-hot
/// encoding of a registered tile.
pub fn decode(v: &Vec<usize>) -> (r: Result<Tile, WfcError>)
    ensures
        match decode_spec(v@) {
            Some(t) => r == Ok::<Tile, WfcError>(t),
            None => r == Err::<Tile, WfcError>(WfcError::AmbiguousOrInvalidTile),
        },
{
    if vec_eq(v, &encode(Tile::Water)) {
        Ok(Tile::Water)
    } else if vec_eq(v, &encode(Tile::Sand)) {
        Ok(Tile::Sand)
    } else if vec_eq(v, &encode(Tile::Grass)) {
        Ok(Tile::Grass)
    } else if vec_eq(v, &encode(Tile::Tree)) {
        Ok(Tile::Tree)
    } else if vec_eq(v, &encode(Tile::Rock)) {
        Ok(Tile::Rock)
    } else {
        Err(WfcError::AmbiguousOrInvalidTile)
    }
}

/// Slot-by-slot equality of two feature vectors.
fn vec_eq(a: &Vec<usize>, b: &Vec<usize>) -> (r: bool)
    ensures
        r <==> a@ =~= b@,
{
    if a.len() != b.len() {
        return false;
    }
    let mut i: usize = 0;
    while i < a.len()
        invariant
            0 <= i <= a.len(),
            a@.len() == b@.len(),
            forall|j: int| 0 <= j < i ==> a@[j] == b@[j],
        decreases a.len() - i,
    {
        if a[i] != b[i] {
            return false;
        }
        i = i + 1;
    }
    true
}

/// Decoding the encoding of any registered tile gives that tile back.
pub proof fn lemma_decode_encode_round_trip(t: Tile)
    ensures
        decode_spec(encode_spec(t)) == Some(t),
{
    assert forall|u: Tile| u != t implies !(encode_spec(t) =~= encode_spec(u)) by {
        assert(encode_spec(t)[tile_index(u)] == 0);
        assert(encode_spec(u)[tile_index(u)] == 1);
    }
}

} // verus!
