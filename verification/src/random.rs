use vstd::prelude::*;
use crate::features::{
    build_one_hot, entropy_of, is_mask, lemma_entropy_bounds, lemma_entropy_positive, one_hot,
};
use crate::tile::WfcError;
use rand::seq::SliceRandom;

verus! {

/// Relies on rand's SliceRandom::choose: on a non-empty slice it returns
/// `Some` of an element at a drawn in-range index. Which element comes back
/// depends on the generator's state, so only membership is promised.
#[verifier::external_body]
fn choose_from<R: rand::RngCore>(list: &Vec<usize>, rnd: &mut R) -> (r: usize)
    requires
        list@.len() > 0,
    ensures
        list@.contains(r),
{
    *list.as_slice().choose(rnd).expect("list is not empty")
}

/// Relies on rand's SliceRandom::choose, driven by the thread-local
/// generator that rand::rngs::ThreadRng::default hands out: on a non-empty
/// slice the drawn index is in range, so the result is an element of the
/// list. Which element comes back depends on the generator's state, so only
/// membership is promised.
#[verifier::external_body]
pub fn choose_from_thread_rng(list: &Vec<usize>) -> (r: usize)
    requires
        list@.len() > 0,
    ensures
        list@.contains(r),
{
    let mut rnd = rand::rngs::ThreadRng::default();
    *list.as_slice().choose(&mut rnd).expect("list is not empty")
}

/// Draw one still-possible feature of a superposition uniformly at random
/// and return it as a one-hot vector. A vector with no possible feature left
/// is a contradiction the caller's scan must have excluded, and is answered
/// with `InvariantViolation`.
pub fn get_rnd_tile<R: rand::RngCore>(superposition: &Vec<usize>, rnd: &mut R) -> (r: Result<
    Vec<usize>,
    WfcError,
>)
    requires
        is_mask(superposition@),
    ensures
        match r {
            Ok(v) => exists|i: int|
                0 <= i < superposition@.len() && superposition@[i] == 1 && v@ == one_hot(
                    superposition@.len(),
                    i,
                ),
            Err(e) => e == WfcError::InvariantViolation && entropy_of(superposition@) == 0,
        },
{
    let index_list = possible_indices(superposition);
    if index_list.len() == 0 {
        return Err(WfcError::InvariantViolation);
    }
    let index = choose_from(&index_list, rnd);
    proof {
        let k = choose|k: int| 0 <= k < index_list@.len() && index == index_list@[k];
        assert(superposition@[index as int] == 1);
    }
    let v = build_one_hot(superposition.len(), index);
    Ok(v)
}

/// The indices of the still-possible features of a superposition: every set
/// slot's index, each exactly once, in strictly increasing order; empty
/// exactly when the vector is a contradiction.
pub fn possible_indices(superposition: &Vec<usize>) -> (r: Vec<usize>)
    requires
        is_mask(superposition@),
    ensures
        forall|k: int|
            0 <= k < r@.len() ==> (#[trigger] r@[k]) < superposition@.len()
                && superposition@[r@[k] as int] == 1,
        forall|j: usize|
            j < superposition@.len() && superposition@[j as int] == 1 ==> r@.contains(j),
        forall|a: int, b: int| 0 <= a < b < r@.len() ==> r@[a] < r@[b],
        r@.len() == 0 <==> entropy_of(superposition@) == 0,
{
    let mut index_list: Vec<usize> = Vec::new();
    let mut i: usize = 0;
    while i < superposition.len()
        invariant
            0 <= i <= superposition@.len(),
            is_mask(superposition@),
            forall|k: int|
                0 <= k < index_list@.len() ==> (#[trigger] index_list@[k]) < superposition@.len()
                    && superposition@[index_list@[k] as int] == 1,
            forall|j: usize|
                j < i && superposition@[j as int] == 1 ==> index_list@.contains(j),
            forall|a: int, b: int| 0 <= a < b < index_list@.len() ==> index_list@[a]
                < index_list@[b],
            forall|k: int| 0 <= k < index_list@.len() ==> (#[trigger] index_list@[k]) < i,
            index_list@.len() == 0 ==> forall|j: int| 0 <= j < i ==> superposition@[j] != 1,
        decreases superposition@.len() - i,
    {
        if superposition[i] != 0 {
            let ghost before = index_list@;
            index_list.push(i);
            proof {
                assert forall|j: usize|
                    j < i + 1 && superposition@[j as int] == 1 implies index_list@.contains(j) by {
                    if j < i {
                        let k = choose|k: int| 0 <= k < before.len() && before[k] == j;
                        assert(index_list@[k] == j);
                    } else {
                        assert(index_list@[index_list@.len() - 1] == j);
                    }
                }
            }
        }
        i = i + 1;
    }
    proof {
        lemma_entropy_positive(superposition@);
        lemma_entropy_bounds(superposition@);
        if index_list@.len() > 0 {
            assert(superposition@[index_list@[0] as int] == 1);
        }
    }
    index_list
}

} // verus!
