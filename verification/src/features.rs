use vstd::prelude::*;

verus! {

/// A feature vector is canonical when every slot is 0 or 1: slot `i` says
/// whether tile `i` is still possible for the cell.
pub open spec fn is_mask(s: Seq<usize>) -> bool {
    forall|i: int| 0 <= i < s.len() ==> s[i] <= 1
}

/// Number of possible tiles remaining in a feature vector: the sum of its
/// slots. Entropy 0 is a contradiction, 1 a collapsed cell, more a
/// superposition.
pub open spec fn entropy_of(s: Seq<usize>) -> int
    decreases s.len(),
{
    if s.len() == 0 {
        0
    } else {
        entropy_of(s.drop_last()) + s.last()
    }
}

/// Elementwise product of two feature vectors: the intersection of the
/// possibilities they admit.
pub open spec fn masked(a: Seq<usize>, b: Seq<usize>) -> Seq<usize> {
    Seq::new(a.len(), |i: int| (a[i] * b[i]) as usize)
}

/// The vector of length `len` whose only set slot is `i`.
pub open spec fn one_hot(len: nat, i: int) -> Seq<usize> {
    Seq::new(len, |j: int| if j == i { 1usize } else { 0usize })
}

/// Entropy of a prefix grows slot by slot.
pub proof fn lemma_entropy_take_step(s: Seq<usize>, n: int)
    requires
        0 <= n < s.len(),
    ensures
        entropy_of(s.take(n + 1)) == entropy_of(s.take(n)) + s[n],
{
    assert(s.take(n + 1).drop_last() =~= s.take(n));
}

/// A vector equals the prefix of itself of full length.
pub proof fn lemma_take_full(s: Seq<usize>)
    ensures
        entropy_of(s.take(s.len() as int)) == entropy_of(s),
{
    assert(s.take(s.len() as int) =~= s);
}

/// Entropy never exceeds the width of a canonical vector and is never
/// negative.
pub proof fn lemma_entropy_bounds(s: Seq<usize>)
    requires
        is_mask(s),
    ensures
        0 <= entropy_of(s) <= s.len(),
    decreases s.len(),
{
    if s.len() > 0 {
        lemma_entropy_bounds(s.drop_last());
    }
}

/// Entropy is monotone under pointwise narrowing of canonical vectors.
pub proof fn lemma_entropy_pointwise_le(a: Seq<usize>, b: Seq<usize>)
    requires
        a.len() == b.len(),
        forall|i: int| 0 <= i < a.len() ==> a[i] <= b[i],
    ensures
        entropy_of(a) <= entropy_of(b),
    decreases a.len(),
{
    if a.len() > 0 {
        lemma_entropy_pointwise_le(a.drop_last(), b.drop_last());
    }
}

/// Masking a canonical vector narrows it pointwise and keeps it canonical.
pub proof fn lemma_masked_narrows(a: Seq<usize>, b: Seq<usize>)
    requires
        a.len() == b.len(),
        is_mask(a),
        is_mask(b),
    ensures
        masked(a, b).len() == a.len(),
        is_mask(masked(a, b)),
        forall|i: int| 0 <= i < a.len() ==> masked(a, b)[i] <= a[i],
        entropy_of(masked(a, b)) <= entropy_of(a),
{
    assert forall|i: int| 0 <= i < a.len() implies masked(a, b)[i] <= a[i] && masked(a, b)[i]
        <= 1 by {
        assert(a[i] * b[i] <= a[i] * 1) by (nonlinear_arith)
            requires b[i] <= 1, a[i] >= 0;
    }
    lemma_entropy_pointwise_le(masked(a, b), a);
}

/// Masking a canonical vector never keeps a possibility the mask excludes:
/// the result lies slotwise below the mask itself.
pub proof fn lemma_masked_le_mask(a: Seq<usize>, b: Seq<usize>)
    requires
        a.len() == b.len(),
        is_mask(a),
    ensures
        forall|i: int| 0 <= i < a.len() ==> masked(a, b)[i] <= b[i],
{
    assert forall|i: int| 0 <= i < a.len() implies masked(a, b)[i] <= b[i] by {
        assert(a[i] * b[i] <= 1 * b[i]) by (nonlinear_arith)
            requires a[i] <= 1, b[i] >= 0;
    }
}

/// Masking twice by the same canonical mask is the same as masking once.
pub proof fn lemma_masked_idempotent(a: Seq<usize>, b: Seq<usize>)
    requires
        a.len() == b.len(),
        is_mask(b),
    ensures
        masked(masked(a, b), b) =~= masked(a, b),
{
    assert forall|i: int| 0 <= i < a.len() implies masked(masked(a, b), b)[i] == masked(a, b)[i] by {
        if b[i] == 0 {
            assert(a[i] * 0 == 0) by (nonlinear_arith);
        } else {
            assert(b[i] == 1);
            assert(a[i] * 1 == a[i]) by (nonlinear_arith);
            assert(masked(a, b)[i] == a[i]);
        }
    }
}

/// The one-hot vector is canonical and has entropy exactly 1.
pub proof fn lemma_one_hot_entropy(len: nat, i: int)
    requires
        0 <= i < len,
    ensures
        one_hot(len, i).len() == len,
        is_mask(one_hot(len, i)),
        entropy_of(one_hot(len, i)) == 1,
{
    lemma_one_hot_prefix(len, i, len as int);
    lemma_take_full(one_hot(len, i));
}

proof fn lemma_one_hot_prefix(len: nat, i: int, n: int)
    requires
        0 <= i < len,
        0 <= n <= len,
    ensures
        entropy_of(one_hot(len, i).take(n)) == if i < n { 1int } else { 0int },
    decreases n,
{
    if n > 0 {
        lemma_one_hot_prefix(len, i, n - 1);
        lemma_entropy_take_step(one_hot(len, i), n - 1);
    }
    if n == len {
        lemma_take_full(one_hot(len, i));
    }
}

/// Masking a vector whose slot `i` is set by the one-hot vector at `i`
/// yields the one-hot vector itself: forcing a possible feature collapses
/// the cell to exactly that feature.
pub proof fn lemma_mask_by_possible_one_hot(a: Seq<usize>, i: int)
    requires
        is_mask(a),
        0 <= i < a.len(),
        a[i] == 1,
    ensures
        masked(a, one_hot(a.len(), i)) =~= one_hot(a.len(), i),
{
}

/// A canonical vector has positive entropy exactly when some slot is set.
pub proof fn lemma_entropy_positive(s: Seq<usize>)
    requires
        is_mask(s),
    ensures
        entropy_of(s) > 0 <==> exists|i: int| 0 <= i < s.len() && s[i] == 1,
    decreases s.len(),
{
    lemma_entropy_bounds(s);
    if s.len() > 0 {
        let d = s.drop_last();
        assert(is_mask(d));
        lemma_entropy_positive(d);
        lemma_entropy_bounds(d);
        if s.last() == 1 {
            assert(s[s.len() - 1] == 1);
            assert(entropy_of(s) == entropy_of(d) + 1);
        } else {
            assert(s.last() == 0);
            assert(entropy_of(s) == entropy_of(d));
            if exists|i: int| 0 <= i < s.len() && s[i] == 1 {
                let i = choose|i: int| 0 <= i < s.len() && s[i] == 1;
                assert(i != s.len() - 1);
                assert(d[i] == 1);
                assert(entropy_of(d) > 0);
            }
            if entropy_of(s) > 0 {
                let i = choose|i: int| 0 <= i < d.len() && d[i] == 1;
                assert(s[i] == 1);
            }
        }
    }
}

/// Runtime entropy of a feature vector.
pub fn entropy(v: &Vec<usize>) -> (e: usize)
    requires
        is_mask(v@),
    ensures
        e == entropy_of(v@),
{
    let mut e: usize = 0;
    let mut i: usize = 0;
    proof {
        lemma_entropy_bounds(v@);
    }
    while i < v.len()
        invariant
            0 <= i <= v.len(),
            is_mask(v@),
            e == entropy_of(v@.take(i as int)),
            e <= i,
        decreases v.len() - i,
    {
        proof {
            lemma_entropy_take_step(v@, i as int);
        }
        e = e + v[i];
        i = i + 1;
    }
    proof {
        lemma_take_full(v@);
    }
    e
}

/// A fresh feature vector with the same slots.
pub fn copy_features(v: &Vec<usize>) -> (r: Vec<usize>)
    ensures
        r@ =~= v@,
{
    let mut r: Vec<usize> = Vec::new();
    let mut i: usize = 0;
    while i < v.len()
        invariant
            0 <= i <= v.len(),
            r@.len() == i,
            forall|j: int| 0 <= j < i ==> r@[j] == v@[j],
        decreases v.len() - i,
    {
        r.push(v[i]);
        i = i + 1;
    }
    r
}

/// Build the one-hot vector of width `len` set at `index`.
pub fn build_one_hot(len: usize, index: usize) -> (v: Vec<usize>)
    requires
        index < len,
    ensures
        v@ =~= one_hot(len as nat, index as int),
{
    let mut v: Vec<usize> = Vec::new();
    let mut i: usize = 0;
    while i < len
        invariant
            0 <= i <= len,
            index < len,
            v@.len() == i,
            forall|j: int| 0 <= j < i ==> v@[j] == one_hot(len as nat, index as int)[j],
        decreases len - i,
    {
        if i == index {
            v.push(1);
        } else {
            v.push(0);
        }
        i = i + 1;
    }
    v
}

} // verus!
