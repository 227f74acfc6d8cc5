//! The XOR fold of digests, and what holds of it.

use vstd::prelude::*;

verus! {

/// Folding one digest into a fingerprint. Taking a digest out is the same
/// operation.
pub open spec fn fold(value: u64, digest: u64) -> u64 {
    value ^ digest
}

/// Folding `digests` into `value`, first to last.
pub open spec fn fold_all(value: u64, digests: Seq<u64>) -> u64
    decreases digests.len(),
{
    if digests.len() == 0 {
        value
    } else {
        fold(fold_all(value, digests.drop_last()), digests.last())
    }
}

/// Folding the same digest in twice gives the fingerprint back: adding and
/// then removing a key, or removing and then adding it, changes nothing.
pub proof fn lemma_fold_self_inverse(value: u64, digest: u64)
    ensures
        fold(fold(value, digest), digest) == value,
{
    assert((value ^ digest) ^ digest == value) by (bit_vector);
}

/// Two folds can change places.
pub proof fn lemma_fold_commutes(value: u64, a: u64, b: u64)
    ensures
        fold(fold(value, a), b) == fold(fold(value, b), a),
{
    assert((value ^ a) ^ b == (value ^ b) ^ a) by (bit_vector);
}

/// Two fingerprints that started equal and took in different digests differ.
pub proof fn lemma_fold_injective(value: u64, a: u64, b: u64)
    ensures
        fold(value, a) == fold(value, b) <==> a == b,
{
    assert((value ^ a == value ^ b) <==> a == b) by (bit_vector);
}

/// Folding a sequence that ends in `digest` is folding the rest, then `digest`.
pub proof fn lemma_fold_all_push(value: u64, digests: Seq<u64>, digest: u64)
    ensures
        fold_all(value, digests.push(digest)) == fold(fold_all(value, digests), digest),
{
    assert(digests.push(digest).drop_last() =~= digests);
}

/// Any one digest of a sequence can be folded last.
pub proof fn lemma_fold_all_remove(value: u64, digests: Seq<u64>, i: int)
    requires
        0 <= i < digests.len(),
    ensures
        fold_all(value, digests) == fold(fold_all(value, digests.remove(i)), digests[i]),
    decreases digests.len(),
{
    let front = digests.drop_last();
    if i == digests.len() - 1 {
        assert(digests.remove(i) =~= front);
    } else {
        lemma_fold_all_remove(value, front, i);
        assert(digests.remove(i).drop_last() =~= front.remove(i));
        assert(digests.remove(i).last() == digests.last());
        lemma_fold_commutes(fold_all(value, front.remove(i)), digests[i], digests.last());
    }
}

/// Folding one sequence after another is folding their concatenation.
pub proof fn lemma_fold_all_concat(value: u64, a: Seq<u64>, b: Seq<u64>)
    ensures
        fold_all(value, a + b) == fold_all(fold_all(value, a), b),
    decreases b.len(),
{
    if b.len() == 0 {
        assert(a + b =~= a);
    } else {
        lemma_fold_all_concat(value, a, b.drop_last());
        assert((a + b).drop_last() =~= a + b.drop_last());
        assert((a + b).last() == b.last());
    }
}

/// Order independence: two sequences that hold the same digests the same
/// number of times fold to the same fingerprint, in whatever order each lists
/// them.
pub proof fn lemma_fold_all_permutation(value: u64, a: Seq<u64>, b: Seq<u64>)
    requires
        a.to_multiset() == b.to_multiset(),
    ensures
        fold_all(value, a) == fold_all(value, b),
    decreases a.len(),
{
    broadcast use vstd::seq_lib::group_to_multiset_ensures;

    if a.len() == 0 {
        assert(b.to_multiset().len() == 0);
        assert(b.len() == 0);
    } else {
        let d = a.last();
        let front = a.drop_last();
        assert(front.push(d) =~= a);
        assert(a.to_multiset().count(d) > 0);
        assert(b.contains(d));
        let j = b.index_of(d);
        assert(front.to_multiset() =~= a.to_multiset().remove(d));
        assert(b.remove(j).to_multiset() =~= b.to_multiset().remove(d));
        lemma_fold_all_permutation(value, front, b.remove(j));
        lemma_fold_all_remove(value, b, j);
    }
}

/// Folding a sequence twice over gives the fingerprint back.
pub proof fn lemma_fold_all_twice(value: u64, digests: Seq<u64>)
    ensures
        fold_all(fold_all(value, digests), digests) == value,
    decreases digests.len(),
{
    if digests.len() > 0 {
        let front = digests.drop_last();
        let d = digests.last();
        let paired = (front + front).push(d).push(d);
        assert(paired.to_multiset() =~= (digests + digests).to_multiset()) by {
            broadcast use vstd::seq_lib::group_to_multiset_ensures;

            vstd::seq_lib::lemma_multiset_commutative(front, front);
            vstd::seq_lib::lemma_multiset_commutative(digests, digests);
            assert(front.push(d) =~= digests);
        }
        lemma_fold_all_concat(value, digests, digests);
        lemma_fold_all_permutation(value, paired, digests + digests);
        lemma_fold_all_push(value, (front + front).push(d), d);
        lemma_fold_all_push(value, front + front, d);
        lemma_fold_self_inverse(fold_all(value, front + front), d);
        lemma_fold_all_concat(value, front, front);
        lemma_fold_all_twice(value, front);
    }
}

/// Zero baseline: where every digest that was added was also removed, the
/// fingerprint is back where it began, however the calls were interleaved.
/// `calls` lists the digests of all calls in the order they were made, `added`
/// and `removed` those of the additions and of the removals.
pub proof fn lemma_fold_all_balanced(
    value: u64,
    calls: Seq<u64>,
    added: Seq<u64>,
    removed: Seq<u64>,
)
    requires
        calls.to_multiset() == added.to_multiset().add(removed.to_multiset()),
        added.to_multiset() == removed.to_multiset(),
    ensures
        fold_all(value, calls) == value,
{
    vstd::seq_lib::lemma_multiset_commutative(added, removed);
    vstd::seq_lib::lemma_multiset_commutative(added, added);
    lemma_fold_all_permutation(value, calls, added + removed);
    lemma_fold_all_permutation(value, added + removed, added + added);
    lemma_fold_all_concat(value, added, added);
    lemma_fold_all_twice(value, added);
}

} // verus!
