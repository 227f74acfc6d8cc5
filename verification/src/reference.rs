//! A bounded set of digests answers as an unbounded set does.

use crate::copiable_hash::{
    admits, insert_outcome, lemma_inserted, lemma_swap_removed, swap_removed, DEBUG_MAP_HASH_SIZE,
};
use vstd::prelude::*;

verus! {

/// One call on a set of digests.
pub enum Call {
    Insert(u64),
    Remove(u64),
}

/// What an unbounded set answers to `call`: an insertion says whether the
/// digest was new, a removal whether it was there.
pub open spec fn set_answer(set: Set<u64>, call: Call) -> bool {
    match call {
        Call::Insert(digest) => !set.contains(digest),
        Call::Remove(digest) => set.contains(digest),
    }
}

/// The unbounded set after `call`.
pub open spec fn set_after(set: Set<u64>, call: Call) -> Set<u64> {
    match call {
        Call::Insert(digest) => set.insert(digest),
        Call::Remove(digest) => set.remove(digest),
    }
}

/// The answers of an unbounded set to `calls`, made in turn.
pub open spec fn set_answers(set: Set<u64>, calls: Seq<Call>) -> Seq<bool>
    decreases calls.len(),
{
    if calls.len() == 0 {
        Seq::empty()
    } else {
        seq![set_answer(set, calls[0])] + set_answers(
            set_after(set, calls[0]),
            calls.drop_first(),
        )
    }
}

/// What a bounded set that holds `s` answers to `call`; `None` where it has
/// no room for a new digest.
pub open spec fn slots_answer(s: Seq<u64>, call: Call) -> Option<bool> {
    match call {
        Call::Insert(digest) => insert_outcome(s, digest).0,
        Call::Remove(digest) => Some(s.contains(digest)),
    }
}

/// What the bounded set holds after `call`.
pub open spec fn slots_after(s: Seq<u64>, call: Call) -> Seq<u64> {
    match call {
        Call::Insert(digest) => insert_outcome(s, digest).1,
        Call::Remove(digest) => swap_removed(s, digest),
    }
}

/// The answers of a bounded set to `calls`, made in turn.
pub open spec fn slots_answers(s: Seq<u64>, calls: Seq<Call>) -> Seq<Option<bool>>
    decreases calls.len(),
{
    if calls.len() == 0 {
        Seq::empty()
    } else {
        seq![slots_answer(s, calls[0])] + slots_answers(
            slots_after(s, calls[0]),
            calls.drop_first(),
        )
    }
}

/// One call leaves the bounded set duplicate-free, grows it by one digest at
/// most, and changes the digests it holds as it changes an unbounded set.
pub proof fn lemma_slots_step(s: Seq<u64>, call: Call)
    requires
        s.no_duplicates(),
    ensures
        slots_after(s, call).no_duplicates(),
        slots_after(s, call).len() <= s.len() + 1,
        slots_answer(s, call).is_some() ==> slots_after(s, call).to_set() == set_after(
            s.to_set(),
            call,
        ),
        slots_answer(s, call).is_some() ==> slots_answer(s, call) == Some(
            set_answer(s.to_set(), call),
        ),
        slots_answer(s, call).is_none() ==> slots_after(s, call) == s,
{
    match call {
        Call::Insert(digest) => {
            lemma_inserted(s, digest);
        },
        Call::Remove(digest) => {
            lemma_swap_removed(s, digest);
        },
    }
}

/// As long as the calls cannot fill the bounded set, it gives to every call
/// the answer that an unbounded set with the same digests gives.
pub proof fn lemma_answers_as_unbounded_set(s: Seq<u64>, calls: Seq<Call>)
    requires
        s.no_duplicates(),
        s.len() + calls.len() <= DEBUG_MAP_HASH_SIZE,
    ensures
        slots_answers(s, calls).len() == calls.len(),
        set_answers(s.to_set(), calls).len() == calls.len(),
        forall|i: int|
            0 <= i < calls.len() ==> #[trigger] slots_answers(s, calls)[i] == Some(
                set_answers(s.to_set(), calls)[i],
            ),
    decreases calls.len(),
{
    if calls.len() > 0 {
        let call = calls[0];
        lemma_slots_step(s, call);
        assert(slots_answer(s, call).is_some());
        lemma_answers_as_unbounded_set(slots_after(s, call), calls.drop_first());
    }
}

/// A set with a free slot takes every new digest in; a full set has no answer
/// for a new digest, and still answers for the digests it holds.
pub proof fn lemma_capacity_boundary(s: Seq<u64>, digest: u64)
    requires
        s.len() <= DEBUG_MAP_HASH_SIZE,
    ensures
        !s.contains(digest) && s.len() < DEBUG_MAP_HASH_SIZE ==> insert_outcome(s, digest) == (
            Some(true),
            s.push(digest),
        ),
        !s.contains(digest) && s.len() == DEBUG_MAP_HASH_SIZE ==> insert_outcome(s, digest) == (
            None::<bool>,
            s,
        ),
        s.contains(digest) ==> insert_outcome(s, digest) == (Some(false), s),
        admits(s, digest) <==> insert_outcome(s, digest).0.is_some(),
{
}

/// The unbounded set after `calls`, made in turn.
pub open spec fn set_run(set: Set<u64>, calls: Seq<Call>) -> Set<u64>
    decreases calls.len(),
{
    if calls.len() == 0 {
        set
    } else {
        set_after(set_run(set, calls.drop_last()), calls.last())
    }
}

/// What the bounded set holds after `calls`, made in turn.
pub open spec fn slots_run(s: Seq<u64>, calls: Seq<Call>) -> Seq<u64>
    decreases calls.len(),
{
    if calls.len() == 0 {
        s
    } else {
        slots_after(slots_run(s, calls.drop_last()), calls.last())
    }
}

/// Whether the last call on `digest` among `calls` was an insertion; where
/// no call was on the digest, whether `set` held it.
pub open spec fn held_after(set: Set<u64>, calls: Seq<Call>, digest: u64) -> bool
    decreases calls.len(),
{
    if calls.len() == 0 {
        set.contains(digest)
    } else {
        match calls.last() {
            Call::Insert(d) => d == digest || held_after(set, calls.drop_last(), digest),
            Call::Remove(d) => d != digest && held_after(set, calls.drop_last(), digest),
        }
    }
}

/// The last call on a digest decides whether the set holds it.
pub proof fn lemma_last_call_decides(set: Set<u64>, calls: Seq<Call>, digest: u64)
    ensures
        set_run(set, calls).contains(digest) == held_after(set, calls, digest),
    decreases calls.len(),
{
    if calls.len() > 0 {
        lemma_last_call_decides(set, calls.drop_last(), digest);
    }
}

/// As long as the calls cannot fill the bounded set, it holds after them
/// the digests that an unbounded set holds, each once.
pub proof fn lemma_run_as_unbounded_set(s: Seq<u64>, calls: Seq<Call>)
    requires
        s.no_duplicates(),
        s.len() + calls.len() <= DEBUG_MAP_HASH_SIZE,
    ensures
        slots_run(s, calls).no_duplicates(),
        slots_run(s, calls).len() <= s.len() + calls.len(),
        slots_run(s, calls).to_set() == set_run(s.to_set(), calls),
    decreases calls.len(),
{
    if calls.len() > 0 {
        lemma_run_as_unbounded_set(s, calls.drop_last());
        lemma_slots_step(slots_run(s, calls.drop_last()), calls.last());
    }
}

/// A set that starts empty and sees a removal as the last call on every
/// digest is empty again.
pub proof fn lemma_balanced_run_empties(calls: Seq<Call>)
    requires
        calls.len() <= DEBUG_MAP_HASH_SIZE,
        forall|digest: u64| !held_after(Set::empty(), calls, digest),
    ensures
        slots_run(Seq::empty(), calls) == Seq::<u64>::empty(),
{
    let s = Seq::<u64>::empty();
    let end = slots_run(s, calls);
    assert(s.to_set() =~= Set::<u64>::empty());
    lemma_run_as_unbounded_set(s, calls);
    if end.len() > 0 {
        lemma_last_call_decides(Set::empty(), calls, end[0]);
        assert(end.contains(end[0]));
        assert(end.to_set().contains(end[0]));
    }
    assert(end =~= Seq::<u64>::empty());
}

} // verus!
