//! A fingerprint shadowed by a membership set that notices misplaced calls.

use crate::copiable_hash::{
    slots_inserted, slots_swap_removed, swap_removed, CopiableHash, DEBUG_MAP_HASH_SIZE,
};
use crate::fold::{
    fold, fold_all, lemma_fold_all_push, lemma_fold_all_remove, lemma_fold_self_inverse,
};
use crate::fx::fx_digest;
use crate::ZobristHashSet;
use std::hash::Hash;
use vstd::prelude::*;
use vstd::std_specs::convert::FromSpecImpl;

verus! {

/// Why a call on a shadowed fingerprint was refused.
#[derive(Clone, Copy, Debug, PartialEq, Eq)]
pub enum Misuse {
    /// The key to add is in the set already.
    AlreadyPresent,
    /// The key to remove is not in the set.
    NotPresent,
    /// The key to add is new, and the shadow set holds
    /// [`DEBUG_MAP_HASH_SIZE`] digests already.
    CapacityExhausted,
}

/// What an addition of `digest` meets where `shadow` lists the digests that
/// are in the set: it is in order where the digest is not among them and
/// there is room for it. Where nothing is known of the set every call is in
/// order.
pub open spec fn add_verdict(shadow: Option<Seq<u64>>, digest: u64) -> Result<(), Misuse> {
    match shadow {
        Some(s) => if s.contains(digest) {
            Err(Misuse::AlreadyPresent)
        } else if s.len() >= DEBUG_MAP_HASH_SIZE {
            Err(Misuse::CapacityExhausted)
        } else {
            Ok(())
        },
        None => Ok(()),
    }
}

/// What a removal of `digest` meets: it is in order where the digest is in
/// the set, or nothing is known of the set.
pub open spec fn remove_verdict(shadow: Option<Seq<u64>>, digest: u64) -> Result<(), Misuse> {
    match shadow {
        Some(s) => if s.contains(digest) {
            Ok(())
        } else {
            Err(Misuse::NotPresent)
        },
        None => Ok(()),
    }
}

/// The digests after an addition that was in order.
pub open spec fn shadow_after_add(shadow: Option<Seq<u64>>, digest: u64) -> Option<Seq<u64>> {
    match shadow {
        Some(s) => Some(s.push(digest)),
        None => None,
    }
}

/// The digests after a removal that was in order.
pub open spec fn shadow_after_remove(shadow: Option<Seq<u64>>, digest: u64) -> Option<
    Seq<u64>,
> {
    match shadow {
        Some(s) => Some(swap_removed(s, digest)),
        None => None,
    }
}

/// The slots of the shadow set after an addition that was in order.
pub open spec fn shadow_slots_after_add(
    slots: Option<Seq<Option<u64>>>,
    shadow: Option<Seq<u64>>,
    digest: u64,
) -> Option<Seq<Option<u64>>> {
    match (slots, shadow) {
        (Some(t), Some(s)) => Some(slots_inserted(t, s, digest)),
        _ => slots,
    }
}

/// The slots of the shadow set after a removal that was in order.
pub open spec fn shadow_slots_after_remove(
    slots: Option<Seq<Option<u64>>>,
    shadow: Option<Seq<u64>>,
    digest: u64,
) -> Option<Seq<Option<u64>>> {
    match (slots, shadow) {
        (Some(t), Some(s)) => Some(slots_swap_removed(t, s, digest)),
        _ => slots,
    }
}

/// Answer, fingerprint and digests after a call that adds `digest`: a call
/// that is not in order is refused and changes nothing.
pub open spec fn add_outcome(value: u64, shadow: Option<Seq<u64>>, digest: u64) -> (
    Result<(), Misuse>,
    u64,
    Option<Seq<u64>>,
) {
    if add_verdict(shadow, digest).is_ok() {
        (Ok(()), fold(value, digest), shadow_after_add(shadow, digest))
    } else {
        (add_verdict(shadow, digest), value, shadow)
    }
}

/// Answer, fingerprint and digests after a call that removes `digest`: a
/// call that is not in order is refused and changes nothing.
pub open spec fn remove_outcome(value: u64, shadow: Option<Seq<u64>>, digest: u64) -> (
    Result<(), Misuse>,
    u64,
    Option<Seq<u64>>,
) {
    if remove_verdict(shadow, digest).is_ok() {
        (Ok(()), fold(value, digest), shadow_after_remove(shadow, digest))
    } else {
        (remove_verdict(shadow, digest), value, shadow)
    }
}

/// Taking a digest out of a sequence by swap-removal folds it out of the
/// sequence's fingerprint.
pub proof fn lemma_fold_all_swap_removed(value: u64, s: Seq<u64>, digest: u64)
    requires
        s.contains(digest),
    ensures
        fold_all(value, swap_removed(s, digest)) == fold(fold_all(value, s), digest),
{
    let k = s.index_of(digest);
    let r = swap_removed(s, digest);
    let rest = s.remove(k);
    lemma_fold_all_remove(value, s, k);
    lemma_fold_self_inverse(fold_all(value, rest), digest);
    if k == s.len() - 1 {
        assert(r =~= rest);
    } else {
        lemma_fold_all_remove(value, r, k);
        assert(r.remove(k) =~= rest.drop_last());
        assert(rest.last() == s.last());
    }
}

/// A [`ZobristHashSet`] together with the set of digests that were added and
/// not yet removed, as far as that set is known.
#[derive(Debug)]
pub struct CheckedZobristHashSet<E> {
    set: ZobristHashSet<E>,
    checker: Option<CopiableHash<E>>,
}

impl<E> Copy for CheckedZobristHashSet<E> {

}

impl<E> Clone for CheckedZobristHashSet<E> {
    fn clone(&self) -> (r: Self)
        ensures
            r == *self,
    {
        *self
    }
}

impl<E> View for CheckedZobristHashSet<E> {
    type V = u64;

    /// The fingerprint.
    closed spec fn view(&self) -> u64 {
        self.set@
    }
}

impl<E> CheckedZobristHashSet<E> {
    /// The digests in the set, in the order the shadow set holds them; `None`
    /// where the fingerprint was made from a bare value and its set is unknown.
    pub closed spec fn shadow(&self) -> Option<Seq<u64>> {
        match self.checker {
            Some(c) => Some(c@),
            None => None,
        }
    }

    /// All slots of the shadow set, the occupied ones and what lies past
    /// them; `None` where there is no shadow set.
    pub closed spec fn shadow_slots(&self) -> Option<Seq<Option<u64>>> {
        match self.checker {
            Some(c) => Some(c.slots()),
            None => None,
        }
    }

    /// The shadow set is well formed and the fingerprint is the fold of the
    /// digests it holds.
    pub closed spec fn wf(&self) -> bool {
        match self.checker {
            Some(c) => c.wf() && self.set@ == fold_all(0, c@),
            None => true,
        }
    }

    /// What well-formedness says of a shadowed fingerprint: the fingerprint is
    /// the XOR of the digests in the set, each of which is there once, and an
    /// emptied set is back at zero.
    pub proof fn lemma_wf_shadow(&self)
        requires
            self.wf(),
            self.shadow().is_some(),
        ensures
            self@ == fold_all(0, self.shadow().unwrap()),
            self.shadow().unwrap().no_duplicates(),
            self.shadow().unwrap().len() <= DEBUG_MAP_HASH_SIZE,
            self.shadow().unwrap().len() == 0 ==> self@ == 0,
            self.shadow_slots().is_some(),
            self.shadow_slots().unwrap().len() == DEBUG_MAP_HASH_SIZE,
            forall|i: int|
                0 <= i < self.shadow().unwrap().len() ==> self.shadow_slots().unwrap()[i] == Some(
                    self.shadow().unwrap()[i],
                ),
    {
        self.checker.unwrap().lemma_wf_bounds();
    }

    /// The fingerprint of the empty set, shadowed from here on.
    pub fn empty() -> (r: Self)
        ensures
            r.wf(),
            r@ == 0,
            r.shadow() == Some(Seq::<u64>::empty()),
            r.shadow_slots().is_some(),
            r.shadow_slots().unwrap().len() == DEBUG_MAP_HASH_SIZE,
            forall|i: int|
                0 <= i < DEBUG_MAP_HASH_SIZE ==> r.shadow_slots().unwrap()[i].is_none(),
    {
        Self { set: ZobristHashSet::empty(), checker: Some(CopiableHash::empty()) }
    }

    /// Whether the set of digests is known.
    pub fn is_shadowed(&self) -> (r: bool)
        ensures
            r == self.shadow().is_some(),
    {
        self.checker.is_some()
    }

    /// Adds a digest that is not in the set.
    pub fn add_digest(&mut self, digest: u64)
        requires
            old(self).wf(),
            add_verdict(old(self).shadow(), digest).is_ok(),
        ensures
            final(self).wf(),
            final(self)@ == fold(old(self)@, digest),
            final(self).shadow() == shadow_after_add(old(self).shadow(), digest),
            final(self).shadow_slots() == shadow_slots_after_add(
                old(self).shadow_slots(),
                old(self).shadow(),
                digest,
            ),
    {
        match &mut self.checker {
            Some(c) => {
                proof {
                    lemma_fold_all_push(0, c@, digest);
                }
                c.insert_digest(digest);
            },
            None => {},
        }
        self.set.fold_digest(digest);
    }

    /// Removes a digest that is in the set.
    pub fn remove_digest(&mut self, digest: u64)
        requires
            old(self).wf(),
            remove_verdict(old(self).shadow(), digest).is_ok(),
        ensures
            final(self).wf(),
            final(self)@ == fold(old(self)@, digest),
            final(self).shadow() == shadow_after_remove(old(self).shadow(), digest),
            final(self).shadow_slots() == shadow_slots_after_remove(
                old(self).shadow_slots(),
                old(self).shadow(),
                digest,
            ),
    {
        match &mut self.checker {
            Some(c) => {
                proof {
                    lemma_fold_all_swap_removed(0, c@, digest);
                }
                c.remove_digest(digest);
            },
            None => {},
        }
        self.set.fold_digest(digest);
    }

    /// Whether an addition of `digest` is in order, and if not, why.
    pub fn check_add(&self, digest: u64) -> (r: Result<(), Misuse>)
        requires
            self.wf(),
        ensures
            r == add_verdict(self.shadow(), digest),
    {
        match &self.checker {
            Some(c) => {
                if c.position(digest).is_some() {
                    Err(Misuse::AlreadyPresent)
                } else if c.len() >= DEBUG_MAP_HASH_SIZE {
                    Err(Misuse::CapacityExhausted)
                } else {
                    Ok(())
                }
            },
            None => Ok(()),
        }
    }

    /// Whether a removal of `digest` is in order, and if not, why.
    pub fn check_remove(&self, digest: u64) -> (r: Result<(), Misuse>)
        requires
            self.wf(),
        ensures
            r == remove_verdict(self.shadow(), digest),
    {
        match &self.checker {
            Some(c) => {
                if c.position(digest).is_some() {
                    Ok(())
                } else {
                    Err(Misuse::NotPresent)
                }
            },
            None => Ok(()),
        }
    }
}

impl<E> From<u64> for CheckedZobristHashSet<E> {
    /// The fingerprint with exactly this value. Its set cannot be known, so
    /// nothing is known of it and every later call is in order.
    fn from(hash: u64) -> (r: Self)
        ensures
            r.wf(),
            r@ == hash,
            r.shadow().is_none(),
            r.shadow_slots().is_none(),
    {
        Self { set: ZobristHashSet::from(hash), checker: None }
    }
}

impl<E> FromSpecImpl<u64> for CheckedZobristHashSet<E> {
    open spec fn obeys_from_spec() -> bool {
        true
    }

    closed spec fn from_spec(hash: u64) -> Self {
        Self {
            set: ZobristHashSet::with_value(hash),
            checker: None,
        }
    }
}

impl<E> From<CheckedZobristHashSet<E>> for u64 {
    /// The value of the fingerprint.
    fn from(hash: CheckedZobristHashSet<E>) -> (r: u64)
        ensures
            r == hash@,
    {
        u64::from(hash.set)
    }
}

impl<E> FromSpecImpl<CheckedZobristHashSet<E>> for u64 {
    open spec fn obeys_from_spec() -> bool {
        true
    }

    open spec fn from_spec(hash: CheckedZobristHashSet<E>) -> u64 {
        hash@
    }
}

impl<E: Hash + Eq + Clone> CheckedZobristHashSet<E> {
    /// Takes `key` into the set. Where the set is known and holds the key's
    /// digest already, or has no room for it, the call is refused: it says
    /// why and changes nothing.
    pub fn add(&mut self, key: &E) -> (r: Result<(), Misuse>)
        requires
            old(self).wf(),
        ensures
            final(self).wf(),
            exists|digest: u64|
                {
                    &&& (r, final(self)@, final(self).shadow()) == #[trigger] add_outcome(
                        old(self)@,
                        old(self).shadow(),
                        digest,
                    )
                    &&& r.is_ok() ==> final(self).shadow_slots() == shadow_slots_after_add(
                        old(self).shadow_slots(),
                        old(self).shadow(),
                        digest,
                    )
                },
            r.is_err() ==> *final(self) == *old(self),
    {
        let digest = fx_digest(key);
        let r = self.check_add(digest);
        if r.is_ok() {
            self.add_digest(digest);
        }
        assert((r, self@, self.shadow()) == add_outcome(old(self)@, old(self).shadow(), digest));
        r
    }

    /// Takes `key` out of the set. Where the set is known and does not hold
    /// the key's digest, the call is refused: it says so and changes nothing.
    pub fn remove(&mut self, key: &E) -> (r: Result<(), Misuse>)
        requires
            old(self).wf(),
        ensures
            final(self).wf(),
            exists|digest: u64|
                {
                    &&& (r, final(self)@, final(self).shadow()) == #[trigger] remove_outcome(
                        old(self)@,
                        old(self).shadow(),
                        digest,
                    )
                    &&& r.is_ok() ==> final(self).shadow_slots() == shadow_slots_after_remove(
                        old(self).shadow_slots(),
                        old(self).shadow(),
                        digest,
                    )
                },
            r.is_err() ==> *final(self) == *old(self),
    {
        let digest = fx_digest(key);
        let r = self.check_remove(digest);
        if r.is_ok() {
            self.remove_digest(digest);
        }
        assert((r, self@, self.shadow()) == remove_outcome(
            old(self)@,
            old(self).shadow(),
            digest,
        ));
        r
    }
}

} // verus!
