//! Zobrist-style incremental fingerprints of a mutable set of keys.
//!
//! [`ZobristHashSet`] keeps one `u64`, the XOR of the digests of the keys
//! that are currently in the set. [`copiable_hash::CopiableHash`] is a
//! bounded, copiable membership set of digests, and
//! [`checked::CheckedZobristHashSet`] pairs the two so that a misplaced call
//! is noticed.

use crate::fold::fold;
use crate::fx::fx_digest;
use std::hash::Hash;
use std::marker::PhantomData;
use vstd::prelude::*;
use vstd::std_specs::convert::FromSpecImpl;

pub mod checked;
pub mod copiable_hash;
pub mod fold;
mod fx;
pub mod reference;

verus! {

/// Fingerprint of a set of keys of type `E`: the XOR of their digests.
///
/// No table is kept; every key is hashed with `FxHasher` when it is added or
/// removed. The type parameter only keeps fingerprints over different key
/// types apart.
#[derive(Debug)]
pub struct ZobristHashSet<E> {
    hash: u64,
    _data: PhantomData<E>,
}

impl<E> Copy for ZobristHashSet<E> {

}

impl<E> Clone for ZobristHashSet<E> {
    fn clone(&self) -> (r: Self)
        ensures
            r == *self,
    {
        *self
    }
}

impl<E> View for ZobristHashSet<E> {
    type V = u64;

    /// The fingerprint.
    closed spec fn view(&self) -> u64 {
        self.hash
    }
}

impl<E> Default for ZobristHashSet<E> {
    fn default() -> (r: Self)
        ensures
            r@ == 0,
    {
        Self::empty()
    }
}

impl<E> ZobristHashSet<E> {
    /// The fingerprint whose value is `hash`.
    pub closed spec fn with_value(hash: u64) -> Self {
        Self { hash, _data: PhantomData }
    }

    /// The fingerprint of the empty set.
    pub fn empty() -> (r: Self)
        ensures
            r@ == 0,
    {
        Self { hash: 0, _data: PhantomData }
    }

    /// Folds one digest in or out; the two are the same operation.
    pub fn fold_digest(&mut self, digest: u64)
        ensures
            final(self)@ == fold(old(self)@, digest),
    {
        self.hash = self.hash ^ digest;
    }
}

impl<E> From<u64> for ZobristHashSet<E> {
    /// The fingerprint with exactly this value.
    fn from(hash: u64) -> (r: Self)
        ensures
            r@ == hash,
    {
        Self { hash, _data: PhantomData }
    }
}

impl<E> FromSpecImpl<u64> for ZobristHashSet<E> {
    open spec fn obeys_from_spec() -> bool {
        true
    }

    closed spec fn from_spec(hash: u64) -> Self {
        Self::with_value(hash)
    }
}

impl<E> From<ZobristHashSet<E>> for u64 {
    /// The value of the fingerprint.
    fn from(hash: ZobristHashSet<E>) -> (r: u64)
        ensures
            r == hash@,
    {
        hash.hash
    }
}

impl<E> FromSpecImpl<ZobristHashSet<E>> for u64 {
    open spec fn obeys_from_spec() -> bool {
        true
    }

    open spec fn from_spec(hash: ZobristHashSet<E>) -> u64 {
        hash@
    }
}

impl<E: Hash + Clone> ZobristHashSet<E> {
    /// Takes `key` into the set: its digest is folded into the fingerprint.
    pub fn add(&mut self, key: &E)
        ensures
            exists|digest: u64| final(self)@ == #[trigger] fold(old(self)@, digest),
    {
        add_remove_impl(self, key);
    }

    /// Takes `key` out of the set: its digest is folded into the fingerprint
    /// once more.
    pub fn remove(&mut self, key: &E)
        ensures
            exists|digest: u64| final(self)@ == #[trigger] fold(old(self)@, digest),
    {
        add_remove_impl(self, key);
    }
}

fn add_remove_impl<E: Hash>(zobrist_hash: &mut ZobristHashSet<E>, key: &E)
    ensures
        exists|digest: u64| final(zobrist_hash)@ == #[trigger] fold(old(zobrist_hash)@, digest),
{
    let digest = fx_digest(key);
    zobrist_hash.fold_digest(digest);
    assert(zobrist_hash@ == fold(old(zobrist_hash)@, digest));
}

} // verus!
