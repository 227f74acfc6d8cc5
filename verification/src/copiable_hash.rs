//! A bounded membership set of digests with value semantics.

use crate::fx::fx_digest;
use std::hash::Hash;
use std::marker::PhantomData;
use vstd::prelude::*;

verus! {

/// Number of digests a [`CopiableHash`] can hold at once.
pub const DEBUG_MAP_HASH_SIZE: usize = 8192;

/// A set of at most [`DEBUG_MAP_HASH_SIZE`] digests, stored inline so that a
/// copy is a fully independent set.
#[derive(Debug, PartialEq, Eq)]
pub struct CopiableHash<E> {
    data: [Option<u64>; DEBUG_MAP_HASH_SIZE],
    len: usize,
    _marker: PhantomData<E>,
}

impl<E> Copy for CopiableHash<E> {

}

impl<E> Clone for CopiableHash<E> {
    /// A copy holds the same digests in slots of its own.
    fn clone(&self) -> (r: Self)
        ensures
            r == *self,
    {
        *self
    }
}

impl<E> Default for CopiableHash<E> {
    /// The empty set: the same value as [`CopiableHash::empty`] gives.
    fn default() -> (r: Self)
        ensures
            r.wf(),
            r@ == Seq::<u64>::empty(),
            r.slots().len() == DEBUG_MAP_HASH_SIZE,
            forall|i: int| 0 <= i < DEBUG_MAP_HASH_SIZE ==> r.slots()[i].is_none(),
    {
        Self::empty()
    }
}

/// What is left of `s` after `digest` was taken out by moving the last
/// element into its place.
pub open spec fn swap_removed(s: Seq<u64>, digest: u64) -> Seq<u64> {
    if s.contains(digest) {
        s.update(s.index_of(digest), s.last()).drop_last()
    } else {
        s
    }
}

/// Whether a set that holds `s` can answer an insertion of `digest`: it
/// already holds the digest, or it has a free slot.
pub open spec fn admits(s: Seq<u64>, digest: u64) -> bool {
    s.contains(digest) || s.len() < DEBUG_MAP_HASH_SIZE
}

/// What a set that holds `s` holds after an insertion of `digest`.
pub open spec fn inserted(s: Seq<u64>, digest: u64) -> Seq<u64> {
    if s.contains(digest) {
        s
    } else {
        s.push(digest)
    }
}

/// Answer and new content of a guarded insertion of `digest` into `s`: no
/// answer and no change where the set is full and the digest is new.
pub open spec fn insert_outcome(s: Seq<u64>, digest: u64) -> (Option<bool>, Seq<u64>) {
    if admits(s, digest) {
        (Some(!s.contains(digest)), inserted(s, digest))
    } else {
        (None, s)
    }
}

/// What a set that holds `s` holds after the insertion of each
/// of `digests` in turn; `None` where one of them finds the set full.
pub open spec fn inserted_all(s: Seq<u64>, digests: Seq<u64>) -> Option<Seq<u64>>
    decreases digests.len(),
{
    if digests.len() == 0 {
        Some(s)
    } else {
        match inserted_all(s, digests.drop_last()) {
            Some(t) => if admits(t, digests.last()) {
                Some(inserted(t, digests.last()))
            } else {
                None
            },
            None => None,
        }
    }
}

/// `slots` with the contents of slots `i` and `j` exchanged.
pub open spec fn swapped(slots: Seq<Option<u64>>, i: int, j: int) -> Seq<Option<u64>> {
    slots.update(i, slots[j]).update(j, slots[i])
}

/// The slots of a set that holds `s` after an insertion of `digest`: a new
/// digest is written into the first free slot, and no other slot changes.
pub open spec fn slots_inserted(slots: Seq<Option<u64>>, s: Seq<u64>, digest: u64) -> Seq<
    Option<u64>,
> {
    if s.contains(digest) || s.len() >= DEBUG_MAP_HASH_SIZE {
        slots
    } else {
        slots.update(s.len() as int, Some(digest))
    }
}

/// The slots of a set that holds `s` after a removal of `digest`: the slot
/// of the digest and the last occupied slot change places, so that the
/// digest taken out sits just past the digests held; no other slot changes.
pub open spec fn slots_swap_removed(slots: Seq<Option<u64>>, s: Seq<u64>, digest: u64) -> Seq<
    Option<u64>,
> {
    if s.contains(digest) {
        swapped(slots, s.index_of(digest), s.len() - 1)
    } else {
        slots
    }
}

/// Once one insertion has found the set full, the whole run has failed.
pub proof fn lemma_inserted_all_none(s: Seq<u64>, digests: Seq<u64>, n: int)
    requires
        0 <= n <= digests.len(),
        inserted_all(s, digests.take(n)).is_none(),
    ensures
        inserted_all(s, digests).is_none(),
    decreases digests.len() - n,
{
    if n == digests.len() {
        assert(digests.take(n) =~= digests);
    } else {
        assert(digests.take(n + 1).drop_last() =~= digests.take(n));
        lemma_inserted_all_none(s, digests, n + 1);
    }
}

/// Digests that cannot fill the set are all taken in, and the set holds at
/// most one digest more for each of them.
pub proof fn lemma_inserted_all_fits(s: Seq<u64>, digests: Seq<u64>)
    requires
        s.len() + digests.len() <= DEBUG_MAP_HASH_SIZE,
    ensures
        inserted_all(s, digests).is_some(),
        inserted_all(s, digests).unwrap().len() <= s.len() + digests.len(),
    decreases digests.len(),
{
    if digests.len() > 0 {
        lemma_inserted_all_fits(s, digests.drop_last());
    }
}

/// Swap-removal keeps a duplicate-free sequence duplicate-free and takes out
/// exactly the digest asked for.
pub proof fn lemma_swap_removed(s: Seq<u64>, digest: u64)
    requires
        s.no_duplicates(),
    ensures
        swap_removed(s, digest).no_duplicates(),
        swap_removed(s, digest).to_set() == s.to_set().remove(digest),
        s.contains(digest) ==> swap_removed(s, digest).len() == s.len() - 1,
{
    let r = swap_removed(s, digest);
    if s.contains(digest) {
        let k = s.index_of(digest);
        assert forall|x: u64| r.to_set().contains(x) <==> s.to_set().remove(digest).contains(
            x,
        ) by {
            if r.contains(x) {
                let i = choose|i: int| 0 <= i < r.len() && r[i] == x;
                if i == k {
                    assert(s[s.len() - 1] == x);
                } else {
                    assert(s[i] == x);
                }
            }
            if s.contains(x) && x != digest {
                let i = choose|i: int| 0 <= i < s.len() && s[i] == x;
                if i == s.len() - 1 {
                    assert(r[k] == x);
                } else {
                    assert(r[i] == x);
                }
            }
        }
    }
    assert(r.to_set() =~= s.to_set().remove(digest));
}

/// Insertion keeps a duplicate-free sequence duplicate-free and adds exactly
/// the digest asked for.
pub proof fn lemma_inserted(s: Seq<u64>, digest: u64)
    requires
        s.no_duplicates(),
    ensures
        inserted(s, digest).no_duplicates(),
        inserted(s, digest).to_set() == s.to_set().insert(digest),
{
    if s.contains(digest) {
        assert(s.to_set() =~= s.to_set().insert(digest));
    } else {
        s.lemma_push_to_set_commute(digest);
    }
}

impl<E> CopiableHash<E> {
    /// The digests held, in slot order.
    pub closed spec fn view(&self) -> Seq<u64> {
        Seq::new(self.len as nat, |i: int| self.data@[i].unwrap())
    }

    /// All slots, the occupied prefix and what lies past it.
    pub closed spec fn slots(&self) -> Seq<Option<u64>> {
        self.data@
    }

    /// The digests held, as a set.
    pub open spec fn digests(&self) -> Set<u64> {
        self@.to_set()
    }

    /// The occupied slots form a prefix within capacity and hold no digest twice.
    pub closed spec fn wf(&self) -> bool {
        &&& self.len <= DEBUG_MAP_HASH_SIZE
        &&& forall|i: int| 0 <= i < self.len ==> (#[trigger] self.data@[i]).is_some()
        &&& self@.no_duplicates()
    }

    /// A well-formed set is within capacity and holds no digest twice; its
    /// digests are what its first slots hold.
    pub proof fn lemma_wf_bounds(&self)
        requires
            self.wf(),
        ensures
            self@.len() <= DEBUG_MAP_HASH_SIZE,
            self@.no_duplicates(),
            self.slots().len() == DEBUG_MAP_HASH_SIZE,
            forall|i: int| 0 <= i < self@.len() ==> self.slots()[i] == Some(self@[i]),
    {
    }

    /// Two sets with the same slots and the same number of digests are the
    /// same value.
    pub proof fn lemma_same_value(a: Self, b: Self)
        requires
            a.slots() == b.slots(),
            a@.len() == b@.len(),
        ensures
            a == b,
    {
        assert(a.data =~= b.data);
    }

    /// Creates an empty set: no digest is held and every slot is unoccupied.
    pub fn empty() -> (r: Self)
        ensures
            r.wf(),
            r@ == Seq::<u64>::empty(),
            r.slots().len() == DEBUG_MAP_HASH_SIZE,
            forall|i: int| 0 <= i < DEBUG_MAP_HASH_SIZE ==> r.slots()[i].is_none(),
    {
        let r = Self { data: [None; DEBUG_MAP_HASH_SIZE], len: 0, _marker: PhantomData };
        assert(r@ =~= Seq::<u64>::empty());
        r
    }

    /// Number of digests held.
    pub fn len(&self) -> (n: usize)
        requires
            self.wf(),
        ensures
            n == self@.len(),
            n <= DEBUG_MAP_HASH_SIZE,
    {
        self.len
    }

    /// The slot that holds `digest`, if any does.
    pub fn position(&self, digest: u64) -> (pos: Option<usize>)
        requires
            self.wf(),
        ensures
            match pos {
                Some(i) => i < self@.len() && self@[i as int] == digest,
                None => !self@.contains(digest),
            },
    {
        let mut i: usize = 0;
        while i < self.len
            invariant
                self.wf(),
                i <= self.len,
                forall|j: int| 0 <= j < i ==> self@[j] != digest,
            decreases self.len - i,
        {
            match self.data[i] {
                Some(x) => {
                    if x == digest {
                        return Some(i);
                    }
                },
                None => {},
            }
            i += 1;
        }
        None
    }

    /// Adds `digest` unless it is held already; says whether it was added.
    pub fn insert_digest(&mut self, digest: u64) -> (fresh: bool)
        requires
            old(self).wf(),
            admits(old(self)@, digest),
        ensures
            final(self).wf(),
            fresh == !old(self)@.contains(digest),
            final(self)@ == inserted(old(self)@, digest),
            final(self).slots() == slots_inserted(old(self).slots(), old(self)@, digest),
            final(self).digests() == old(self).digests().insert(digest),
            !fresh ==> *final(self) == *old(self),
    {
        proof {
            lemma_inserted(self@, digest);
        }
        match self.position(digest) {
            Some(_) => false,
            None => {
                let n: usize = self.len;
                self.data[n] = Some(digest);
                self.len = n + 1;
                assert(self@ =~= old(self)@.push(digest));
                true
            },
        }
    }

    /// Adds `digest` where the set can answer: `Some(true)` where it was new,
    /// `Some(false)` where it was held already, and `None`, with nothing
    /// changed, where it is new and every slot is taken.
    pub fn try_insert_digest(&mut self, digest: u64) -> (outcome: Option<bool>)
        requires
            old(self).wf(),
        ensures
            final(self).wf(),
            (outcome, final(self)@) == insert_outcome(old(self)@, digest),
            final(self).slots() == slots_inserted(old(self).slots(), old(self)@, digest),
            outcome != Some(true) ==> *final(self) == *old(self),
    {
        if self.len < DEBUG_MAP_HASH_SIZE || self.position(digest).is_some() {
            Some(self.insert_digest(digest))
        } else {
            None
        }
    }

    /// Takes `digest` out by moving the last digest into its slot; says
    /// whether it was held.
    pub fn remove_digest(&mut self, digest: u64) -> (found: bool)
        requires
            old(self).wf(),
        ensures
            final(self).wf(),
            found == old(self)@.contains(digest),
            final(self)@ == swap_removed(old(self)@, digest),
            final(self).slots() == slots_swap_removed(old(self).slots(), old(self)@, digest),
            final(self).digests() == old(self).digests().remove(digest),
            !found ==> *final(self) == *old(self),
    {
        proof {
            lemma_swap_removed(self@, digest);
        }
        match self.position(digest) {
            Some(pos) => {
                let last: usize = self.len - 1;
                let moved = self.data[last];
                let taken = self.data[pos];
                self.data[pos] = moved;
                self.data[last] = taken;
                self.len = last;
                proof {
                    let s = old(self)@;
                    let k = s.index_of(digest);
                    assert(s[pos as int] == digest);
                    assert(0 <= k < s.len() && s[k] == digest);
                    assert(k == pos);
                    assert(self@ =~= swap_removed(s, digest));
                    assert(self.slots() =~= swapped(old(self).slots(), k, s.len() - 1));
                }
                true
            },
            None => false,
        }
    }

    /// The set that takes in each of `digests` in turn, first to last, from
    /// empty; `None` where one of them is new to a set that is full.
    pub fn from_digests(digests: &Vec<u64>) -> (r: Option<Self>)
        ensures
            r.is_some() == inserted_all(Seq::empty(), digests@).is_some(),
            r matches Some(c) ==> {
                &&& c.wf()
                &&& Some(c@) == inserted_all(Seq::empty(), digests@)
                &&& c.slots().len() == DEBUG_MAP_HASH_SIZE
                &&& forall|i: int| c@.len() <= i < DEBUG_MAP_HASH_SIZE ==> c.slots()[i].is_none()
            },
    {
        let mut hash = Self::empty();
        let mut i: usize = 0;
        while i < digests.len()
            invariant
                i <= digests.len(),
                hash.wf(),
                inserted_all(Seq::empty(), digests@.take(i as int)) == Some(hash@),
                hash.slots().len() == DEBUG_MAP_HASH_SIZE,
                forall|j: int| hash@.len() <= j < DEBUG_MAP_HASH_SIZE ==> hash.slots()[j].is_none(),
            decreases digests.len() - i,
        {
            let outcome = hash.try_insert_digest(digests[i]);
            proof {
                assert(digests@.take(i + 1).drop_last() =~= digests@.take(i as int));
            }
            if outcome.is_none() {
                proof {
                    lemma_inserted_all_none(Seq::empty(), digests@, i + 1);
                }
                return None;
            }
            i += 1;
        }
        assert(digests@.take(i as int) =~= digests@);
        Some(hash)
    }
}

impl<E: Hash> CopiableHash<E> {
    /// Adds a new element to the set: `Some(true)` where its digest was new,
    /// `Some(false)` where it was held already, and `None`, with nothing
    /// changed, where the digest is new and every slot is taken.
    pub fn insert(&mut self, key: E) -> (outcome: Option<bool>)
        requires
            old(self).wf(),
        ensures
            final(self).wf(),
            exists|digest: u64|
                {
                    &&& (outcome, final(self)@) == #[trigger] insert_outcome(old(self)@, digest)
                    &&& final(self).slots() == slots_inserted(
                        old(self).slots(),
                        old(self)@,
                        digest,
                    )
                },
            outcome != Some(true) ==> *final(self) == *old(self),
    {
        let digest = fx_digest(&key);
        let outcome = self.try_insert_digest(digest);
        assert((outcome, self@) == insert_outcome(old(self)@, digest));
        outcome
    }

    /// Removes an element from the set; says whether its digest was held.
    pub fn remove(&mut self, key: &E) -> (found: bool)
        requires
            old(self).wf(),
        ensures
            final(self).wf(),
            exists|digest: u64|
                {
                    &&& found == old(self)@.contains(digest)
                    &&& final(self)@ == #[trigger] swap_removed(old(self)@, digest)
                    &&& final(self).slots() == slots_swap_removed(
                        old(self).slots(),
                        old(self)@,
                        digest,
                    )
                },
            !found ==> *final(self) == *old(self),
    {
        let digest = fx_digest(key);
        let found = self.remove_digest(digest);
        assert(self@ == swap_removed(old(self)@, digest));
        found
    }

    /// The set of the keys in `keys`, inserted first to last; `None` where
    /// they come to more distinct digests than a set can hold.
    pub fn from_keys(keys: &Vec<E>) -> (r: Option<Self>)
        ensures
            exists|digests: Seq<u64>|
                {
                    &&& digests.len() == keys@.len()
                    &&& r.is_some() == (#[trigger] inserted_all(Seq::empty(), digests)).is_some()
                    &&& r matches Some(c) ==> Some(c@) == inserted_all(Seq::empty(), digests)
                },
            r matches Some(c) ==> {
                &&& c.wf()
                &&& c.slots().len() == DEBUG_MAP_HASH_SIZE
                &&& forall|i: int| c@.len() <= i < DEBUG_MAP_HASH_SIZE ==> c.slots()[i].is_none()
            },
            r.is_none() ==> keys@.len() > DEBUG_MAP_HASH_SIZE,
    {
        let mut digests: Vec<u64> = Vec::new();
        let mut i: usize = 0;
        while i < keys.len()
            invariant
                i <= keys.len(),
                digests@.len() == i,
            decreases keys.len() - i,
        {
            digests.push(fx_digest(&keys[i]));
            i += 1;
        }
        proof {
            if keys@.len() <= DEBUG_MAP_HASH_SIZE {
                lemma_inserted_all_fits(Seq::empty(), digests@);
            }
        }
        Self::from_digests(&digests)
    }
}

} // verus!
