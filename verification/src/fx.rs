//! The one place where keys are turned into digests.

use rustc_hash::FxHasher;
use std::hash::{Hash, Hasher};
use vstd::prelude::*;

verus! {

/// Digest of `key` under `rustc_hash::FxHasher`.
///
/// Trusted: the body feeds `key` through `Hash::hash` into a hasher made by
/// `FxHasher::default()` and returns `Hasher::finish()`. The outcome depends on
/// the key type's own `Hash` impl and on the target's pointer width, so nothing
/// is claimed of it.
#[verifier::external_body]
pub(crate) fn fx_digest<E: Hash>(key: &E) -> (digest: u64) {
    let mut hasher = FxHasher::default();
    key.hash(&mut hasher);
    hasher.finish()
}

} // verus!
