use rustc_hash::FxHasher;
use std::hash::Hasher;
use zobristhash_set::ZobristHashSet;

#[test]
fn test_zobrist_hash() {
    let mut hash = ZobristHashSet::empty();
    let key: i32 = 42;
    hash.add(&key);

    assert_ne!(u64::from(hash), 0);
    hash.remove(&key);
    assert_eq!(u64::from(hash), 0);
}

#[test]
fn test_zobrist_hash2() {
    let mut hash = ZobristHashSet::empty();
    let key: (i32, i32) = (1, 42);
    hash.add(&key);
    let hv = u64::from(hash);
    let key: (i32, i32) = (2, 42);
    hash.add(&key);
    assert_ne!(u64::from(hash), hv);
}

#[test]
fn test_zobrist_hash3() {
    let mut hash1 = ZobristHashSet::empty();
    let key: (i32, i32) = (1, 42);
    hash1.add(&key);
    let mut hash2 = ZobristHashSet::empty();
    let key: (i32, i32) = (2, 42);
    hash2.add(&key);
    assert_ne!(u64::from(hash1), u64::from(hash2));
}

#[test]
fn empty_and_default_are_zero() {
    let a: ZobristHashSet<u8> = ZobristHashSet::empty();
    let b: ZobristHashSet<u8> = ZobristHashSet::default();
    assert_eq!(u64::from(a), 0);
    assert_eq!(u64::from(b), 0);
}

#[test]
fn fold_digest_is_xor() {
    let mut hash: ZobristHashSet<u8> = ZobristHashSet::from(0b1100u64);
    hash.fold_digest(0b1010);
    assert_eq!(u64::from(hash), 0b0110);
    hash.fold_digest(0b1010);
    assert_eq!(u64::from(hash), 0b1100);
    hash.fold_digest(0);
    assert_eq!(u64::from(hash), 0b1100);
    hash.fold_digest(u64::MAX);
    assert_eq!(u64::from(hash), !0b1100u64);
}

#[test]
fn add_folds_the_fx_digest_of_the_key() {
    let mut hasher = FxHasher::default();
    hasher.write_u64(42);
    let digest = hasher.finish();
    assert_ne!(digest, 42);

    let mut hash: ZobristHashSet<u64> = ZobristHashSet::empty();
    hash.add(&42u64);
    assert_eq!(u64::from(hash), digest);

    let mut other: ZobristHashSet<u64> = ZobristHashSet::from(0xdead_beefu64);
    other.remove(&42u64);
    assert_eq!(u64::from(other), 0xdead_beefu64 ^ digest);
}

#[test]
fn raw_value_round_trip() {
    let mut hash: ZobristHashSet<&str> = ZobristHashSet::empty();
    hash.add(&"rook");
    hash.add(&"pawn");
    let raw: u64 = hash.into();
    let mut rebuilt: ZobristHashSet<&str> = ZobristHashSet::from(raw);
    assert_eq!(u64::from(rebuilt), raw);

    hash.add(&"king");
    rebuilt.add(&"king");
    assert_eq!(u64::from(hash), u64::from(rebuilt));
    hash.remove(&"rook");
    rebuilt.remove(&"rook");
    assert_eq!(u64::from(hash), u64::from(rebuilt));
}

#[test]
fn add_then_remove_restores_any_state() {
    let mut hash: ZobristHashSet<(u8, u8)> = ZobristHashSet::from(0x0123_4567_89ab_cdefu64);
    hash.add(&(3, 4));
    assert_ne!(u64::from(hash), 0x0123_4567_89ab_cdefu64);
    hash.remove(&(3, 4));
    assert_eq!(u64::from(hash), 0x0123_4567_89ab_cdefu64);

    hash.remove(&(9, 9));
    hash.add(&(9, 9));
    assert_eq!(u64::from(hash), 0x0123_4567_89ab_cdefu64);
}

#[test]
fn order_of_calls_does_not_matter() {
    let mut a: ZobristHashSet<u32> = ZobristHashSet::empty();
    a.add(&1);
    a.add(&2);
    a.add(&3);
    a.remove(&2);

    let mut b: ZobristHashSet<u32> = ZobristHashSet::empty();
    b.add(&3);
    b.add(&2);
    b.remove(&2);
    b.add(&1);

    let mut c: ZobristHashSet<u32> = ZobristHashSet::empty();
    c.add(&1);
    c.add(&3);

    assert_eq!(u64::from(a), u64::from(b));
    assert_eq!(u64::from(a), u64::from(c));
}

#[test]
fn balanced_calls_return_to_zero() {
    let mut hash: ZobristHashSet<String> = ZobristHashSet::empty();
    let keys = vec!["a".to_string(), "b".to_string(), "c".to_string()];
    for key in keys.iter() {
        hash.add(key);
    }
    assert_ne!(u64::from(hash), 0);
    for key in keys.iter().rev() {
        hash.remove(key);
    }
    assert_eq!(u64::from(hash), 0);
}

#[test]
fn a_copy_is_independent() {
    let mut hash: ZobristHashSet<u16> = ZobristHashSet::empty();
    hash.add(&7);
    let snapshot = hash;
    hash.add(&8);
    assert_ne!(u64::from(hash), u64::from(snapshot));
    hash.remove(&8);
    assert_eq!(u64::from(hash), u64::from(snapshot.clone()));
}
