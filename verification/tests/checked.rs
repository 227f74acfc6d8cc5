use zobristhash_set::checked::{CheckedZobristHashSet, Misuse};
use zobristhash_set::ZobristHashSet;

#[test]
#[should_panic]
fn test_zobrist_hash_double_add_debug() {
    let mut hash = CheckedZobristHashSet::empty();
    let key: i32 = 42;
    hash.add(&key).unwrap();
    hash.add(&key).unwrap();
}

#[test]
#[should_panic]
fn test_zobrist_hash_empty_remove_debug() {
    let mut hash = CheckedZobristHashSet::empty();
    let key: i32 = 42;
    hash.remove(&key).unwrap();
}

#[test]
fn checked_follows_the_plain_fingerprint() {
    let mut plain: ZobristHashSet<i32> = ZobristHashSet::empty();
    let mut checked: CheckedZobristHashSet<i32> = CheckedZobristHashSet::empty();
    assert!(checked.is_shadowed());
    assert_eq!(u64::from(checked), 0);

    for key in [42, 7, -1] {
        plain.add(&key);
        assert_eq!(checked.add(&key), Ok(()));
        assert_eq!(u64::from(checked), u64::from(plain));
    }
    for key in [7, 42, -1] {
        plain.remove(&key);
        assert_eq!(checked.remove(&key), Ok(()));
        assert_eq!(u64::from(checked), u64::from(plain));
    }
    assert_eq!(u64::from(checked), 0);
}

#[test]
fn refused_calls_change_nothing() {
    let mut checked: CheckedZobristHashSet<i32> = CheckedZobristHashSet::empty();
    assert_eq!(checked.remove(&42), Err(Misuse::NotPresent));
    assert_eq!(u64::from(checked), 0);

    assert_eq!(checked.add(&42), Ok(()));
    let value = u64::from(checked);
    assert_ne!(value, 0);
    assert_eq!(checked.add(&42), Err(Misuse::AlreadyPresent));
    assert_eq!(u64::from(checked), value);
    assert_eq!(checked.remove(&43), Err(Misuse::NotPresent));
    assert_eq!(u64::from(checked), value);

    assert_eq!(checked.remove(&42), Ok(()));
    assert_eq!(u64::from(checked), 0);
    assert_eq!(checked.add(&42), Ok(()));
    assert_eq!(u64::from(checked), value);
}

#[test]
fn from_raw_value_is_not_shadowed() {
    let mut checked: CheckedZobristHashSet<i32> = CheckedZobristHashSet::from(5u64);
    assert!(!checked.is_shadowed());
    assert_eq!(u64::from(checked), 5);
    assert_eq!(checked.add(&42), Ok(()));
    assert_eq!(checked.add(&42), Ok(()));
    assert_eq!(u64::from(checked), 5);
    assert_eq!(checked.remove(&1), Ok(()));
    assert_eq!(checked.check_add(9), Ok(()));
    assert_eq!(checked.check_remove(9), Ok(()));
}

#[test]
fn digest_calls_on_a_shadowed_fingerprint() {
    let mut checked: CheckedZobristHashSet<u8> = CheckedZobristHashSet::empty();
    assert_eq!(checked.check_add(0b1100), Ok(()));
    assert_eq!(checked.check_remove(0b1100), Err(Misuse::NotPresent));
    checked.add_digest(0b1100);
    assert_eq!(u64::from(checked), 0b1100);
    assert_eq!(checked.check_add(0b1100), Err(Misuse::AlreadyPresent));
    assert_eq!(checked.check_remove(0b1100), Ok(()));
    checked.add_digest(0b1010);
    assert_eq!(u64::from(checked), 0b0110);
    checked.remove_digest(0b1100);
    assert_eq!(u64::from(checked), 0b1010);
    assert_eq!(checked.check_add(0b1100), Ok(()));
    checked.remove_digest(0b1010);
    assert_eq!(u64::from(checked), 0);
}

#[test]
fn a_full_shadow_refuses_a_new_key() {
    let mut checked: CheckedZobristHashSet<usize> = CheckedZobristHashSet::empty();
    for i in 0..8192usize {
        assert_eq!(checked.add(&i), Ok(()));
    }
    let value = u64::from(checked);
    assert_eq!(checked.add(&8192usize), Err(Misuse::CapacityExhausted));
    assert_eq!(checked.add(&5usize), Err(Misuse::AlreadyPresent));
    assert_eq!(u64::from(checked), value);
    assert_eq!(checked.remove(&0usize), Ok(()));
    assert_eq!(checked.add(&8192usize), Ok(()));
}
