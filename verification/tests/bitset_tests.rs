use containers::BitSet;

#[test]
fn test_bitset() {
    let mut bitset1 = BitSet::<1>::new();
    bitset1.set(17);
    assert!(bitset1.test(17));
    bitset1.clear(17);
    assert!(!bitset1.test(17));

    let mut bitset2 = BitSet::<2>::new();
    bitset2.set(17);
    bitset2.set(64 + 5);
    assert!(bitset2.test(17));
    assert!(bitset2.test(64 + 5));
}

#[test]
fn test_bitset_and() {
    let mut bitset1 = BitSet::<2>::new();
    bitset1.set(17);
    bitset1.set(63);

    let mut bitset2 = BitSet::<2>::new();
    bitset2.set(17);
    bitset2.set(64 + 5);

    let result = bitset1.intersection(&bitset2);

    assert!(result.test(17));
    assert!(!result.test(63));
    assert!(!result.test(64 + 5));
}

#[test]
fn test_bitset_or() {
    let mut bitset1 = BitSet::<2>::new();
    bitset1.set(17);
    bitset1.set(63);

    let mut bitset2 = BitSet::<2>::new();
    bitset2.set(17);
    bitset2.set(64 + 5);

    let result = bitset1.union(&bitset2);

    assert!(result.test(17));
    assert!(result.test(63));
    assert!(result.test(64 + 5));
}

#[test]
fn test_bitset_xor() {
    let mut bitset1 = BitSet::<2>::new();
    bitset1.set(17);
    bitset1.set(63);

    let mut bitset2 = BitSet::<2>::new();
    bitset2.set(17);
    bitset2.set(64 + 5);

    let result = bitset1.symmetric_difference(&bitset2);

    assert!(!result.test(17));
    assert!(result.test(63));
    assert!(result.test(64 + 5));
}

#[test]
fn test_bitset_not() {
    let mut bitset1 = BitSet::<2>::new();
    bitset1.set(17);
    bitset1.set(63);

    let result = bitset1.not();

    assert!(!result.test(17));
    assert!(!result.test(63));
    assert!(result.test(64 + 5));
}

#[test]
fn test_bitset_index_iter() {
    let mut bitset1 = BitSet::<2>::new();
    bitset1.set(17);
    bitset1.set(63);
    bitset1.set(64 + 5);

    let mut iter = bitset1.iter_indices();
    assert_eq!(iter.next(), Some(17));
    assert_eq!(iter.next(), Some(63));
    assert_eq!(iter.next(), Some(64 + 5));
    assert_eq!(iter.next(), None);

    let bitset2 = BitSet::<2>::new();
    let mut iter = bitset2.iter_indices();
    assert_eq!(iter.next(), None);
}

#[test]
fn test_bitset_trailing_zeros() {
    let mut bitset1 = BitSet::<1>::new();
    bitset1.set(17);
    bitset1.set(63);
    assert_eq!(bitset1.trailing_zeros(), 17);

    let mut bitset2 = BitSet::<2>::new();
    bitset2.set(17);
    bitset2.set(64 + 5);
    assert_eq!(bitset2.trailing_zeros(), 17);
}

#[test]
fn test_bitset_leading_zeros() {
    let mut bitset1 = BitSet::<1>::new();
    bitset1.set(17);
    bitset1.set(63);
    assert_eq!(bitset1.leading_zeros(), 64 - (63 + 1));

    let mut bitset2 = BitSet::<2>::new();
    bitset2.set(17);
    bitset2.set(64 + 5);
    assert_eq!(bitset2.leading_zeros(), 64 - (5 + 1));
}

#[test]
fn test_bitset_count_ones() {
    let mut bitset1 = BitSet::<1>::new();
    bitset1.set(17);
    bitset1.set(63);
    assert_eq!(bitset1.count_ones(), 2);

    let mut bitset2 = BitSet::<2>::new();
    bitset2.set(17);
    bitset2.set(64 + 5);
    assert_eq!(bitset2.count_ones(), 2);
}

#[test]
fn bitset_from_index_and_eq() {
    let single = BitSet::<2>::from_index(70);
    assert!(single.test(70));
    assert!(!single.test(0));
    assert_eq!(single.count_ones(), 1);

    let mut other = BitSet::<2>::new();
    other.set(70);
    assert!(single == other);
    other.set(3);
    assert!(single != other);
}

#[test]
fn bitset_containment() {
    let mut big = BitSet::<1>::new();
    big.set(1);
    big.set(5);
    big.set(9);

    let mut small = BitSet::<1>::new();
    small.set(5);

    assert!(big.contains(&small));
    assert!(!small.contains(&big));
    assert!(big.contains_some(&small));
    assert!(!big.contains_none(&small));

    let mut disjoint = BitSet::<1>::new();
    disjoint.set(2);
    assert!(big.contains_none(&disjoint));
    assert!(!big.contains_some(&disjoint));

    let diff = big.difference(&small);
    assert!(diff.test(1));
    assert!(!diff.test(5));
    assert!(diff.test(9));
}

#[test]
fn bitset_empty_cases() {
    let empty = BitSet::<2>::new();
    assert!(empty.is_empty());
    assert_eq!(empty.count_ones(), 0);
    assert_eq!(empty.trailing_zeros(), 128);
    assert_eq!(empty.leading_zeros(), 128);

    let mut nonempty = BitSet::<2>::new();
    nonempty.set(0);
    assert!(!nonempty.is_empty());
    assert_eq!(nonempty.trailing_zeros(), 0);
    assert_eq!(nonempty.leading_zeros(), 127);
}
