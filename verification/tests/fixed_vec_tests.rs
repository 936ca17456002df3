use containers::FixedVec;

#[test]
fn fixed_vec_test_push_pop() {
    let mut vec = FixedVec::<u32, 4>::new();

    vec.push(1);
    vec.push(2);
    vec.push(3);
    vec.push(4);

    assert_eq!(vec.len(), 4);
    assert_eq!(vec.pop(), Some(4));
    assert_eq!(vec.pop(), Some(3));
    assert_eq!(vec.pop(), Some(2));
    assert_eq!(vec.pop(), Some(1));
    assert_eq!(vec.len(), 0);
    assert_eq!(vec.pop(), None);
    assert_eq!(vec.len(), 0);
}

#[test]
fn test_swap_remove() {
    let mut vec = FixedVec::<u32, 4>::new();

    vec.push(1);
    vec.push(2);
    vec.push(3);
    vec.push(4);

    assert_eq!(vec.len(), 4);
    assert_eq!(vec.swap_remove(0), Some(1));
    assert_eq!(vec.len(), 3);
    assert_eq!(vec.swap_remove(0), Some(4));
    assert_eq!(vec.len(), 2);
    assert_eq!(vec.swap_remove(0), Some(3));
    assert_eq!(vec.len(), 1);
    assert_eq!(vec.swap_remove(0), Some(2));
    assert_eq!(vec.len(), 0);
    assert_eq!(vec.swap_remove(0), None);
    assert_eq!(vec.swap_remove(7), None);
}

#[test]
fn fixed_vec_test_clear() {
    let mut vec = FixedVec::<u32, 4>::new();

    vec.push(1);
    vec.push(2);
    vec.push(3);
    vec.push(4);

    assert_eq!(vec.len(), 4);
    vec.clear();
    assert_eq!(vec.len(), 0);
}

#[test]
fn test_iter() {
    let mut vec = FixedVec::<u32, 4>::new();

    vec.push(1);
    vec.push(2);
    vec.push(3);
    vec.push(4);

    let mut iter = vec.iter();

    assert_eq!(iter.next(), Some(&1));
    assert_eq!(iter.next(), Some(&2));
    assert_eq!(iter.next(), Some(&3));
    assert_eq!(iter.next(), Some(&4));
    assert_eq!(iter.next(), None);
}

#[test]
fn fixed_vec_accessors() {
    let mut vec = FixedVec::<u32, 4>::new();
    vec.push(7);
    vec.push(8);

    assert_eq!(vec.get(0), Some(&7));
    assert_eq!(vec.get(2), None);
    assert_eq!(vec.get_unchecked(1), &8);
    assert_eq!(vec.last(), Some(&8));
    assert_eq!(vec.last_unchecked(), &8);
    assert_eq!(vec.as_slice(), &[7, 8]);

    *vec.get_mut(0).unwrap() = 70;
    assert_eq!(vec.get(0), Some(&70));
    *vec.last_mut().unwrap() = 80;
    assert_eq!(vec.last(), Some(&80));
    *vec.get_unchecked_mut(0) = 71;
    *vec.last_unchecked_mut() = 81;
    vec.as_mut_slice()[0] += 1;
    assert_eq!(vec.as_slice(), &[72, 81]);
}
