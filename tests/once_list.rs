use std::hash::{DefaultHasher, Hash, Hasher};

use once_list2::{CacheMode, OnceList, OnceListCore};

fn values<T: Clone, A, C: CacheMode>(list: &OnceListCore<T, A, C>) -> Vec<T> {
    let mut out = Vec::new();
    let mut it = list.iter();
    while let Some(v) = it.next(list) {
        out.push(v.clone());
    }
    out
}

fn drain<T, A, C: CacheMode>(list: OnceListCore<T, A, C>) -> Vec<T> {
    let mut out = Vec::new();
    let mut it = list.into_iter();
    while let Some(v) = it.next() {
        out.push(v);
    }
    out
}

#[test]
fn test_new() {
    let list = OnceList::<i32>::new();
    assert!(list.is_empty());
    assert_eq!(list.len(), 0);
    assert_eq!(list.iter().next(&list), None);
}

#[test]
fn test_default() {
    let list = OnceList::<i32>::default();
    assert!(list.is_empty());
    assert_eq!(list.len(), 0);
    assert_eq!(list.iter().next(&list), None);
}

#[test]
fn test_push() {
    let mut list = OnceList::new();
    let val = list.push(42);
    assert_eq!(val, &42);
    assert_eq!(list.len(), 1);
    assert_eq!(drain(list.clone()), vec![42]);

    list.push(100);
    list.push(3);
    assert_eq!(list.len(), 3);
    assert_eq!(drain(list), vec![42, 100, 3]);
}

#[test]
fn test_from_iter() {
    let list = OnceList::from_vec(vec![1, 2, 3]);
    assert_eq!(list.len(), 3);
    assert_eq!(drain(list), vec![1, 2, 3]);
}

#[test]
fn test_extend() {
    let mut list = OnceList::from_vec(vec![1, 2, 3]);
    list.extend(vec![4, 5, 6]);
    assert_eq!(list.len(), 6);
    assert_eq!(drain(list), vec![1, 2, 3, 4, 5, 6]);
}

#[test]
fn test_clear() {
    let mut list = OnceList::from_vec(vec![1, 2, 3]);
    list.clear();
    assert!(list.is_empty());
    assert_eq!(list.len(), 0);
    assert_eq!(list.iter().next(&list), None);
}

#[test]
fn test_first_last() {
    let empty_list = OnceList::<i32>::new();
    assert_eq!(empty_list.first(), None);
    assert_eq!(empty_list.last(), None);

    let single_list = OnceList::from_vec(vec![42]);
    assert_eq!(single_list.first(), Some(&42));
    assert_eq!(single_list.last(), Some(&42));

    let multiple_list = OnceList::from_vec(vec![1, 2, 3]);
    assert_eq!(multiple_list.first(), Some(&1));
    assert_eq!(multiple_list.last(), Some(&3));
}

#[test]
fn test_contains() {
    let list = OnceList::from_vec(vec![1, 2, 3]);
    assert!(list.contains(&1));
    assert!(list.contains(&2));
    assert!(list.contains(&3));
    assert!(!list.contains(&0));
    assert!(!list.contains(&4));

    let empty_list = OnceList::<i32>::new();
    assert!(!empty_list.contains(&1));
}

#[test]
fn test_remove() {
    let mut list = OnceList::from_vec(vec![1, 2, 3]);
    assert_eq!(list.remove(|&v| v == 2), Some(2));
    assert_eq!(values(&list), vec![1, 3]);

    assert_eq!(list.remove(|&v| v == 0), None);
    assert_eq!(values(&list), vec![1, 3]);

    assert_eq!(list.remove(|&v| v == 1), Some(1));
    assert_eq!(values(&list), vec![3]);

    assert_eq!(list.remove(|&v| v == 3), Some(3));
    assert!(list.is_empty());
}

#[test]
fn test_eq() {
    let list1 = OnceList::from_vec(vec![1, 2, 3]);
    let list2 = OnceList::from_vec(vec![1, 2, 3]);
    assert!(list1 == list2);

    let list3 = OnceList::from_vec(vec![1, 2, 4]);
    assert!(list1 != list3);

    let list4 = OnceList::<i32>::new();
    assert!(list4 == list4);
    assert!(list1 != list4);
}

#[test]
fn test_hash() {
    let mut hasher1 = DefaultHasher::new();
    let mut hasher2 = DefaultHasher::new();

    let list1 = OnceList::from_vec(vec![1, 2, 3]);
    let list2 = OnceList::from_vec(vec![1, 2, 3]);
    list1.hash(&mut hasher1);
    list2.hash(&mut hasher2);
    assert_eq!(hasher1.finish(), hasher2.finish());

    let list3 = OnceList::from_vec(vec![1, 2, 4]);
    let mut hasher3 = DefaultHasher::new();
    list3.hash(&mut hasher3);
    assert_ne!(hasher1.finish(), hasher3.finish());

    // No list hashes as a prefix of another.
    let tuple1 = (OnceList::from_vec(vec![1, 2]), OnceList::from_vec(vec![3]));
    let tuple2 = (OnceList::from_vec(vec![1]), OnceList::from_vec(vec![2, 3]));
    let mut hasher4 = DefaultHasher::new();
    let mut hasher5 = DefaultHasher::new();
    tuple1.hash(&mut hasher4);
    tuple2.hash(&mut hasher5);
    assert_ne!(hasher4.finish(), hasher5.finish());
}
