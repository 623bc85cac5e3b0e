use std::hash::{DefaultHasher, Hash, Hasher};

use allocator_api2::alloc::Global;
use once_list2::{
    CacheMode, NextSlot, OnceList, OnceListCore, OnceListWithLen, OnceListWithTail,
    OnceListWithTailLen, WithLen, WithTail, WithTailLen,
};

fn contents<T: Clone, A, C: CacheMode>(list: &OnceListCore<T, A, C>) -> Vec<T> {
    let mut out = Vec::new();
    let mut it = list.iter();
    while let Some(v) = it.next(list) {
        out.push(v.clone());
    }
    out
}

fn count<T, A, C: CacheMode>(list: &OnceListCore<T, A, C>) -> usize {
    let mut n = 0;
    let mut it = list.iter();
    while it.next(list).is_some() {
        n += 1;
    }
    n
}

/// Pushes, extends, removes and clears; returns what the list held after each step.
fn script<C: CacheMode>(mut list: OnceListCore<i32, Global, C>) -> Vec<(Vec<i32>, usize)> {
    let mut seen = Vec::new();
    list.push_back(1);
    list.push_back(2);
    seen.push((contents(&list), list.len()));
    list.extend(vec![3, 4, 5]);
    seen.push((contents(&list), list.len()));
    assert_eq!(list.remove(|&v| v == 5), Some(5));
    seen.push((contents(&list), list.len()));
    list.push_back(6);
    seen.push((contents(&list), list.len()));
    assert_eq!(list.remove(|&v| v % 2 == 0), Some(2));
    seen.push((contents(&list), list.len()));
    assert_eq!(list.pop_front(), Some(1));
    seen.push((contents(&list), list.len()));
    list.push_back(7);
    seen.push((contents(&list), list.len()));
    list.clear();
    seen.push((contents(&list), list.len()));
    list.push_back(8);
    seen.push((contents(&list), list.len()));
    for (values, len) in &seen {
        assert_eq!(values.len(), *len);
    }
    seen
}

#[test]
fn push_order_is_kept_in_every_mode() {
    let mut a = OnceList::new();
    let mut b = OnceListWithLen::new();
    let mut c = OnceListWithTail::new();
    let mut d = OnceListWithTailLen::new();
    for v in [5, 3, 9, 1] {
        a.push(v);
        b.push(v);
        c.push(v);
        d.push(v);
    }
    assert_eq!(contents(&a), vec![5, 3, 9, 1]);
    assert_eq!(contents(&b), vec![5, 3, 9, 1]);
    assert_eq!(contents(&c), vec![5, 3, 9, 1]);
    assert_eq!(contents(&d), vec![5, 3, 9, 1]);
}

#[test]
fn cursor_resumes_after_push() {
    let mut list = OnceList::new();
    list.push(1);
    let mut it = list.iter();
    assert_eq!(it.next(&list), Some(&1));
    assert_eq!(it.next(&list), None);
    list.push(2);
    assert_eq!(it.next(&list), Some(&2));
    assert_eq!(it.next(&list), None);
    list.extend(vec![3, 4]);
    assert_eq!(it.next(&list), Some(&3));
    assert_eq!(it.next(&list), Some(&4));
    assert_eq!(it.next(&list), None);
}

#[test]
fn cursor_resumes_after_push_with_tail_cache() {
    let mut list = OnceListWithTailLen::new();
    list.push(1);
    let mut it = list.iter();
    assert_eq!(it.next(&list), Some(&1));
    assert_eq!(it.next(&list), None);
    list.push(2);
    assert_eq!(it.next(&list), Some(&2));
    assert_eq!(it.next(&list), None);
}

#[test]
fn len_matches_count_in_every_mode() {
    for seen in [
        script(OnceList::new()),
        script(OnceListWithLen::new()),
        script(OnceListWithTail::new()),
        script(OnceListWithTailLen::new()),
    ] {
        for (values, len) in seen {
            assert_eq!(values.len(), len);
        }
    }
    let mut list = OnceListWithLen::new();
    list.extend(vec![1, 2, 3]);
    list.remove(|&v| v == 2);
    assert_eq!(list.len(), count(&list));
    assert_eq!(list.len(), 2);
}

#[test]
fn removal_splices_first_middle_and_last() {
    for (target, rest, after_push) in [
        (1, vec![2, 3], vec![2, 3, 4]),
        (2, vec![1, 3], vec![1, 3, 4]),
        (3, vec![1, 2], vec![1, 2, 4]),
    ] {
        let mut list = OnceListWithTail::from_vec(vec![1, 2, 3]);
        assert_eq!(list.remove(|&v| v == target), Some(target));
        assert_eq!(contents(&list), rest);
        list.push(4);
        assert_eq!(contents(&list), after_push);
        assert_eq!(list.len(), 3);
    }
}

#[test]
fn removal_of_the_only_value_empties_the_list() {
    let mut list = OnceListWithTailLen::new();
    list.push(7);
    assert_eq!(list.remove(|&v| v == 7), Some(7));
    assert!(list.is_empty());
    assert_eq!(list.len(), 0);
    list.push(8);
    assert_eq!(contents(&list), vec![8]);
}

#[test]
fn remove_takes_the_first_match_only() {
    let mut list = OnceList::from_vec(vec![4, 6, 8]);
    assert_eq!(list.remove(|&v| v % 2 == 0), Some(4));
    assert_eq!(contents(&list), vec![6, 8]);
}

#[test]
fn modes_agree_on_a_script() {
    let plain = script(OnceList::new());
    assert_eq!(plain, script(OnceListWithLen::new()));
    assert_eq!(plain, script(OnceListWithTail::new()));
    assert_eq!(plain, script(OnceListWithTailLen::new()));
    assert_eq!(plain[1].0, vec![1, 2, 3, 4, 5]);
    assert_eq!(plain[6].0, vec![3, 4, 6, 7]);
    assert_eq!(plain[8].0, vec![8]);
}

#[test]
fn extend_on_empty_keeps_order() {
    let mut list = OnceList::new();
    list.extend(vec!['a', 'b', 'c']);
    assert_eq!(contents(&list), vec!['a', 'b', 'c']);
    let mut empty = OnceListWithTail::<char>::new();
    empty.extend(Vec::new());
    assert!(empty.is_empty());
}

#[test]
fn equal_lists_hash_alike_across_push_sequences() {
    let mut a = OnceListWithTail::new();
    let mut b = OnceListWithTail::new();
    for v in [3, 1, 4] {
        a.push(v);
        b.push(v);
    }
    assert!(a == b);
    let mut ha = DefaultHasher::new();
    let mut hb = DefaultHasher::new();
    a.hash(&mut ha);
    b.hash(&mut hb);
    assert_eq!(ha.finish(), hb.finish());
    b.remove(|&v| v == 4);
    b.push(5);
    assert!(a != b);
}

#[test]
fn pop_front_and_into_iter() {
    let mut list = OnceListWithLen::from_vec(vec![1, 2, 3]);
    assert_eq!(list.pop_front(), Some(1));
    assert_eq!(list.len(), 2);
    let mut it = list.into_iter();
    assert_eq!(it.next(), Some(2));
    assert_eq!(it.next(), Some(3));
    assert_eq!(it.next(), None);
    let mut empty = OnceList::<i32>::new();
    assert_eq!(empty.pop_front(), None);
}

#[test]
fn values_change_in_place() {
    let mut list = OnceList::from_vec(vec![1, 2, 3]);
    *list.front_mut().unwrap() = 10;
    *list.back_mut().unwrap() = 30;
    assert_eq!(contents(&list), vec![10, 2, 30]);
    *list.first_mut().unwrap() += 1;
    *list.last_mut().unwrap() += 1;
    assert_eq!(contents(&list), vec![11, 2, 31]);
    let mut it = list.iter_mut();
    while let Some(v) = it.next(&mut list) {
        *v *= 2;
    }
    assert_eq!(contents(&list), vec![22, 4, 62]);
    let mut empty = OnceList::<i32>::new();
    assert!(empty.front_mut().is_none());
    assert!(empty.back_mut().is_none());
}

#[test]
fn clone_copies_values_and_allocator() {
    let mut list = OnceListWithTailLen::new_in(Global);
    list.extend(vec![String::from("x"), String::from("y")]);
    let copy = list.clone();
    assert_eq!(contents(&copy), vec![String::from("x"), String::from("y")]);
    assert_eq!(copy.len(), 2);
    list.push(String::from("z"));
    assert_eq!(copy.len(), 2);
    let _alloc: &Global = copy.allocator();
}

#[test]
fn mode_constructors_give_empty_lists() {
    let a: OnceListWithTail<u8> = WithTail::new_list();
    let b: OnceListWithLen<u8> = WithLen::new_list_in(Global);
    let c: OnceListWithTailLen<u8> = WithTailLen::new_list();
    assert!(a.is_empty() && b.is_empty() && c.is_empty());
    assert_eq!(b.len(), 0);
}

#[test]
fn vacated_nodes_are_reused() {
    let mut list = OnceListWithTail::new();
    list.push(-1);
    for round in 0..100 {
        list.push(round);
        assert_eq!(list.pop_front(), Some(round - 1));
    }
    assert_eq!(list.len(), 1);
    assert_eq!(list.first(), Some(&99));
    assert_eq!(list.last(), Some(&99));
}

#[test]
fn slot_is_written_once() {
    let mut slot = NextSlot::new();
    assert_eq!(slot.get(), None);
    assert_eq!(slot.try_insert2(4), Ok(4));
    assert_eq!(slot.try_insert2(9), Err((4, 9)));
    assert_eq!(slot.set(7), Err(7));
    assert_eq!(slot.get(), Some(4));
    assert_eq!(slot.take(), Some(4));
    assert_eq!(slot.set(7), Ok(()));
    assert_eq!(slot.get(), Some(7));
}
