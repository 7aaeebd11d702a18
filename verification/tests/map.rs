use ylong::common::{AllocError, Allocator, ContainerError, Layout, SafeClone, System};
use ylong::map::FixedCapMap;

#[derive(Clone)]
struct AllocatorAlwaysFail;

impl Allocator for AllocatorAlwaysFail {
    fn allocate(&self, _layout: Layout) -> Result<(), AllocError> {
        Err(AllocError)
    }
}

#[test]
fn sdv_new_with_alloc_always_fail() {
    type HM = FixedCapMap<i32, i32, AllocatorAlwaysFail>;

    let m = HM::new(0, AllocatorAlwaysFail).unwrap();
    assert_eq!(m.bucket_num(), 0);

    let ret = HM::new(5, AllocatorAlwaysFail).err().unwrap();
    match ret {
        ContainerError::AllocFailure(_) => {}
        _ => panic!(),
    }
}

#[test]
fn sdv_try_reserve() {
    const MAX_USIZE: usize = usize::MAX;

    let ret: Result<FixedCapMap<u8, u8, System>, ContainerError> =
        FixedCapMap::new(MAX_USIZE, System);
    match ret.err().unwrap() {
        ContainerError::CapacityOverflow => {}
        _ => panic!(),
    }
}

#[test]
fn ut_empty_iter() {
    let mut m: FixedCapMap<i32, bool, System> = FixedCapMap::new(3, System).unwrap();
    assert_eq!(m.len(), 0);
    assert!(m.is_empty());
    assert_eq!(m.iter().into_iter().next(), None);
    assert_eq!(m.iter_mut().into_iter().next(), None);
    assert_eq!(m.keys().into_iter().next(), None);
    assert_eq!(m.values().into_iter().next(), None);
    assert_eq!(m.values_mut().into_iter().next(), None);
}

#[test]
fn sdv_empty_remove() {
    let mut m: FixedCapMap<i32, bool, System> = FixedCapMap::new(3, System).unwrap();
    assert_eq!(m.remove(&0), None);
}

#[test]
fn sdv_insert_overwrite() {
    let mut m = FixedCapMap::new(2, System).unwrap();
    assert!(m.insert(1, 2).unwrap().is_none());
    assert_eq!(*m.get(&1).unwrap(), 2);
    assert!(m.insert(1, 3).unwrap().is_some());
    assert_eq!(*m.get(&1).unwrap(), 3);
    *m.get_mut(&1).unwrap() = 4;
    assert_eq!(*m.get(&1).unwrap(), 4);
}

#[test]
fn sdv_insert_conflicts() {
    let mut m = FixedCapMap::new(3, System).unwrap();
    assert!(m.insert(1, 2).unwrap().is_none());
    *m.get_mut_default(&5).unwrap() = 3;
    assert!(m.insert(9, 4).unwrap().is_none());
    assert_eq!(*m.get(&9).unwrap(), 4);
    assert_eq!(*m.get(&5).unwrap(), 3);
    assert_eq!(*m.get(&1).unwrap(), 2);
}

#[test]
fn sdv_conflict_remove() {
    let mut m = FixedCapMap::new(3, System).unwrap();
    assert!(m.insert(1, 2).unwrap().is_none());
    assert_eq!(*m.get(&1).unwrap(), 2);
    assert!(m.insert(5, 3).unwrap().is_none());
    assert_eq!(*m.get(&1).unwrap(), 2);
    assert_eq!(*m.get(&5).unwrap(), 3);
    assert!(m.insert(9, 4).unwrap().is_none());
    assert_eq!(*m.get(&1).unwrap(), 2);
    assert_eq!(*m.get(&5).unwrap(), 3);
    assert_eq!(*m.get(&9).unwrap(), 4);
    assert!(m.remove(&1).is_some());
    assert_eq!(*m.get(&9).unwrap(), 4);
    assert_eq!(*m.get(&5).unwrap(), 3);
}

#[test]
fn sdv_lots_of_insertions() {
    let max = 10 * 1001_usize;
    let mut m = FixedCapMap::new(max, System).unwrap();
    for _ in 0..10 {
        assert!(m.is_empty());
        let count = 1001;
        for i in 1..count {
            assert!(m.insert(i, i).unwrap().is_none());
            for j in 1..=i {
                let r = m.get(&j);
                assert_eq!(r, Some(&j));
            }
            for j in i + 1..count {
                let r = m.get(&j);
                assert_eq!(r, None);
            }
        }
        for i in count..(2 * count) {
            assert!(!m.contains_key(&i));
        }
        for i in 1..count {
            assert!(m.remove(&i).is_some());
            for j in 1..=i {
                assert!(!m.contains_key(&j));
            }
            for j in i + 1..count {
                assert!(m.contains_key(&j));
            }
        }
        for i in 1..count {
            assert!(!m.contains_key(&i));
        }
    }
}

#[test]
fn sdv_iterate() {
    let mut m = FixedCapMap::new(32, System).unwrap();
    for i in 0..32 {
        assert!(m.insert(i, i * 2).unwrap().is_none());
    }
    assert!(m.insert(33, 33 * 2).is_err());
    assert_eq!(m.len(), 32);

    let mut observed: u32 = 0;
    for (k, v) in m.iter() {
        assert_eq!(*v, *k * 2);
        observed |= 1 << *k;
    }
    assert_eq!(observed, 0xFFFF_FFFF);

    let range = 0..32;
    for k in m.keys() {
        assert!(range.contains(k));
    }

    let range: Vec<i32> = range.map(|x| x * 2).collect();
    for v in m.values() {
        assert!(range.contains(v));
    }
}

#[test]
fn sdv_iter_len() {
    let mut map = FixedCapMap::new(6, System).unwrap();
    map.insert(1, 1).unwrap();
    map.insert(2, 2).unwrap();
    map.insert(3, 3).unwrap();
    map.insert(4, 4).unwrap();
    map.insert(5, 5).unwrap();
    map.insert(6, 6).unwrap();

    let mut iter = map.iter().into_iter();

    for _ in iter.by_ref().take(3) {}

    assert!(iter.next().is_some());
    assert!(iter.next().is_some());
    assert!(iter.next().is_some());
    assert!(iter.next().is_none());
}

#[test]
fn sdv_clone() {
    let mut m = FixedCapMap::new(3, System).unwrap();
    assert!(m.insert(1, 2).unwrap().is_none());
    assert!(m.insert(2, 4).unwrap().is_none());
    let mut m2 = m.safe_clone().unwrap();
    assert_eq!(m2.len(), 2);
    assert_eq!(m2.get(&1), Some(&2));
    assert_eq!(m2.get(&2), Some(&4));
    assert_eq!(m2.capacity(), 3);
    assert!(m2.insert(3, 6).unwrap().is_none());
    m2.safe_clone_from(&m).unwrap();
    assert_eq!(m2.len(), 2);
    assert_eq!(m2.get(&3), None);
}

#[test]
fn sdv_capacity_not_less_than_len() {
    let mut a = FixedCapMap::new(116, System).unwrap();
    let mut item = 0;

    for _ in 0..116 {
        a.insert(item, 0).unwrap();
        item += 1;
    }

    assert!(a.insert(item, 0).is_err());
}

#[test]
fn map_full_refuses_even_a_known_key() {
    let mut m = FixedCapMap::new(1, System).unwrap();
    assert!(m.insert(1u64, 10).unwrap().is_none());
    assert!(m.is_full());
    assert!(matches!(m.insert(1u64, 11), Err(ContainerError::Full)));
    assert_eq!(m.get(&1), Some(&10));
}

#[test]
fn map_zero_capacity_takes_nothing() {
    let mut m: FixedCapMap<u32, u32, AllocatorAlwaysFail> =
        FixedCapMap::new(0, AllocatorAlwaysFail).unwrap();
    assert_eq!(m.capacity(), 0);
    assert_eq!(m.table_size_allocated(), 0);
    assert!(m.is_full());
    assert!(matches!(m.insert(1, 1), Err(ContainerError::Full)));
}

#[test]
fn map_table_block_is_the_granted_layout() {
    let m: FixedCapMap<u32, u64, System> = FixedCapMap::new(4, System).unwrap();
    assert_eq!(m.table_size_allocated(), 4 * std::mem::size_of::<(u32, u64)>());
    assert!(m.bucket_num() >= 4);
}

#[test]
fn map_get_mut_default_on_full_map() {
    let mut m: FixedCapMap<u8, u8, System> = FixedCapMap::new(1, System).unwrap();
    *m.get_mut_default(&1).unwrap() += 5;
    assert_eq!(m.get(&1), Some(&5));
    assert!(matches!(m.get_mut_default(&2), Err(ContainerError::Full)));
    m.clear();
    assert!(m.is_empty());
    assert_eq!(m.capacity(), 1);
}

#[test]
fn ut_zero_capacities() {
    type HM = FixedCapMap<i32, i32, System>;

    let m = HM::new(0, System).unwrap();
    assert_eq!(m.bucket_num(), 0);

    let mut m = HM::new(5, System).unwrap();

    assert_eq!(m.bucket_num(), 7);
    m.insert(1, 1).unwrap();
    assert_eq!(m.bucket_num(), 7);

    m.insert(2, 2).unwrap();
    assert_eq!(m.bucket_num(), 7);

    m.remove(&1_i32);
    m.remove(&2);
    assert_eq!(m.bucket_num(), 7);
}

#[test]
fn ut_contains() {
    let mut m = FixedCapMap::new(1, System).unwrap();

    assert!(m.insert(1, 1).unwrap().is_none());
    assert!(m.contains_key(&1));
    assert!(!m.contains_key(&0));
}

#[test]
fn ut_insert() {
    let mut m = FixedCapMap::new(3, System).unwrap();
    assert_eq!(m.len(), 0);
    assert_eq!(m.bucket_num(), 3);
    assert!(m.insert(1, 2).unwrap().is_none());
    assert_eq!(m.len(), 1);
    assert!(m.insert(2, 4).unwrap().is_none());
    assert_eq!(m.len(), 2);
    assert_eq!(*m.get(&1).unwrap(), 2);
    assert_eq!(*m.get(&2).unwrap(), 4);

    assert!(m.insert(3, 4).unwrap().is_none());
    assert_eq!(m.len(), 3);
    assert_eq!(m.bucket_num(), 3);
    assert!(m.insert(4, 4).is_err());
    assert_eq!(m.bucket_num(), 3);
}

#[test]
fn ut_clone() {
    let mut m = FixedCapMap::new(3, System).unwrap();
    assert_eq!(m.len(), 0);
    assert_eq!(m.bucket_num(), 3);
    assert!(m.insert(1, 2).unwrap().is_none());
    assert_eq!(m.len(), 1);
    assert!(m.insert(2, 4).unwrap().is_none());
    assert_eq!(m.len(), 2);
    assert_eq!(m.bucket_num(), 3);
    let m2 = m.safe_clone().unwrap();
    assert_eq!(*m2.get(&1).unwrap(), 2);
    assert_eq!(*m2.get(&2).unwrap(), 4);
    assert_eq!(m2.len(), 2);
    assert_eq!(m2.bucket_num(), 3);
}

#[test]
fn ut_clone_from() {
    let mut map1 = FixedCapMap::new(3, System).unwrap();
    let mut map2 = FixedCapMap::new(3, System).unwrap();
    assert_eq!(map1.len(), 0);
    assert!(map1.insert(1, 2).unwrap().is_none());
    assert_eq!(map1.len(), 1);
    assert!(map1.insert(2, 4).unwrap().is_none());
    assert_eq!(map1.len(), 2);
    map2.safe_clone_from(&map1).unwrap();
    assert_eq!(*map2.get(&1).unwrap(), 2);
    assert_eq!(*map2.get(&2).unwrap(), 4);
    assert_eq!(map2.len(), 2);
}

#[test]
fn ut_find_mut() {
    let mut m = FixedCapMap::new(3, System).unwrap();
    assert!(m.insert(1, 12).unwrap().is_none());
    assert!(m.insert(2, 8).unwrap().is_none());
    assert!(m.insert(5, 14).unwrap().is_none());
    let new = 100;
    match m.get_mut(&5) {
        None => panic!(),
        Some(x) => *x = new,
    }
    assert_eq!(m.get(&5), Some(&new));
}

#[test]
fn ut_is_empty() {
    let mut m = FixedCapMap::new(3, System).unwrap();
    assert!(m.insert(1, 2).unwrap().is_none());
    assert!(!m.is_empty());
    assert!(m.remove(&1).is_some());
    assert!(m.is_empty());
}

#[test]
fn ut_remove() {
    let mut m = FixedCapMap::new(3, System).unwrap();
    m.insert(1, 2).unwrap();
    assert_eq!(m.remove(&1), Some(2));
    assert_eq!(m.remove(&1), None);
}

#[test]
fn ut_find() {
    let mut m = FixedCapMap::new(3, System).unwrap();
    assert!(m.get(&1).is_none());
    m.insert(1, 2).unwrap();
    match m.get(&1) {
        None => panic!(),
        Some(v) => assert_eq!(*v, 2),
    }
}

#[test]
fn ut_eq() {
    let mut m1 = FixedCapMap::new(3, System).unwrap();
    m1.insert(1, 2).unwrap();
    m1.insert(2, 3).unwrap();
    m1.insert(3, 4).unwrap();

    let mut m2 = FixedCapMap::new(3, System).unwrap();
    m2.insert(1, 2).unwrap();
    m2.insert(2, 3).unwrap();

    assert_ne!(m1, m2);

    m2.insert(3, 4).unwrap();

    assert_eq!(m1, m2);
}

#[test]
fn ut_get_mut_default() {
    let mut a = FixedCapMap::new(3, System).unwrap();
    let key = 1u32;
    let value = "value goes here";

    assert!(a.is_empty());
    let get_mut = a.get_mut_default(&key).unwrap();
    *get_mut = value;
    assert_eq!(a.len(), 1);
    assert_eq!(*a.get(&key).unwrap(), value);

    let new_value = "a new value";
    let get_mut = a.get_mut_default(&key).unwrap();
    *get_mut = new_value;
    assert_eq!(a.len(), 1);
    assert_eq!(*a.get(&key).unwrap(), new_value);

    assert!(a.insert(2u32, "value2").unwrap().is_none());
    assert!(a.insert(3u32, "value3").unwrap().is_none());

    let error_key = 4u32;
    let err = a.get_mut_default(&error_key).err().unwrap();
    match err {
        ContainerError::Full => {}
        _ => panic!(),
    }
}

#[test]
fn ut_keys() {
    let mut m = FixedCapMap::new(3, System).unwrap();
    assert!(m.insert(1, 'a').unwrap().is_none());
    assert!(m.insert(2, 'b').unwrap().is_none());
    assert!(m.insert(3, 'c').unwrap().is_none());

    let keys: Vec<_> = m.keys().into_iter().cloned().collect();
    assert_eq!(keys.len(), 3);
    assert!(keys.contains(&1));
    assert!(keys.contains(&2));
    assert!(keys.contains(&3));
}

#[test]
fn ut_values() {
    let mut m = FixedCapMap::new(3, System).unwrap();
    assert!(m.insert(1, 'a').unwrap().is_none());
    assert!(m.insert(2, 'b').unwrap().is_none());
    assert!(m.insert(3, 'c').unwrap().is_none());

    let values: Vec<_> = m.values().into_iter().cloned().collect();
    assert_eq!(values.len(), 3);
    assert!(values.contains(&'a'));
    assert!(values.contains(&'b'));
    assert!(values.contains(&'c'));
}

#[test]
fn map_equality_needs_the_same_capacity() {
    let mut m1 = FixedCapMap::new(3, System).unwrap();
    let mut m2 = FixedCapMap::new(4, System).unwrap();
    m1.insert(1u8, 2u8).unwrap();
    m2.insert(1u8, 2u8).unwrap();
    assert_ne!(m1, m2);
    let mut m3 = FixedCapMap::new(3, System).unwrap();
    m3.insert(1u8, 3u8).unwrap();
    assert_ne!(m1, m3);
}

#[test]
fn map_insert_then_get_and_remove() {
    let mut m = FixedCapMap::new(4, System).unwrap();
    m.insert(7u16, 70u16).unwrap();
    m.insert(8u16, 80u16).unwrap();
    assert_eq!(m.insert(7u16, 71u16).unwrap(), Some(70));
    assert_eq!(m.get(&7), Some(&71));
    assert_eq!(m.get(&8), Some(&80));
    assert_eq!(m.remove(&7), Some(71));
    assert!(!m.contains_key(&7));
    assert_eq!(m.get(&8), Some(&80));
    assert!(m.len() <= m.capacity());
}

#[test]
fn map_keeps_its_allocator() {
    let m: FixedCapMap<u8, u8, System> = FixedCapMap::new(2, System).unwrap();
    assert_eq!(*m.allocator(), System);
    let z: FixedCapMap<u8, u8, System> = FixedCapMap::new(0, System).unwrap();
    assert_eq!(*z.allocator(), System);
}

#[test]
fn ut_values_mut() {
    let mut m = FixedCapMap::new(3, System).unwrap();
    assert!(m.insert(1, 1).unwrap().is_none());
    assert!(m.insert(2, 2).unwrap().is_none());
    assert!(m.insert(3, 3).unwrap().is_none());

    for value in m.values_mut() {
        *value *= 2
    }
    let values: Vec<_> = m.values().into_iter().cloned().collect();
    assert_eq!(values.len(), 3);
    assert!(values.contains(&2));
    assert!(values.contains(&4));
    assert!(values.contains(&6));
}

#[test]
fn sdv_iter_mut_len() {
    let mut map = FixedCapMap::new(6, System).unwrap();
    map.insert(1, 1).unwrap();
    map.insert(2, 2).unwrap();
    map.insert(3, 3).unwrap();
    map.insert(4, 4).unwrap();
    map.insert(5, 5).unwrap();
    map.insert(6, 6).unwrap();

    let mut iter = map.iter_mut().into_iter();

    for _ in iter.by_ref().take(3) {}

    assert!(iter.next().is_some());
    assert!(iter.next().is_some());
    assert!(iter.next().is_some());
    assert!(iter.next().is_none());
}

#[test]
fn map_iter_mut_writes_through() {
    let mut map = FixedCapMap::new(3, System).unwrap();
    map.insert(1u8, 10u8).unwrap();
    map.insert(2u8, 20u8).unwrap();
    for (k, v) in map.iter_mut() {
        *v += *k;
    }
    assert_eq!(map.get(&1), Some(&11));
    assert_eq!(map.get(&2), Some(&22));
    assert_eq!(map.len(), 2);
    assert_eq!(map.capacity(), 3);
}
