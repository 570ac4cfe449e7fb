use snapmap::cell::CausalCell;
use snapmap::lock::{
    exclusive_acquired, exclusive_released, shared_acquired, shared_released, Coordinator,
    EXCLUSIVE, SHARED_ONE,
};
use snapmap::shard::{drain_into, shard_entries, Op};
use snapmap::{SnapMap, Writer};
use std::collections::HashMap;

fn s(x: &str) -> String {
    x.to_string()
}

fn sorted(mut v: Vec<(u64, String)>) -> Vec<(u64, String)> {
    v.sort();
    v
}

fn plus_one(v: &String) -> (String, ()) {
    let n: u64 = v.parse().unwrap();
    ((n + 1).to_string(), ())
}

fn writer_of(map: &mut SnapMap) -> Writer {
    map.writer()
}

#[test]
fn fuzz_insert() {
    let mut map = SnapMap::new();
    let mut w1 = map.writer();
    let mut w2 = map.writer();
    w1.insert(&mut map, 1, s("world"));
    w1.insert(&mut map, 2, s("earth"));
    w2.insert(&mut map, 3, s("san francisco"));
    w2.insert(&mut map, 4, s("oakland"));
    {
        let snap = map.snapshot();
        for (_, v) in snap.iter() {
            println!("hello {}", v);
        }
        assert_eq!(snap.iter().len(), 4);
    }
    map.release_snapshot();
    w1.close(&mut map);
    w2.close(&mut map);
}

#[test]
fn merge_on_next_call() {
    let mut map = SnapMap::new();
    let mut w = map.writer();
    assert_eq!(w.insert(&mut map, 1, s("a")), None);
    w.sync(&mut map);
    let snap = map.snapshot();
    assert_eq!(snap.iter(), vec![(1, s("a"))]);
}

#[test]
fn two_writers_disjoint_keys() {
    let mut map = SnapMap::new();
    let mut w1 = map.writer();
    let mut w2 = map.writer();
    w1.insert(&mut map, 1, s("world"));
    w1.insert(&mut map, 2, s("earth"));
    w2.insert(&mut map, 3, s("sf"));
    w2.insert(&mut map, 4, s("oak"));
    w1.sync(&mut map);
    w2.sync(&mut map);
    let snap = map.snapshot();
    assert_eq!(
        sorted(snap.iter()),
        vec![(1, s("world")), (2, s("earth")), (3, s("sf")), (4, s("oak"))]
    );
    let mut keys = snap.keys();
    keys.sort();
    assert_eq!(keys, vec![1, 2, 3, 4]);
    let mut values = snap.values();
    values.sort();
    assert_eq!(values, vec![s("earth"), s("oak"), s("sf"), s("world")]);
}

#[test]
fn writes_during_snapshot_are_not_seen() {
    let mut map = SnapMap::new();
    let mut w1 = map.writer();
    let mut w2 = map.writer();
    w1.insert(&mut map, 1, s("world"));
    let _ = map.snapshot();
    assert!(map.is_snapshot_held());
    assert_eq!(w2.insert(&mut map, 3, s("sf")), None);
    map.release_snapshot();
    {
        let snap = map.snapshot();
        assert_eq!(snap.iter(), vec![(1, s("world"))]);
    }
    map.release_snapshot();
    w2.sync(&mut map);
    let snap = map.snapshot();
    assert_eq!(sorted(snap.iter()), vec![(1, s("world")), (3, s("sf"))]);
}

#[test]
fn queue_collapsing() {
    let mut map = SnapMap::new();
    let mut w = map.writer();
    let _ = map.snapshot();
    assert_eq!(w.insert(&mut map, 7, s("1")), None);
    assert_eq!(w.insert(&mut map, 7, s("2")), Some(s("1")));
    assert_eq!(w.insert(&mut map, 7, s("3")), Some(s("2")));
    map.release_snapshot();
    w.sync(&mut map);
    let snap = map.snapshot();
    assert_eq!(snap.iter(), vec![(7, s("3"))]);
}

#[test]
fn insert_then_remove_under_contention() {
    let mut map = SnapMap::new();
    let mut w = map.writer();
    let _ = map.snapshot();
    assert_eq!(w.insert(&mut map, 5, s("7")), None);
    assert_eq!(w.remove(&mut map, 5), Some(s("7")));
    map.release_snapshot();
    w.sync(&mut map);
    let snap = map.snapshot();
    assert!(!snap.contains_key(5));
    assert!(snap.iter().is_empty());
}

#[test]
fn remove_then_insert_under_contention() {
    let mut map = SnapMap::new();
    let mut w = map.writer();
    w.insert(&mut map, 5, s("old"));
    let _ = map.snapshot();
    assert_eq!(w.remove(&mut map, 5), None);
    assert_eq!(w.insert(&mut map, 5, s("new")), None);
    map.release_snapshot();
    w.sync(&mut map);
    let snap = map.snapshot();
    assert_eq!(snap.iter(), vec![(5, s("new"))]);
}

#[test]
fn with_mut_on_queued_key() {
    let mut map = SnapMap::new();
    let mut w = map.writer();
    let _ = map.snapshot();
    w.insert(&mut map, 9, s("10"));
    assert_eq!(w.with_mut(&mut map, 9, plus_one), Some(()));
    map.release_snapshot();
    w.sync(&mut map);
    let snap = map.snapshot();
    assert_eq!(snap.get(9), vec![s("11")]);
}

#[test]
fn with_mut_on_queued_remove_gives_none() {
    let mut map = SnapMap::new();
    let mut w = map.writer();
    w.insert(&mut map, 9, s("10"));
    let _ = map.snapshot();
    w.remove(&mut map, 9);
    assert_eq!(w.with_mut(&mut map, 9, plus_one), None);
    map.release_snapshot();
    w.sync(&mut map);
    let snap = map.snapshot();
    assert!(snap.get(9).is_empty());
}

#[test]
fn with_mut_on_shard() {
    let mut map = SnapMap::new();
    let mut w = map.writer();
    w.insert(&mut map, 2, s("41"));
    assert_eq!(w.with_mut(&mut map, 2, |v: &String| (format!("{}!", v), v.len())), Some(2));
    assert_eq!(w.with_mut(&mut map, 3, plus_one), None);
    let snap = map.snapshot();
    assert_eq!(snap.iter(), vec![(2, s("41!"))]);
}

#[test]
fn insert_and_remove_return_previous_shard_value() {
    let mut map = SnapMap::new();
    let mut w = map.writer();
    assert_eq!(w.insert(&mut map, 1, s("a")), None);
    assert_eq!(w.insert(&mut map, 1, s("b")), Some(s("a")));
    assert_eq!(w.remove(&mut map, 1), Some(s("b")));
    assert_eq!(w.remove(&mut map, 1), None);
}

#[test]
fn sync_twice_is_sync_once() {
    let mut map = SnapMap::new();
    let mut w = map.writer();
    let _ = map.snapshot();
    w.insert(&mut map, 1, s("a"));
    w.remove(&mut map, 2);
    map.release_snapshot();
    w.sync(&mut map);
    let once = map.snapshot().iter();
    map.release_snapshot();
    w.sync(&mut map);
    let twice = map.snapshot().iter();
    assert_eq!(once, twice);
    assert_eq!(twice, vec![(1, s("a"))]);
}

#[test]
fn snapshot_with_no_writers_is_empty() {
    let mut map = SnapMap::new();
    let snap = map.snapshot();
    assert!(snap.iter().is_empty());
    assert!(snap.keys().is_empty());
    assert!(snap.values().is_empty());
    assert!(!snap.contains_key(0));
}

#[test]
fn writer_created_and_dropped_leaves_nothing() {
    let mut map = SnapMap::new();
    let mut keep = map.writer();
    keep.insert(&mut map, 1, s("x"));
    let before = map.snapshot().iter();
    map.release_snapshot();
    let w = writer_of(&mut map);
    w.close(&mut map);
    let after = map.snapshot().iter();
    assert_eq!(before, after);
}

#[test]
fn dropped_writer_entries_disappear() {
    let mut map = SnapMap::new();
    let mut w1 = map.writer();
    let mut w2 = map.writer();
    w1.insert(&mut map, 1, s("one"));
    w2.insert(&mut map, 2, s("two"));
    w1.close(&mut map);
    let snap = map.snapshot();
    assert_eq!(snap.iter(), vec![(2, s("two"))]);
    assert!(!snap.contains_key(1));
}

#[test]
fn two_writers_same_key_both_seen() {
    let mut map = SnapMap::new();
    let mut w1 = map.writer();
    let mut w2 = map.writer();
    w1.insert(&mut map, 1, s("left"));
    w2.insert(&mut map, 1, s("right"));
    let snap = map.snapshot();
    assert_eq!(sorted(snap.iter()), vec![(1, s("left")), (1, s("right"))]);
    let mut got = snap.get(1);
    got.sort();
    assert_eq!(got, vec![s("left"), s("right")]);
    assert!(snap.contains_key(1));
    assert!(!snap.contains_key(2));
}

#[test]
fn contains_key_matches_iter() {
    let mut map = SnapMap::new();
    let mut w = map.writer();
    w.insert(&mut map, 4, s("d"));
    w.insert(&mut map, 6, s("f"));
    let snap = map.snapshot();
    let listed = snap.iter();
    for k in 0..8u64 {
        assert_eq!(snap.contains_key(k), listed.iter().any(|e| e.0 == k));
    }
}

#[test]
fn queued_ops_are_dropped_with_the_writer() {
    let mut map = SnapMap::new();
    let mut w = map.writer();
    let _ = map.snapshot();
    w.insert(&mut map, 1, s("lost"));
    map.release_snapshot();
    w.close(&mut map);
    assert!(map.snapshot().iter().is_empty());
}

#[test]
fn lock_word_transitions() {
    assert_eq!(shared_acquired(0), Some(SHARED_ONE));
    assert_eq!(shared_acquired(SHARED_ONE), Some(2 * SHARED_ONE));
    assert_eq!(shared_acquired(EXCLUSIVE), None);
    assert_eq!(shared_acquired(usize::MAX - 3), None);
    assert_eq!(shared_released(2 * SHARED_ONE), SHARED_ONE);
    assert_eq!(exclusive_acquired(0), Some(EXCLUSIVE));
    assert_eq!(exclusive_acquired(SHARED_ONE), None);
    assert_eq!(exclusive_acquired(EXCLUSIVE), None);
    assert_eq!(exclusive_released(EXCLUSIVE), 0);
}

#[test]
fn coordinator_excludes() {
    let mut c = Coordinator::new();
    assert!(c.try_shared());
    assert!(!c.try_exclusive());
    assert!(c.try_shared());
    c.release_shared();
    c.release_shared();
    assert!(c.try_exclusive());
    assert!(c.is_exclusive());
    assert!(!c.try_shared());
    assert!(!c.try_exclusive());
    c.release_exclusive();
    assert!(!c.is_exclusive());
    c.acquire_shared();
    c.release_shared();
    c.acquire_exclusive();
    assert!(c.is_exclusive());
}

#[test]
fn causal_cell_reads_and_replaces() {
    let mut c = CausalCell::new(5u64);
    assert_eq!(c.with(|v: &u64| *v * 2), 10);
    assert_eq!(c.with_mut(|v: &u64| (*v + 1, *v)), 5);
    assert_eq!(c.with(|v: &u64| *v), 6);
}

#[test]
fn drain_applies_each_pending_op() {
    let mut q: HashMap<u64, Op> = HashMap::new();
    q.insert(1, Op::Insert(s("one")));
    q.insert(2, Op::Remove);
    q.insert(3, Op::Remove);
    let mut shard: HashMap<u64, String> = HashMap::new();
    shard.insert(2, s("two"));
    shard.insert(4, s("four"));
    drain_into(&q, &mut shard);
    let mut got: Vec<(u64, String)> = shard.into_iter().collect();
    got.sort();
    assert_eq!(got, vec![(1, s("one")), (4, s("four"))]);
}

#[test]
fn shard_entries_lists_every_binding() {
    let mut shard: HashMap<u64, String> = HashMap::new();
    shard.insert(8, s("h"));
    shard.insert(3, s("c"));
    assert_eq!(sorted(shard_entries(&shard)), vec![(3, s("c")), (8, s("h"))]);
}

#[test]
fn keys_and_values_keep_duplicates() {
    let mut map = SnapMap::new();
    let mut w1 = map.writer();
    let mut w2 = map.writer();
    w1.insert(&mut map, 1, s("same"));
    w2.insert(&mut map, 1, s("same"));
    w2.insert(&mut map, 2, s("other"));
    let snap = map.snapshot();
    let mut keys = snap.keys();
    keys.sort();
    assert_eq!(keys, vec![1, 1, 2]);
    let mut values = snap.values();
    values.sort();
    assert_eq!(values, vec![s("other"), s("same"), s("same")]);
    assert_eq!(snap.iter().len(), 3);
}

#[test]
fn shared_holds_coexist() {
    let mut c = Coordinator::new();
    c.acquire_shared();
    c.acquire_shared();
    assert!(!c.try_exclusive());
    c.release_shared();
    c.release_shared();
    assert!(c.try_exclusive());
}

#[test]
fn word_validity() {
    assert!(snapmap::lock::is_word_wf(0));
    assert!(snapmap::lock::is_word_wf(EXCLUSIVE));
    assert!(snapmap::lock::is_word_wf(3 * SHARED_ONE));
    assert!(!snapmap::lock::is_word_wf(2));
    assert!(!snapmap::lock::is_word_wf(SHARED_ONE + EXCLUSIVE));
}
