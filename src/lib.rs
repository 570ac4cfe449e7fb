//! A sharded map with many writers and one snapshot reader at a time.
//!
//! Each writer owns a shard of the registry and a deferred queue. A writer
//! that finds the coordinator held by a snapshot records its operation in
//! the queue and returns; the queue is merged into the shard the next time
//! the writer gets a shared hold. A snapshot holds the coordinator
//! exclusively and sees the union of all shards, but no deferred queue.
//!
//! The map is driven by one owner: writer operations take the map by
//! `&mut`, and a snapshot's exclusive hold lasts from `snapshot` until
//! `release_snapshot`, so that writer calls made in between take the
//! contended path. Keys are `u64` and values `String`.
use vstd::prelude::*;
use std::collections::HashMap;
use slab::Slab;

pub mod cell;
pub mod laws;
pub mod lock;
pub mod reader;
pub mod registry;
pub mod shard;

pub use crate::reader::Reader;
use crate::lock::Coordinator;
use crate::registry::{slab_get_mut, slab_insert, slab_new, slab_remove, slab_shards};
use crate::shard::{drain_into, drained, lemma_drained_empty, lemma_drained_insert, Op};

verus! {

broadcast use vstd::std_specs::hash::group_hash_axioms;

/// The binding of `k` in `m`, if any.
pub open spec fn lookup(m: Map<u64, String>, k: u64) -> Option<String> {
    if m.contains_key(k) {
        Some(m[k])
    } else {
        None
    }
}

/// The value of a pending insert of `k` in the queue `q`, if there is one.
pub open spec fn pending_value(q: Map<u64, Op>, k: u64) -> Option<String> {
    if q.contains_key(k) && q[k] is Insert {
        Some(q[k]->Insert_0)
    } else {
        None
    }
}

/// The shared state: the coordinator and the registry of shards.
pub struct SnapMap {
    lock: Coordinator,
    shards: Slab<HashMap<u64, String>>,
}

/// One writer: the key of its shard in the registry, and its deferred queue.
pub struct Writer {
    idx: usize,
    q: HashMap<u64, Op>,
}

impl SnapMap {
    /// The shards by writer key.
    pub closed spec fn shards(&self) -> Map<usize, Map<u64, String>> {
        slab_shards(self.shards)
    }

    /// Whether a snapshot holds the coordinator.
    pub closed spec fn snapshot_held(&self) -> bool {
        self.lock.exclusive()
    }

    /// Between calls no writer holds the coordinator.
    pub closed spec fn wf(&self) -> bool {
        self.lock.wf() && self.lock.shared() == 0
    }

    pub fn new() -> (r: SnapMap)
        ensures
            r.wf(),
            !r.snapshot_held(),
            r.shards().dom().is_empty(),
    {
        SnapMap { lock: Coordinator::new(), shards: slab_new() }
    }

    /// Adds an empty shard under exclusive hold and hands out its writer.
    pub fn writer(&mut self) -> (w: Writer)
        requires
            old(self).wf(),
            !old(self).snapshot_held(),
        ensures
            final(self).wf(),
            !final(self).snapshot_held(),
            !old(self).shards().contains_key(w.id()),
            final(self).shards() == old(self).shards().insert(w.id(), Map::empty()),
            w.pending().dom().is_empty(),
    {
        self.lock.acquire_exclusive();
        let idx = slab_insert(&mut self.shards, HashMap::new());
        self.lock.release_exclusive();
        Writer { idx, q: HashMap::new() }
    }

    /// Takes the exclusive hold and reads the shards through it. The hold
    /// lasts until `release_snapshot`.
    pub fn snapshot(&mut self) -> (r: Reader<'_>)
        requires
            old(self).wf(),
            !old(self).snapshot_held(),
        ensures
            final(self).wf(),
            final(self).snapshot_held(),
            final(self).shards() == old(self).shards(),
            r.shards() == old(self).shards(),
    {
        self.lock.acquire_exclusive();
        Reader::new(&self.shards)
    }

    /// Ends the snapshot's exclusive hold.
    pub fn release_snapshot(&mut self)
        requires
            old(self).wf(),
            old(self).snapshot_held(),
        ensures
            final(self).wf(),
            !final(self).snapshot_held(),
            final(self).shards() == old(self).shards(),
    {
        self.lock.release_exclusive();
    }

    /// Whether a snapshot holds the coordinator.
    pub fn is_snapshot_held(&self) -> (r: bool)
        ensures
            r == self.snapshot_held(),
    {
        self.lock.is_exclusive()
    }
}

/// With the queue empty, a writer's merged view is its shard.
proof fn lemma_merged_view(m: Map<u64, String>, q: Map<u64, Op>)
    requires
        q.dom().is_empty(),
    ensures
        drained(m, q) == m,
{
    assert(q =~= Map::empty());
    lemma_drained_empty(m);
}

impl Writer {
    /// The key of this writer's shard in the registry.
    pub closed spec fn id(&self) -> usize {
        self.idx
    }

    /// The deferred queue: at most one pending operation per key.
    pub closed spec fn pending(&self) -> Map<u64, Op> {
        self.q@
    }

    /// This writer's contents as it sees them: its shard in `map` with the
    /// deferred queue merged in.
    pub open spec fn logical(&self, map: &SnapMap) -> Map<u64, String> {
        drained(map.shards()[self.id()], self.pending())
    }

    /// Merges the queue into this writer's shard while a shared hold is
    /// held, leaving the queue empty.
    fn merge_queue(&mut self, map: &mut SnapMap)
        requires
            old(map).lock.wf(),
            old(map).shards().contains_key(old(self).id()),
        ensures
            final(self).id() == old(self).id(),
            final(self).pending().dom().is_empty(),
            final(map).lock == old(map).lock,
            final(map).shards() == old(map).shards().insert(
                old(self).id(),
                old(self).logical(old(map)),
            ),
    {
        let shard = slab_get_mut(&mut map.shards, self.idx);
        drain_into(&self.q, shard);
        self.q.clear();
    }

    /// Writes `key = val` to this writer's contents and returns the value
    /// it replaces. With the coordinator free, the queue is merged and the
    /// shard's previous binding comes back; while a snapshot holds it, the
    /// insert waits in the queue and the value of an earlier pending insert
    /// of `key` comes back.
    pub fn insert(&mut self, map: &mut SnapMap, key: u64, val: String) -> (r: Option<String>)
        requires
            old(map).wf(),
            old(map).shards().contains_key(old(self).id()),
        ensures
            final(map).wf(),
            final(self).id() == old(self).id(),
            final(map).snapshot_held() == old(map).snapshot_held(),
            final(map).shards().contains_key(final(self).id()),
            final(self).logical(final(map)) == old(self).logical(old(map)).insert(key, val),
            !old(map).snapshot_held() ==> {
                let l = old(self).logical(old(map));
                &&& final(map).shards() == old(map).shards().insert(
                    old(self).id(),
                    l.insert(key, val),
                )
                &&& final(self).pending().dom().is_empty()
                &&& r == lookup(l, key)
            },
            old(map).snapshot_held() ==> {
                &&& final(map).shards() == old(map).shards()
                &&& final(self).pending() == old(self).pending().insert(key, Op::Insert(val))
                &&& r == pending_value(old(self).pending(), key)
            },
    {
        if map.lock.try_shared() {
            self.merge_queue(map);
            let shard = slab_get_mut(&mut map.shards, self.idx);
            let r = shard.insert(key, val);
            map.lock.release_shared();
            proof {
                lemma_merged_view(map.shards()[self.idx as usize], self.q@);
            }
            r
        } else {
            let ghost q0 = self.q@;
            let ghost v0 = val;
            let r = match self.q.insert(key, Op::Insert(val)) {
                Some(Op::Insert(v)) => Some(v),
                _ => None,
            };
            proof {
                lemma_drained_insert(map.shards()[self.idx as usize], q0, key, Op::Insert(v0));
            }
            r
        }
    }

    /// Removes `key` from this writer's contents and returns the value it
    /// had, with the same two paths as `insert`.
    pub fn remove(&mut self, map: &mut SnapMap, key: u64) -> (r: Option<String>)
        requires
            old(map).wf(),
            old(map).shards().contains_key(old(self).id()),
        ensures
            final(map).wf(),
            final(self).id() == old(self).id(),
            final(map).snapshot_held() == old(map).snapshot_held(),
            final(map).shards().contains_key(final(self).id()),
            final(self).logical(final(map)) == old(self).logical(old(map)).remove(key),
            !old(map).snapshot_held() ==> {
                let l = old(self).logical(old(map));
                &&& final(map).shards() == old(map).shards().insert(old(self).id(), l.remove(key))
                &&& final(self).pending().dom().is_empty()
                &&& r == lookup(l, key)
            },
            old(map).snapshot_held() ==> {
                &&& final(map).shards() == old(map).shards()
                &&& final(self).pending() == old(self).pending().insert(key, Op::Remove)
                &&& r == pending_value(old(self).pending(), key)
            },
    {
        if map.lock.try_shared() {
            self.merge_queue(map);
            let shard = slab_get_mut(&mut map.shards, self.idx);
            let r = shard.remove(&key);
            map.lock.release_shared();
            proof {
                lemma_merged_view(map.shards()[self.idx as usize], self.q@);
            }
            r
        } else {
            let ghost q0 = self.q@;
            let r = match self.q.insert(key, Op::Remove) {
                Some(Op::Insert(v)) => Some(v),
                _ => None,
            };
            proof {
                lemma_drained_insert(map.shards()[self.idx as usize], q0, key, Op::Remove);
            }
            r
        }
    }

    /// Applies `f` to the live value of `key` in this writer's contents and
    /// returns `f`'s result; `f` gets the value and gives back its
    /// replacement. While a snapshot holds the coordinator, a pending
    /// insert of `key` is changed in the queue and a pending remove gives
    /// `None`; with nothing pending the call waits for the hold to end,
    /// so that case is asked to be free here. Otherwise the queue is
    /// merged and the shard's binding is changed, or `None` comes back.
    pub fn with_mut<F, T>(&mut self, map: &mut SnapMap, key: u64, f: F) -> (r: Option<T>)
        where
            F: FnOnce(&String) -> (String, T),
        requires
            old(map).wf(),
            old(map).shards().contains_key(old(self).id()),
            old(map).snapshot_held() ==> old(self).pending().contains_key(key),
            forall|v: String| f.requires((&v,)),
        ensures
            final(map).wf(),
            final(self).id() == old(self).id(),
            final(map).snapshot_held() == old(map).snapshot_held(),
            final(map).shards().contains_key(final(self).id()),
            r is None ==> final(self).logical(final(map)) == old(self).logical(old(map)),
            r is Some ==> {
                let lo = old(self).logical(old(map));
                let lf = final(self).logical(final(map));
                &&& lo.contains_key(key)
                &&& lf.contains_key(key)
                &&& f.ensures((&lo[key],), (lf[key], r->Some_0))
                &&& lf == lo.insert(key, lf[key])
            },
            old(map).snapshot_held() ==> final(map).shards() == old(map).shards(),
            old(map).snapshot_held() && old(self).pending()[key] is Remove ==> {
                &&& r is None
                &&& final(self).pending() == old(self).pending()
            },
            old(map).snapshot_held() && old(self).pending()[key] is Insert ==> {
                let n = final(self).pending()[key];
                &&& r is Some
                &&& n is Insert
                &&& f.ensures((&old(self).pending()[key]->Insert_0,), (n->Insert_0, r->Some_0))
                &&& final(self).pending() == old(self).pending().insert(key, n)
            },
            !old(map).snapshot_held() ==> {
                let l = old(self).logical(old(map));
                let s = final(map).shards()[old(self).id()];
                &&& final(self).pending().dom().is_empty()
                &&& (r is Some <==> l.contains_key(key))
                &&& l.contains_key(key) ==> s.contains_key(key) && f.ensures(
                    (&l[key],),
                    (s[key], r->Some_0),
                ) && final(map).shards() == old(map).shards().insert(
                    old(self).id(),
                    l.insert(key, s[key]),
                )
                &&& !l.contains_key(key) ==> final(map).shards() == old(map).shards().insert(
                    old(self).id(),
                    l,
                )
            },
    {
        if !map.lock.try_shared() {
            match self.q.get(&key) {
                Some(Op::Insert(v)) => {
                    let ghost q0 = self.q@;
                    let (next, res) = f(v);
                    let ghost n0 = next;
                    self.q.insert(key, Op::Insert(next));
                    proof {
                        lemma_drained_insert(map.shards()[self.idx as usize], q0, key, Op::Insert(n0));
                    }
                    return Some(res);
                },
                _ => {
                    return None;
                },
            }
        }
        self.merge_queue(map);
        let shard = slab_get_mut(&mut map.shards, self.idx);
        let r = match shard.get(&key) {
            Some(v) => {
                let (next, res) = f(v);
                shard.insert(key, next);
                Some(res)
            },
            None => None,
        };
        map.lock.release_shared();
        proof {
            lemma_merged_view(map.shards()[self.idx as usize], self.q@);
        }
        r
    }

    /// Merges the deferred queue into the shard under a shared hold.
    pub fn sync(&mut self, map: &mut SnapMap)
        requires
            old(map).wf(),
            !old(map).snapshot_held(),
            old(map).shards().contains_key(old(self).id()),
        ensures
            final(map).wf(),
            !final(map).snapshot_held(),
            final(self).id() == old(self).id(),
            final(self).pending().dom().is_empty(),
            final(map).shards().contains_key(final(self).id()),
            final(self).logical(final(map)) == old(self).logical(old(map)),
            final(map).shards() == old(map).shards().insert(
                old(self).id(),
                old(self).logical(old(map)),
            ),
    {
        map.lock.acquire_shared();
        self.merge_queue(map);
        map.lock.release_shared();
        proof {
            lemma_merged_view(map.shards()[self.idx as usize], self.q@);
        }
    }

    /// Removes this writer's shard under exclusive hold; operations still
    /// in the queue are dropped with it.
    pub fn close(self, map: &mut SnapMap)
        requires
            old(map).wf(),
            !old(map).snapshot_held(),
            old(map).shards().contains_key(self.id()),
        ensures
            final(map).wf(),
            !final(map).snapshot_held(),
            final(map).shards() == old(map).shards().remove(self.id()),
    {
        map.lock.acquire_exclusive();
        let _ = slab_remove(&mut map.shards, self.idx);
        map.lock.release_exclusive();
    }
}

} // verus!
