use vstd::prelude::*;
use std::collections::HashMap;
use slab::Slab;
use crate::registry::{slab_get, slab_keys, slab_shards};
use crate::shard::shard_entries;

verus! {

broadcast use vstd::std_specs::hash::group_hash_axioms;

/// Shard `id` exists and binds `k`.
pub open spec fn binds(shards: Map<usize, Map<u64, String>>, id: usize, k: u64) -> bool {
    shards.contains_key(id) && shards[id].contains_key(k)
}

/// Some shard binds `k` to `v`.
pub open spec fn has_entry(shards: Map<usize, Map<u64, String>>, k: u64, v: String) -> bool {
    exists|id: usize| binds(shards, id, k) && shards[id][k] == v
}

/// Some shard binds `k`.
pub open spec fn has_key(shards: Map<usize, Map<u64, String>>, k: u64) -> bool {
    exists|id: usize| binds(shards, id, k)
}

/// Some shard binds some key to `v`.
pub open spec fn has_value(shards: Map<usize, Map<u64, String>>, v: String) -> bool {
    exists|k: u64| has_entry(shards, k, v)
}

/// `s` lists the entries of the shards: each item is a binding of some
/// shard, and each binding of each shard is among the items.
pub open spec fn lists_entries(shards: Map<usize, Map<u64, String>>, s: Seq<(u64, String)>) -> bool {
    &&& forall|i: int| 0 <= i < s.len() ==> has_entry(shards, #[trigger] s[i].0, s[i].1)
    &&& forall|id: usize, k: u64| #[trigger] binds(shards, id, k) ==> s.contains((k, shards[id][k]))
}

/// Read access to every shard, taken under the coordinator's exclusive hold.
pub struct Reader<'a> {
    shards: &'a Slab<HashMap<u64, String>>,
}

/// `src[i]` is the key of the shard that the item `s[i]` comes from: every
/// item is a binding of its shard, no binding of a shard stands twice, and
/// every binding of every shard stands somewhere.
pub open spec fn sourced(shards: Map<usize, Map<u64, String>>, s: Seq<(u64, String)>, src: Seq<usize>) -> bool {
    &&& src.len() == s.len()
    &&& forall|i: int|
        0 <= i < s.len() ==> binds(shards, #[trigger] src[i], s[i].0) && shards[src[i]][s[i].0]
            == s[i].1
    &&& forall|i: int, j: int|
        0 <= i < j < s.len() ==> !(#[trigger] src[i] == #[trigger] src[j] && s[i].0 == s[j].0)
    &&& forall|id: usize, k: u64|
        #[trigger] binds(shards, id, k) ==> exists|i: int|
            0 <= i < s.len() && #[trigger] src[i] == id && s[i].0 == k
}

/// `s` lists each binding of each shard exactly once.
pub open spec fn lists_each_once(shards: Map<usize, Map<u64, String>>, s: Seq<(u64, String)>) -> bool {
    exists|src: Seq<usize>| sourced(shards, s, src)
}

/// `src` holds, without repeats, the keys of exactly the shards that bind
/// `k`, and `s[i]` is the value that shard `src[i]` binds `k` to.
pub open spec fn values_by_shard(
    shards: Map<usize, Map<u64, String>>,
    k: u64,
    s: Seq<String>,
    src: Seq<usize>,
) -> bool {
    &&& src.len() == s.len()
    &&& src.no_duplicates()
    &&& forall|i: int| 0 <= i < s.len() ==> binds(shards, #[trigger] src[i], k) && shards[src[i]][k] == s[i]
    &&& forall|id: usize| #[trigger] binds(shards, id, k) ==> src.contains(id)
}

impl<'a> Reader<'a> {
    /// The shards by writer key.
    pub closed spec fn shards(&self) -> Map<usize, Map<u64, String>> {
        slab_shards(*self.shards)
    }

    pub(crate) fn new(shards: &'a Slab<HashMap<u64, String>>) -> (r: Reader<'a>)
        ensures
            r.shards() == slab_shards(*shards),
    {
        Reader { shards }
    }

    /// Whether some shard binds `key`.
    pub fn contains_key(&self, key: u64) -> (r: bool)
        ensures
            r == has_key(self.shards(), key),
    {
        let ids = slab_keys(self.shards);
        let mut i: usize = 0;
        while i < ids.len()
            invariant
                i <= ids@.len(),
                forall|j: int| 0 <= j < ids@.len() ==> self.shards().contains_key(#[trigger] ids@[j]),
                forall|id: usize| #[trigger] self.shards().contains_key(id) ==> ids@.contains(id),
                forall|j: int| 0 <= j < i ==> !binds(self.shards(), #[trigger] ids@[j], key),
            decreases ids@.len() - i,
        {
            if slab_get(self.shards, ids[i]).contains_key(&key) {
                assert(binds(self.shards(), ids@[i as int], key));
                return true;
            }
            i = i + 1;
        }
        assert forall|id: usize| !binds(self.shards(), id, key) by {
            if self.shards().contains_key(id) {
                let j = choose|j: int| 0 <= j < ids@.len() && ids@[j] == id;
                assert(!binds(self.shards(), ids@[j], key));
            }
        }
        false
    }

    /// The value of `key` in each shard that binds it.
    pub fn get(&self, key: u64) -> (out: Vec<String>)
        ensures
            forall|i: int| 0 <= i < out@.len() ==> has_entry(self.shards(), key, #[trigger] out@[i]),
            forall|id: usize|
                #[trigger] binds(self.shards(), id, key) ==> out@.contains(self.shards()[id][key]),
            exists|src: Seq<usize>| values_by_shard(self.shards(), key, out@, src),
    {
        let ids = slab_keys(self.shards);
        let ghost sh = self.shards();
        let ghost mut src: Seq<usize> = Seq::empty();
        let mut out: Vec<String> = Vec::new();
        let mut i: usize = 0;
        while i < ids.len()
            invariant
                sh == self.shards(),
                i <= ids@.len(),
                ids@.no_duplicates(),
                forall|j: int| 0 <= j < ids@.len() ==> sh.contains_key(#[trigger] ids@[j]),
                forall|id: usize| #[trigger] sh.contains_key(id) ==> ids@.contains(id),
                forall|j: int| 0 <= j < out@.len() ==> has_entry(sh, key, #[trigger] out@[j]),
                src.len() == out@.len(),
                src.no_duplicates(),
                forall|t: int|
                    0 <= t < out@.len() ==> binds(sh, #[trigger] src[t], key) && sh[src[t]][key] == out@[t],
                forall|t: int| 0 <= t < src.len() ==> ids@.subrange(0, i as int).contains(#[trigger] src[t]),
                forall|j: int| 0 <= j < i && #[trigger] binds(sh, ids@[j], key) ==> src.contains(ids@[j]),
                forall|j: int|
                    0 <= j < i && #[trigger] binds(sh, ids@[j], key) ==> out@.contains(
                        sh[ids@[j]][key],
                    ),
            decreases ids@.len() - i,
        {
            let id = ids[i];
            match slab_get(self.shards, id).get(&key) {
                Some(v) => {
                    let ghost before = out@;
                    let ghost src0 = src;
                    out.push(v.clone());
                    proof {
                        src = src0.push(id);
                        assert forall|t: int| 0 <= t < src0.len() implies src0[t] != id by {
                            let p = choose|p: int| 0 <= p < i && ids@.subrange(0, i as int)[p] == src0[t];
                            assert(ids@[p] == src0[t]);
                        }
                        assert forall|t: int| 0 <= t < src.len() implies ids@.subrange(0, i as int + 1).contains(
                            #[trigger] src[t],
                        ) by {
                            if t < src0.len() {
                                let p = choose|p: int| 0 <= p < i && ids@.subrange(0, i as int)[p] == src0[t];
                                assert(ids@.subrange(0, i as int + 1)[p] == src0[t]);
                            } else {
                                assert(ids@.subrange(0, i as int + 1)[i as int] == id);
                            }
                        }
                        assert forall|j: int| 0 <= j < i + 1 && #[trigger] binds(sh, ids@[j], key) implies src.contains(ids@[j]) by {
                            if j < i {
                                let t = choose|t: int| 0 <= t < src0.len() && src0[t] == ids@[j];
                                assert(src[t] == src0[t]);
                            } else {
                                assert(src[src0.len() as int] == id);
                            }
                        }
                        assert forall|t: int| 0 <= t < out@.len() implies binds(sh, #[trigger] src[t], key)
                            && sh[src[t]][key] == out@[t] by {
                            if t < src0.len() {
                                assert(src[t] == src0[t] && out@[t] == before[t]);
                            }
                        }
                    }
                    assert(binds(sh, id, key));
                    assert(out@[before.len() as int] == sh[id][key]);
                    assert forall|j: int|
                        0 <= j < i && #[trigger] binds(sh, ids@[j], key) implies out@.contains(
                        sh[ids@[j]][key],
                    ) by {
                        let t = choose|t: int| 0 <= t < before.len() && before[t] == sh[ids@[j]][key];
                        assert(out@[t] == before[t]);
                    }
                },
                None => {
                    proof {
                        assert forall|t: int| 0 <= t < src.len() implies ids@.subrange(0, i as int + 1).contains(
                            #[trigger] src[t],
                        ) by {
                            let p = choose|p: int| 0 <= p < i && ids@.subrange(0, i as int)[p] == src[t];
                            assert(ids@.subrange(0, i as int + 1)[p] == src[t]);
                        }
                    }
                },
            }
            i = i + 1;
        }
        assert forall|id: usize| #[trigger] binds(sh, id, key) implies out@.contains(sh[id][key]) by {
            let j = choose|j: int| 0 <= j < ids@.len() && ids@[j] == id;
            assert(binds(sh, ids@[j], key));
        }
        assert forall|id: usize| #[trigger] binds(sh, id, key) implies src.contains(id) by {
            let j = choose|j: int| 0 <= j < ids@.len() && ids@[j] == id;
            assert(binds(sh, ids@[j], key));
        }
        assert(values_by_shard(sh, key, out@, src));
        out
    }

    /// The key of every entry that `iter` lists.
    pub fn keys(&self) -> (out: Vec<u64>)
        ensures
            forall|i: int| 0 <= i < out@.len() ==> has_key(self.shards(), #[trigger] out@[i]),
            forall|id: usize, k: u64| #[trigger] binds(self.shards(), id, k) ==> out@.contains(k),
            exists|s: Seq<(u64, String)>|
                lists_each_once(self.shards(), s) && out@ == s.map_values(|e: (u64, String)| e.0),
    {
        let entries = self.iter();
        let mut out: Vec<u64> = Vec::new();
        let mut i: usize = 0;
        while i < entries.len()
            invariant
                i <= entries@.len(),
                lists_entries(self.shards(), entries@),
                out@.len() == i,
                forall|j: int| 0 <= j < i ==> out@[j] == #[trigger] entries@[j].0,
            decreases entries@.len() - i,
        {
            out.push(entries[i].0);
            i = i + 1;
        }
        assert forall|i: int| 0 <= i < out@.len() implies has_key(self.shards(), #[trigger] out@[i]) by {
            assert(has_entry(self.shards(), entries@[i].0, entries@[i].1));
        }
        assert forall|id: usize, k: u64| #[trigger] binds(self.shards(), id, k) implies out@.contains(k) by {
            let t = choose|t: int| 0 <= t < entries@.len() && entries@[t] == (k, self.shards()[id][k]);
            assert(out@[t] == entries@[t].0);
        }
        assert(out@ =~= entries@.map_values(|e: (u64, String)| e.0));
        out
    }

    /// The value of every entry that `iter` lists.
    pub fn values(&self) -> (out: Vec<String>)
        ensures
            forall|i: int| 0 <= i < out@.len() ==> has_value(self.shards(), #[trigger] out@[i]),
            forall|id: usize, k: u64|
                #[trigger] binds(self.shards(), id, k) ==> out@.contains(self.shards()[id][k]),
            exists|s: Seq<(u64, String)>|
                lists_each_once(self.shards(), s) && out@ == s.map_values(|e: (u64, String)| e.1),
    {
        let entries = self.iter();
        let mut out: Vec<String> = Vec::new();
        let mut i: usize = 0;
        while i < entries.len()
            invariant
                i <= entries@.len(),
                lists_entries(self.shards(), entries@),
                out@.len() == i,
                forall|j: int| 0 <= j < i ==> out@[j] == #[trigger] entries@[j].1,
            decreases entries@.len() - i,
        {
            out.push(entries[i].1.clone());
            i = i + 1;
        }
        assert forall|i: int| 0 <= i < out@.len() implies has_value(self.shards(), #[trigger] out@[i]) by {
            assert(has_entry(self.shards(), entries@[i].0, entries@[i].1));
            assert(out@[i] == entries@[i].1);
        }
        assert forall|id: usize, k: u64|
            #[trigger] binds(self.shards(), id, k) implies out@.contains(self.shards()[id][k]) by {
            let t = choose|t: int| 0 <= t < entries@.len() && entries@[t] == (k, self.shards()[id][k]);
            assert(out@[t] == entries@[t].1);
        }
        assert(out@ =~= entries@.map_values(|e: (u64, String)| e.1));
        out
    }

    /// Every entry of every shard, keys that several shards bind included.
    pub fn iter(&self) -> (out: Vec<(u64, String)>)
        ensures
            lists_entries(self.shards(), out@),
            lists_each_once(self.shards(), out@),
    {
        let ids = slab_keys(self.shards);
        let ghost sh = self.shards();
        let ghost mut src: Seq<usize> = Seq::empty();
        let mut out: Vec<(u64, String)> = Vec::new();
        let mut i: usize = 0;
        while i < ids.len()
            invariant
                sh == self.shards(),
                i <= ids@.len(),
                ids@.no_duplicates(),
                forall|j: int| 0 <= j < ids@.len() ==> sh.contains_key(#[trigger] ids@[j]),
                forall|id: usize| #[trigger] sh.contains_key(id) ==> ids@.contains(id),
                src.len() == out@.len(),
                forall|t: int|
                    0 <= t < out@.len() ==> binds(sh, #[trigger] src[t], out@[t].0)
                        && sh[src[t]][out@[t].0] == out@[t].1,
                forall|t: int| 0 <= t < out@.len() ==> ids@.subrange(0, i as int).contains(#[trigger] src[t]),
                forall|t: int, u: int|
                    0 <= t < u < out@.len() ==> !(#[trigger] src[t] == #[trigger] src[u] && out@[t].0
                        == out@[u].0),
                forall|j: int, k: u64|
                    0 <= j < i && #[trigger] binds(sh, ids@[j], k) ==> exists|t: int|
                        0 <= t < out@.len() && #[trigger] src[t] == ids@[j] && out@[t].0 == k,
            decreases ids@.len() - i,
        {
            let id = ids[i];
            let mut entries = shard_entries(slab_get(self.shards, id));
            let ghost before = out@;
            let ghost src0 = src;
            let ghost added = entries@;
            out.append(&mut entries);
            proof {
                src = src0 + Seq::new(added.len(), |_t: int| id);
                assert(ids@.subrange(0, i as int + 1) == ids@.subrange(0, i as int).push(id));
                assert forall|t: int|
                    0 <= t < out@.len() implies binds(sh, #[trigger] src[t], out@[t].0)
                    && sh[src[t]][out@[t].0] == out@[t].1 && ids@.subrange(0, i as int + 1).contains(src[t]) by {
                    if t >= before.len() {
                        assert(out@[t] == added[t - before.len()]);
                        assert(sh[id].contains_key(added[t - before.len()].0));
                        assert(ids@.subrange(0, i as int + 1)[i as int] == id);
                    } else {
                        assert(out@[t] == before[t]);
                        assert(src[t] == src0[t]);
                        let p = choose|p: int| 0 <= p < i && ids@.subrange(0, i as int)[p] == src0[t];
                        assert(ids@.subrange(0, i as int + 1)[p] == src0[t]);
                    }
                }
                assert forall|t: int, u: int|
                    0 <= t < u < out@.len() implies !(#[trigger] src[t] == #[trigger] src[u]
                    && out@[t].0 == out@[u].0) by {
                    if u >= before.len() && t >= before.len() {
                        assert(out@[t] == added[t - before.len()]);
                        assert(out@[u] == added[u - before.len()]);
                    } else if u >= before.len() {
                        assert(src[t] == src0[t]);
                        let p = choose|p: int| 0 <= p < i && ids@.subrange(0, i as int)[p] == src0[t];
                        assert(ids@[p] == src0[t]);
                        assert(ids@[i as int] == id);
                    } else {
                        assert(src[t] == src0[t] && src[u] == src0[u]);
                        assert(out@[t] == before[t] && out@[u] == before[u]);
                    }
                }
                assert forall|j: int, k: u64|
                    0 <= j < i + 1 && #[trigger] binds(sh, ids@[j], k) implies exists|t: int|
                    0 <= t < out@.len() && #[trigger] src[t] == ids@[j] && out@[t].0 == k by {
                    if j < i {
                        let t = choose|t: int| 0 <= t < before.len() && #[trigger] src0[t] == ids@[j] && before[t].0 == k;
                        assert(src[t] == src0[t] && out@[t] == before[t]);
                    } else {
                        assert(sh[id].contains_key(k));
                        let a = choose|a: int| 0 <= a < added.len() && added[a] == (k, sh[id][k]);
                        assert(out@[before.len() + a] == added[a]);
                        assert(src[before.len() + a] == id);
                    }
                }
            }
            i = i + 1;
        }
        proof {
            assert forall|id: usize, k: u64| #[trigger] binds(sh, id, k) implies exists|t: int|
                0 <= t < out@.len() && #[trigger] src[t] == id && out@[t].0 == k by {
                assert(ids@.contains(id));
                let j = choose|j: int| 0 <= j < ids@.len() && ids@[j] == id;
                assert(binds(sh, ids@[j], k));
            }
            assert(sourced(sh, out@, src));
            assert forall|t: int| 0 <= t < out@.len() implies has_entry(sh, #[trigger] out@[t].0, out@[t].1) by {
                assert(binds(sh, src[t], out@[t].0));
            }
            assert forall|id: usize, k: u64| #[trigger] binds(sh, id, k) implies out@.contains(
                (k, sh[id][k]),
            ) by {
                let t = choose|t: int| 0 <= t < out@.len() && #[trigger] src[t] == id && out@[t].0 == k;
                assert(out@[t] == (k, sh[id][k]));
            }
        }
        out
    }
}

} // verus!
