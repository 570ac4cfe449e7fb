use vstd::prelude::*;
use std::collections::HashMap;
use vstd::std_specs::iter::IteratorSpec;

verus! {

broadcast use vstd::std_specs::hash::group_hash_axioms;

/// An operation waiting in a writer's deferred queue.
pub enum Op {
    Insert(String),
    Remove,
}

/// The shard `m` after one operation on key `k`.
pub open spec fn apply_op(m: Map<u64, String>, k: u64, op: Op) -> Map<u64, String> {
    match op {
        Op::Insert(v) => m.insert(k, v),
        Op::Remove => m.remove(k),
    }
}

/// The shard `m` after draining the queue `q` into it: a key with a pending
/// insert is bound to its value, a key with a pending remove is absent, and
/// every other key keeps its binding in `m`.
pub open spec fn drained(m: Map<u64, String>, q: Map<u64, Op>) -> Map<u64, String> {
    Map::new(
        |k: u64|
            if q.contains_key(k) {
                q[k] is Insert
            } else {
                m.contains_key(k)
            },
        |k: u64|
            if q.contains_key(k) {
                q[k]->Insert_0
            } else {
                m[k]
            },
    )
}

/// Queuing an operation and draining afterwards does what the operation
/// would have done on the drained shard.
pub proof fn lemma_drained_insert(m: Map<u64, String>, q: Map<u64, Op>, k: u64, op: Op)
    ensures
        drained(m, q.insert(k, op)) == apply_op(drained(m, q), k, op),
{
    assert(drained(m, q.insert(k, op)) =~= apply_op(drained(m, q), k, op));
}

/// Draining an empty queue leaves the shard as it is.
pub proof fn lemma_drained_empty(m: Map<u64, String>)
    ensures
        drained(m, Map::empty()) == m,
{
    assert(drained(m, Map::empty()) =~= m);
}

/// Applies every operation of `q` to `shard`.
pub fn drain_into(q: &HashMap<u64, Op>, shard: &mut HashMap<u64, String>)
    ensures
        final(shard)@ == drained(old(shard)@, q@),
{
    let ghost m0 = shard@;
    let ghost mut seen: Set<u64> = Set::empty();
    let iter = q.iter();
    let ghost items = iter.remaining();
    proof {
        assert(drained(m0, q@.restrict(seen)) =~= m0);
        assert forall|j: int| 0 <= j < items.len() implies #[trigger] q@.contains_key(
            *items[j].0,
        ) && q@[*items[j].0] == *items[j].1 by {
            assert(q@.contains_key(*items[j].0));
        }
    }
    for e in it: iter
        invariant
            it.seq() == items,
            forall|j: int|
                0 <= j < items.len() ==> #[trigger] q@.contains_key(*items[j].0)
                    && q@[*items[j].0] == *items[j].1,
            forall|j: int| 0 <= j < it.index() ==> seen.contains(*#[trigger] items[j].0),
            forall|k: u64| #[trigger] seen.contains(k) ==> q@.contains_key(k),
            shard@ == drained(m0, q@.restrict(seen)),
    {
        let (k, op) = e;
        let ghost i = it.index();
        proof {
            assert(q@.contains_key(*items[i].0));
            assert(q@[*k] == *op);
        }
        match op {
            Op::Insert(v) => {
                shard.insert(*k, v.clone());
            },
            Op::Remove => {
                shard.remove(k);
            },
        }
        proof {
            lemma_drained_insert(m0, q@.restrict(seen), *k, *op);
            assert(q@.restrict(seen.insert(*k)) =~= q@.restrict(seen).insert(*k, *op));
            seen = seen.insert(*k);
        }
    }
    proof {
        assert forall|k: u64| q@.contains_key(k) implies seen.contains(k) by {
            assert(items.contains((&k, &q@[k])));
            let j = choose|j: int| 0 <= j < items.len() && items[j] == (&k, &q@[k]);
            assert(seen.contains(*items[j].0));
        }
        assert(q@.restrict(seen) =~= q@);
    }
}

/// Every binding of a shard, each once.
pub fn shard_entries(m: &HashMap<u64, String>) -> (out: Vec<(u64, String)>)
    ensures
        out@.len() == m@.len(),
        forall|i: int|
            0 <= i < out@.len() ==> #[trigger] m@.contains_key(out@[i].0) && m@[out@[i].0]
                == out@[i].1,
        forall|k: u64|
            #[trigger] m@.contains_key(k) ==> exists|i: int|
                0 <= i < out@.len() && out@[i] == (k, m@[k]),
        forall|i: int, j: int| 0 <= i < j < out@.len() ==> out@[i].0 != out@[j].0,
{
    let mut out: Vec<(u64, String)> = Vec::new();
    let iter = m.iter();
    let ghost items = iter.remaining();
    for e in it: iter
        invariant
            out@.len() == it.index(),
            it.seq() == items,
            forall|i: int|
                0 <= i < out@.len() ==> out@[i].0 == *items[i].0 && out@[i].1 == *items[i].1,
    {
        let (k, v) = e;
        out.push((*k, v.clone()));
    }
    assert forall|i: int| 0 <= i < out@.len() implies #[trigger] m@.contains_key(out@[i].0)
        && m@[out@[i].0] == out@[i].1 by {
        assert(m@.contains_key(*items[i].0));
    }
    assert forall|i: int, j: int| 0 <= i < j < out@.len() implies out@[i].0 != out@[j].0 by {
        assert(m@.contains_key(*items[i].0));
        assert(m@.contains_key(*items[j].0));
        if out@[i].0 == out@[j].0 {
            assert(items[i] == items[j]);
        }
    }
    out
}

} // verus!
