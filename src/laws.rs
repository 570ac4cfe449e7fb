use vstd::prelude::*;
use crate::reader::{binds, has_entry, has_key, lists_each_once, lists_entries, sourced};
use crate::shard::{apply_op, drained, lemma_drained_empty, lemma_drained_insert, Op};

verus! {

/// The queue `q` after the operations `ops` were queued in order.
pub open spec fn queue_all(q: Map<u64, Op>, ops: Seq<(u64, Op)>) -> Map<u64, Op>
    decreases ops.len(),
{
    if ops.len() == 0 {
        q
    } else {
        queue_all(q, ops.drop_last()).insert(ops.last().0, ops.last().1)
    }
}

/// The shard `m` after the operations `ops` were applied in order.
pub open spec fn apply_all(m: Map<u64, String>, ops: Seq<(u64, Op)>) -> Map<u64, String>
    decreases ops.len(),
{
    if ops.len() == 0 {
        m
    } else {
        apply_op(apply_all(m, ops.drop_last()), ops.last().0, ops.last().1)
    }
}

/// Inserts of the values `vs`, in order, all under the key `k`.
pub open spec fn inserts_of(k: u64, vs: Seq<String>) -> Seq<(u64, Op)> {
    vs.map_values(|v: String| (k, Op::Insert(v)))
}

/// Operations that wait in the queue and are merged later leave the shard
/// as applying them in call order to the merged shard would.
pub proof fn lemma_merge_applies_in_order(m: Map<u64, String>, q: Map<u64, Op>, ops: Seq<(u64, Op)>)
    ensures
        drained(m, queue_all(q, ops)) == apply_all(drained(m, q), ops),
    decreases ops.len(),
{
    if ops.len() > 0 {
        lemma_merge_applies_in_order(m, q, ops.drop_last());
        lemma_drained_insert(m, queue_all(q, ops.drop_last()), ops.last().0, ops.last().1);
    }
}

/// A writer's calls, each taking either path, change its merged view as
/// applying their operations in call order would: `views[i]` is the merged
/// view before call `i`, and `views.last()` the one after the last call.
pub proof fn lemma_calls_apply_in_order(views: Seq<Map<u64, String>>, ops: Seq<(u64, Op)>)
    requires
        views.len() == ops.len() + 1,
        forall|i: int|
            0 <= i < ops.len() ==> views[i + 1] == apply_op(views[i], #[trigger] ops[i].0, ops[i].1),
    ensures
        views.last() == apply_all(views[0], ops),
    decreases ops.len(),
{
    if ops.len() > 0 {
        let n = ops.len() - 1;
        assert forall|i: int| 0 <= i < ops.drop_last().len() implies views.drop_last()[i + 1] == apply_op(
            views.drop_last()[i],
            #[trigger] ops.drop_last()[i].0,
            ops.drop_last()[i].1,
        ) by {
            assert(ops.drop_last()[i] == ops[i]);
            assert(views[i + 1] == apply_op(views[i], ops[i].0, ops[i].1));
        }
        lemma_calls_apply_in_order(views.drop_last(), ops.drop_last());
        assert(views[n + 1] == apply_op(views[n], ops[n].0, ops[n].1));
    }
}

/// Merging twice merges once: after a merge the queue is empty, and
/// merging an empty queue changes nothing.
pub proof fn lemma_sync_idempotent(m: Map<u64, String>, q: Map<u64, Op>)
    ensures
        drained(drained(m, q), Map::empty()) == drained(m, q),
{
    lemma_drained_empty(drained(m, q));
}

/// Inserts of one key that all wait in the queue merge into the last
/// value alone.
pub proof fn lemma_queue_collapses(m: Map<u64, String>, q: Map<u64, Op>, k: u64, vs: Seq<String>)
    requires
        vs.len() > 0,
    ensures
        drained(m, queue_all(q, inserts_of(k, vs))) == drained(m, q).insert(k, vs.last()),
    decreases vs.len(),
{
    let ops = inserts_of(k, vs);
    assert(ops.drop_last() =~= inserts_of(k, vs.drop_last()));
    lemma_drained_insert(m, queue_all(q, ops.drop_last()), k, Op::Insert(vs.last()));
    if vs.len() > 1 {
        lemma_queue_collapses(m, q, k, vs.drop_last());
        assert(drained(m, q).insert(k, vs.drop_last().last()).insert(k, vs.last()) =~= drained(
            m,
            q,
        ).insert(k, vs.last()));
    } else {
        assert(ops.drop_last().len() == 0);
    }
}

/// Inserts of one key applied in call order leave the last value alone,
/// whichever path each call took.
pub proof fn lemma_inserts_keep_last(m: Map<u64, String>, k: u64, vs: Seq<String>)
    requires
        vs.len() > 0,
    ensures
        apply_all(m, inserts_of(k, vs)) == m.insert(k, vs.last()),
    decreases vs.len(),
{
    let ops = inserts_of(k, vs);
    assert(ops.drop_last() =~= inserts_of(k, vs.drop_last()));
    assert(ops.len() == vs.len() && ops.last() == (k, Op::Insert(vs.last())));
    assert(apply_all(m, ops) == apply_op(apply_all(m, ops.drop_last()), k, Op::Insert(vs.last())));
    if vs.len() > 1 {
        lemma_inserts_keep_last(m, k, vs.drop_last());
        assert(m.insert(k, vs.drop_last().last()).insert(k, vs.last()) =~= m.insert(k, vs.last()));
    } else {
        assert(ops.drop_last().len() == 0);
    }
}

/// A queued insert followed by a queued remove of the same key merges into
/// the key's absence.
pub proof fn lemma_insert_then_remove(m: Map<u64, String>, q: Map<u64, Op>, k: u64, v: String)
    ensures
        drained(m, q.insert(k, Op::Insert(v)).insert(k, Op::Remove)) == drained(m, q).remove(k),
        !drained(m, q.insert(k, Op::Insert(v)).insert(k, Op::Remove)).contains_key(k),
{
    assert(drained(m, q.insert(k, Op::Insert(v)).insert(k, Op::Remove)) =~= drained(m, q).remove(k));
}

/// A queued remove followed by a queued insert of the same key merges into
/// the inserted binding.
pub proof fn lemma_remove_then_insert(m: Map<u64, String>, q: Map<u64, Op>, k: u64, v: String)
    ensures
        drained(m, q.insert(k, Op::Remove).insert(k, Op::Insert(v))) == drained(m, q).insert(k, v),
{
    assert(drained(m, q.insert(k, Op::Remove).insert(k, Op::Insert(v))) =~= drained(m, q).insert(
        k,
        v,
    ));
}

/// A snapshot reports a key exactly when its listing holds an entry with
/// that key.
pub proof fn lemma_contains_key_iff_listed(
    shards: Map<usize, Map<u64, String>>,
    s: Seq<(u64, String)>,
    k: u64,
)
    requires
        lists_entries(shards, s),
    ensures
        has_key(shards, k) <==> exists|i: int| 0 <= i < s.len() && #[trigger] s[i].0 == k,
{
    if has_key(shards, k) {
        let id = choose|id: usize| binds(shards, id, k);
        assert(s.contains((k, shards[id][k])));
        let i = choose|i: int| 0 <= i < s.len() && s[i] == (k, shards[id][k]);
        assert(s[i].0 == k);
    }
    if exists|i: int| 0 <= i < s.len() && #[trigger] s[i].0 == k {
        let i = choose|i: int| 0 <= i < s.len() && #[trigger] s[i].0 == k;
        assert(has_entry(shards, s[i].0, s[i].1));
    }
}

/// A shard other than shard `id` binds `k` to `v`.
pub open spec fn entry_elsewhere(shards: Map<usize, Map<u64, String>>, id: usize, k: u64, v: String) -> bool {
    exists|o: usize| o != id && binds(shards, o, k) && shards[o][k] == v
}

/// Once a writer's shard is gone, every entry of a snapshot comes from
/// another writer's shard.
pub proof fn lemma_closed_shard_unlisted(
    shards: Map<usize, Map<u64, String>>,
    id: usize,
    s: Seq<(u64, String)>,
)
    requires
        lists_entries(shards.remove(id), s),
    ensures
        forall|i: int| 0 <= i < s.len() ==> entry_elsewhere(shards, id, #[trigger] s[i].0, s[i].1),
{
    assert forall|i: int| 0 <= i < s.len() implies entry_elsewhere(shards, id, #[trigger] s[i].0, s[i].1) by {
        assert(has_entry(shards.remove(id), s[i].0, s[i].1));
        let o = choose|o: usize| binds(shards.remove(id), o, s[i].0) && shards.remove(id)[o][s[i].0] == s[i].1;
        assert(o != id && binds(shards, o, s[i].0));
    }
}

/// With no writers, a snapshot lists nothing.
pub proof fn lemma_no_writers_no_entries(shards: Map<usize, Map<u64, String>>, s: Seq<(u64, String)>)
    requires
        shards.dom().is_empty(),
        lists_entries(shards, s),
    ensures
        s.len() == 0,
{
    if s.len() > 0 {
        assert(has_entry(shards, s[0].0, s[0].1));
        let id = choose|id: usize| binds(shards, id, s[0].0) && shards[id][s[0].0] == s[0].1;
        assert(shards.dom().contains(id));
    }
}

/// Adding a writer's empty shard and removing it again leaves the registry
/// as it was.
pub proof fn lemma_writer_round_trip(shards: Map<usize, Map<u64, String>>, id: usize)
    requires
        !shards.contains_key(id),
    ensures
        shards.insert(id, Map::empty()).remove(id) == shards,
{
    assert(shards.insert(id, Map::empty()).remove(id) =~= shards);
}

/// Two writers that bind one key to different values give a snapshot two
/// entries with that key.
pub proof fn lemma_same_key_two_writers(
    shards: Map<usize, Map<u64, String>>,
    s: Seq<(u64, String)>,
    a: usize,
    b: usize,
    k: u64,
)
    requires
        lists_entries(shards, s),
        binds(shards, a, k),
        binds(shards, b, k),
        shards[a][k] != shards[b][k],
    ensures
        exists|i: int, j: int|
            0 <= i < s.len() && 0 <= j < s.len() && i != j && #[trigger] s[i] == (k, shards[a][k])
                && #[trigger] s[j] == (k, shards[b][k]),
{
    assert(s.contains((k, shards[a][k])));
    assert(s.contains((k, shards[b][k])));
    let i = choose|i: int| 0 <= i < s.len() && s[i] == (k, shards[a][k]);
    let j = choose|j: int| 0 <= j < s.len() && s[j] == (k, shards[b][k]);
    assert(s[i] == (k, shards[a][k]) && s[j] == (k, shards[b][k]));
}

/// The index at which a listing that lists each binding once holds the
/// binding of `k` in shard `id`.
pub open spec fn entry_index(
    shards: Map<usize, Map<u64, String>>,
    s: Seq<(u64, String)>,
    id: usize,
    k: u64,
) -> int {
    let src = choose|src: Seq<usize>| sourced(shards, s, src);
    choose|i: int| 0 <= i < s.len() && #[trigger] src[i] == id && s[i].0 == k
}

/// A snapshot's listing holds one entry for each binding of each shard:
/// each binding stands at its own index, and no two bindings share one.
pub proof fn lemma_one_entry_per_binding(shards: Map<usize, Map<u64, String>>, s: Seq<(u64, String)>)
    requires
        lists_each_once(shards, s),
    ensures
        forall|id: usize, k: u64|
            #[trigger] binds(shards, id, k) ==> 0 <= entry_index(shards, s, id, k) < s.len()
                && s[entry_index(shards, s, id, k)] == (k, shards[id][k]),
        forall|a: usize, ka: u64, b: usize, kb: u64|
            binds(shards, a, ka) && binds(shards, b, kb) && (a, ka) != (b, kb) ==> #[trigger] entry_index(
                shards,
                s,
                a,
                ka,
            ) != #[trigger] entry_index(shards, s, b, kb),
{
    let src = choose|src: Seq<usize>| sourced(shards, s, src);
    assert forall|id: usize, k: u64| #[trigger] binds(shards, id, k) implies 0 <= entry_index(shards, s, id, k)
        < s.len() && s[entry_index(shards, s, id, k)] == (k, shards[id][k]) && src[entry_index(
        shards,
        s,
        id,
        k,
    )] == id by {
        let i = entry_index(shards, s, id, k);
        assert(binds(shards, src[i], s[i].0));
    }
    assert forall|a: usize, ka: u64, b: usize, kb: u64|
        binds(shards, a, ka) && binds(shards, b, kb) && (a, ka) != (b, kb) implies #[trigger] entry_index(
        shards,
        s,
        a,
        ka,
    ) != #[trigger] entry_index(shards, s, b, kb) by {
        assert(binds(shards, a, ka));
        assert(binds(shards, b, kb));
    }
}

} // verus!
