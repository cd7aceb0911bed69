//! What holds of the store whatever is done with it: ids only grow, audit
//! trails only grow and keep their shape, invalid memories are never found,
//! searches are repeatable, and finished tasks stay as they are.

use crate::clock::{lemma_later_bounds, Timestamp};
use crate::directory::lemma_put_all_named_fresh;
use crate::ledger::{
    distinct_pages, entries_of, group_keys_below, lemma_raised_over, lemma_with_entry_below,
    lemma_with_list, lemma_with_lists_fresh, with_entry, Page,
};
use crate::memory_engine::{
    added_entry, after_add_entity, after_add_memory, after_add_relationship, after_create_task,
    after_invalidate_memory, after_restore, after_task_action, after_update_memory, consistent,
    initial_state, invalidated, invalidated_entry, listing, new_entity, new_memory,
    new_relationship, patched, snapshot_of, stamp_after, task_refusal, updated_entry, EngineState,
};
use crate::persistence::{restorable, SnapshotView};
use crate::search::{
    blended, hits, hybrid_search, in_scope, is_candidate, keyword_search, lemma_hits_are_candidates,
    lemma_ranked, lifted, ranked, SearchRequestView,
};
use crate::table::{
    distinct_keys, found, keys_below, lemma_position, lemma_position_some, lemma_put_all_fresh,
    lemma_raised, position, HasKey,
};
use crate::tasks::{is_terminal, new_task, TaskAction};
use crate::types::{
    AddEntityRequestView, AddMemoryRequestView, AddRelationshipRequestView, CreateTaskRequestView,
    MemoryHistoryView, MemoryView, Operation, SearchResultView, UpdateMemoryRequestView,
};
use vstd::prelude::*;

verus! {

/// Ids are issued in strictly increasing order: a new memory, entity,
/// relationship or task gets an id above every id of its kind in the store,
/// and the next id of the kind lies above it.
pub proof fn lemma_issued_ids_increase(
    s: EngineState,
    memory: AddMemoryRequestView,
    entity: AddEntityRequestView,
    relationship: AddRelationshipRequestView,
    task: CreateTaskRequestView,
    now: Timestamp,
)
    requires
        consistent(s),
        s.next_memory_id < u64::MAX,
        s.next_entity_id < u64::MAX,
        s.next_relationship_id < u64::MAX,
        s.next_task_id < u64::MAX,
    ensures
        keys_below(s.memories, new_memory(s.next_memory_id, memory, now).id),
        new_memory(s.next_memory_id, memory, now).id < after_add_memory(
            s,
            memory,
            now,
        ).next_memory_id,
        keys_below(s.entities, new_entity(s.next_entity_id, entity, now).id),
        new_entity(s.next_entity_id, entity, now).id < after_add_entity(
            s,
            entity,
            now,
        ).next_entity_id,
        keys_below(
            s.relationships,
            new_relationship(s.next_relationship_id, relationship, now).id,
        ),
        new_relationship(s.next_relationship_id, relationship, now).id < after_add_relationship(
            s,
            relationship,
            now,
        ).next_relationship_id,
        keys_below(s.tasks, new_task(s.next_task_id, task, now).id),
        new_task(s.next_task_id, task, now).id < after_create_task(s, task, now).next_task_id,
{
}

/// The ids of audit entries and task events grow in the same way: an entry
/// gets the next id of its kind, which lies above every id of the kind in
/// the store.
pub proof fn lemma_entry_ids_increase(s: EngineState, k: u64, j: int)
    requires
        consistent(s),
    ensures
        0 <= j < entries_of(s.history, k).len() ==> entries_of(s.history, k)[j].id
            < s.next_history_id,
        0 <= j < entries_of(s.task_events, k).len() ==> entries_of(s.task_events, k)[j].id
            < s.next_task_event_id,
{
    if 0 <= j < entries_of(s.history, k).len() {
        assert(entries_of(s.history, k)[j].key() < s.next_history_id);
    }
    if 0 <= j < entries_of(s.task_events, k).len() {
        assert(entries_of(s.task_events, k)[j].key() < s.next_task_event_id);
    }
}

/// Changes of memories keep the store consistent: ids stay distinct and
/// below the next id of their kind.
pub proof fn lemma_memory_changes_keep_consistency(
    s: EngineState,
    add: AddMemoryRequestView,
    id: u64,
    patch: UpdateMemoryRequestView,
    reason: Seq<char>,
    who: Seq<char>,
    now: Timestamp,
)
    requires
        consistent(s),
        s.next_memory_id < u64::MAX,
        s.next_history_id < u64::MAX,
    ensures
        consistent(after_add_memory(s, add, now)),
        consistent(after_update_memory(s, id, patch, who, now)),
        consistent(after_invalidate_memory(s, id, reason, who, now)),
{
    let m = new_memory(s.next_memory_id, add, now);
    let e = added_entry(s.next_history_id, m, stamp_after(entries_of(s.history, m.id), now));
    lemma_with_entry_below(s.history, m.id, e, s.next_history_id);
    let a = after_add_memory(s, add, now);
    assert(distinct_keys(a.memories)) by {
        assert forall|i: int, j: int|
            0 <= i < a.memories.len() && 0 <= j < a.memories.len() && #[trigger] a.memories[i].key()
                == #[trigger] a.memories[j].key() implies i == j by {
            if i < s.memories.len() {
                assert(a.memories[i] == s.memories[i]);
            }
            if j < s.memories.len() {
                assert(a.memories[j] == s.memories[j]);
            }
        }
    }
    assert(keys_below(a.memories, a.next_memory_id)) by {
        assert forall|i: int| 0 <= i < a.memories.len() implies (#[trigger] a.memories[i]).key()
            < a.next_memory_id by {
            if i < s.memories.len() {
                assert(a.memories[i] == s.memories[i]);
            }
        }
    }
    lemma_position_some(s.memories, id);
    match position(s.memories, id) {
        Some(p) => {
            let stamp = stamp_after(entries_of(s.history, id), now);
            let u = patched(s.memories[p], patch, now);
            lemma_with_entry_below(
                s.history,
                id,
                updated_entry(s.next_history_id, s.memories[p], u, who, stamp),
                s.next_history_id,
            );
            let au = after_update_memory(s, id, patch, who, now);
            assert forall|i: int| 0 <= i < au.memories.len() implies (#[trigger] au.memories[i]).key()
                == s.memories[i].key() by {}
            assert(distinct_keys(au.memories)) by {
                assert forall|i: int, j: int|
                    0 <= i < au.memories.len() && 0 <= j < au.memories.len()
                        && #[trigger] au.memories[i].key() == #[trigger] au.memories[j].key() implies i
                    == j by {
                    assert(s.memories[i].key() == s.memories[j].key());
                }
            }
            let v = invalidated(s.memories[p], now);
            lemma_with_entry_below(
                s.history,
                id,
                invalidated_entry(s.next_history_id, v, reason, who, stamp),
                s.next_history_id,
            );
            let av = after_invalidate_memory(s, id, reason, who, now);
            assert forall|i: int| 0 <= i < av.memories.len() implies (#[trigger] av.memories[i]).key()
                == s.memories[i].key() by {}
            assert(distinct_keys(av.memories)) by {
                assert forall|i: int, j: int|
                    0 <= i < av.memories.len() && 0 <= j < av.memories.len()
                        && #[trigger] av.memories[i].key() == #[trigger] av.memories[j].key() implies i
                    == j by {
                    assert(s.memories[i].key() == s.memories[j].key());
                }
            }
        },
        None => {},
    }
}

/// After a snapshot is restored, the next id of each kind lies above every
/// id of the kind in the snapshot, and is not below what it was.
pub proof fn lemma_restore_raises_ids(s: EngineState, snap: SnapshotView)
    requires
        restorable(snap),
    ensures
        keys_below(snap.memories, after_restore(s, snap).next_memory_id),
        keys_below(snap.entities, after_restore(s, snap).next_entity_id),
        keys_below(snap.relationships, after_restore(s, snap).next_relationship_id),
        keys_below(snap.episodes, after_restore(s, snap).next_episode_id),
        keys_below(snap.tasks, after_restore(s, snap).next_task_id),
        group_keys_below(snap.history, after_restore(s, snap).next_history_id),
        group_keys_below(snap.task_events, after_restore(s, snap).next_task_event_id),
        s.next_memory_id <= after_restore(s, snap).next_memory_id,
        s.next_entity_id <= after_restore(s, snap).next_entity_id,
        s.next_relationship_id <= after_restore(s, snap).next_relationship_id,
        s.next_episode_id <= after_restore(s, snap).next_episode_id,
        s.next_task_id <= after_restore(s, snap).next_task_id,
        s.next_history_id <= after_restore(s, snap).next_history_id,
        s.next_task_event_id <= after_restore(s, snap).next_task_event_id,
{
    lemma_raised(s.next_memory_id, snap.memories);
    lemma_raised(s.next_entity_id, snap.entities);
    lemma_raised(s.next_relationship_id, snap.relationships);
    lemma_raised(s.next_episode_id, snap.episodes);
    lemma_raised(s.next_task_id, snap.tasks);
    lemma_raised_over(s.next_history_id, snap.history);
    lemma_raised_over(s.next_task_event_id, snap.task_events);
}

/// A snapshot brings everything back: restored into an empty store, the
/// snapshot of a consistent store gives the records, audit trails and task
/// events of that store, in their order.
pub proof fn lemma_snapshot_round_trip(s: EngineState, now: Timestamp)
    requires
        consistent(s),
    ensures
        after_restore(initial_state(), snapshot_of(s, now)).memories == s.memories,
        after_restore(initial_state(), snapshot_of(s, now)).history == s.history,
        after_restore(initial_state(), snapshot_of(s, now)).entities == s.entities,
        after_restore(initial_state(), snapshot_of(s, now)).relationships == s.relationships,
        after_restore(initial_state(), snapshot_of(s, now)).episodes == s.episodes,
        after_restore(initial_state(), snapshot_of(s, now)).agents == s.agents,
        after_restore(initial_state(), snapshot_of(s, now)).tasks == s.tasks,
        after_restore(initial_state(), snapshot_of(s, now)).task_events == s.task_events,
{
    lemma_put_all_fresh(s.memories);
    lemma_put_all_fresh(s.entities);
    lemma_put_all_fresh(s.relationships);
    lemma_put_all_fresh(s.episodes);
    lemma_put_all_fresh(s.tasks);
    lemma_put_all_named_fresh(s.agents);
    lemma_with_lists_fresh(s.history);
    lemma_with_lists_fresh(s.task_events);
}

/// `a` is the beginning of `b`.
pub open spec fn begins<T>(a: Seq<T>, b: Seq<T>) -> bool {
    a.len() <= b.len() && b.take(a.len() as int) == a
}

/// No entry is earlier than the entry before it.
pub open spec fn in_time_order(h: Seq<MemoryHistoryView>) -> bool {
    forall|j: int| 0 < j < h.len() ==> h[j - 1].timestamp.le(#[trigger] h[j].timestamp)
}

/// Adding, updating and invalidating a memory only add to audit trails:
/// whatever stood in the trail of any memory still stands there, at the
/// same place; and a trail whose entries were in the order of their times
/// still is.
pub proof fn lemma_history_append_only(
    s: EngineState,
    add: AddMemoryRequestView,
    id: u64,
    patch: UpdateMemoryRequestView,
    reason: Seq<char>,
    who: Seq<char>,
    now: Timestamp,
    k: u64,
)
    requires
        distinct_pages(s.history),
    ensures
        begins(entries_of(s.history, k), entries_of(after_add_memory(s, add, now).history, k)),
        begins(
            entries_of(s.history, k),
            entries_of(after_update_memory(s, id, patch, who, now).history, k),
        ),
        begins(
            entries_of(s.history, k),
            entries_of(after_invalidate_memory(s, id, reason, who, now).history, k),
        ),
        in_time_order(entries_of(s.history, k)) ==> in_time_order(
            entries_of(after_add_memory(s, add, now).history, k),
        ) && in_time_order(entries_of(after_update_memory(s, id, patch, who, now).history, k))
            && in_time_order(
            entries_of(after_invalidate_memory(s, id, reason, who, now).history, k),
        ),
{
    let m = new_memory(s.next_memory_id, add, now);
    lemma_grown_trail(
        s.history,
        m.id,
        added_entry(s.next_history_id, m, stamp_after(entries_of(s.history, m.id), now)),
        now,
        k,
    );
    match position(s.memories, id) {
        Some(i) => {
            let stamp = stamp_after(entries_of(s.history, id), now);
            let p = patched(s.memories[i], patch, now);
            lemma_grown_trail(
                s.history,
                id,
                updated_entry(s.next_history_id, s.memories[i], p, who, stamp),
                now,
                k,
            );
            let v = invalidated(s.memories[i], now);
            lemma_grown_trail(
                s.history,
                id,
                invalidated_entry(s.next_history_id, v, reason, who, stamp),
                now,
                k,
            );
        },
        None => {},
    }
    assert(entries_of(s.history, k).take(entries_of(s.history, k).len() as int) =~= entries_of(
        s.history,
        k,
    ));
}

/// Recording an entry stamped after the trail of its memory keeps every
/// trail's beginning and order.
pub proof fn lemma_grown_trail(
    pages: Seq<Page<MemoryHistoryView>>,
    key: u64,
    entry: MemoryHistoryView,
    now: Timestamp,
    k: u64,
)
    requires
        distinct_pages(pages),
        entry.timestamp == stamp_after(entries_of(pages, key), now),
    ensures
        begins(entries_of(pages, k), entries_of(with_entry(pages, key, entry), k)),
        in_time_order(entries_of(pages, k)) ==> in_time_order(
            entries_of(with_entry(pages, key, entry), k),
        ),
        entries_of(with_entry(pages, key, entry), key) == entries_of(pages, key).push(entry),
        k != key ==> entries_of(with_entry(pages, key, entry), k) == entries_of(pages, k),
{
    let old_list = entries_of(pages, key);
    let list = old_list.push(entry);
    lemma_with_list(pages, key, list);
    let after = with_entry(pages, key, entry);
    if k == key {
        assert(list.take(old_list.len() as int) =~= old_list);
        if in_time_order(old_list) {
            assert forall|j: int| 0 < j < list.len() implies list[j - 1].timestamp.le(
                #[trigger] list[j].timestamp,
            ) by {
                if j == old_list.len() {
                    lemma_later_bounds(now, old_list.last().timestamp, now);
                } else {
                    assert(list[j] == old_list[j]);
                    assert(list[j - 1] == old_list[j - 1]);
                }
            }
        }
    } else {
        assert(entries_of(after, k) == entries_of(pages, k));
        assert(entries_of(pages, k).take(entries_of(pages, k).len() as int) =~= entries_of(
            pages,
            k,
        ));
    }
}

/// The trail `h` has the shape of the trail of a memory that is invalid or
/// not: it begins with the one `add`, goes on with `update`s, and ends with
/// the one `invalidate` exactly if the memory is invalid.
pub open spec fn shaped(h: Seq<MemoryHistoryView>, invalid: bool) -> bool {
    &&& h.len() >= 1
    &&& h[0].operation == Operation::Add
    &&& forall|j: int|
        0 < j < h.len() ==> (#[trigger] h[j]).operation == (if invalid && j == h.len() - 1 {
            Operation::Invalidate
        } else {
            Operation::Update
        })
    &&& invalid ==> h.len() >= 2
}

/// The trail of every memory has the shape that fits the memory, and no
/// trail is kept for a memory that is yet to come.
pub open spec fn audited(s: EngineState) -> bool {
    &&& forall|i: int|
        0 <= i < s.memories.len() ==> shaped(
            entries_of(s.history, (#[trigger] s.memories[i]).id),
            s.memories[i].valid_until is Some,
        )
    &&& forall|k: u64| k >= s.next_memory_id ==> (#[trigger] entries_of(s.history, k)).len() == 0
}

/// The memory `id` is current, or there is no such memory.
pub open spec fn current_or_missing(s: EngineState, id: u64) -> bool {
    match found(s.memories, id) {
        Some(m) => m.valid_until is None,
        None => true,
    }
}

/// Audit trails keep their shape: in a store that begins empty, where
/// memories are added, and current memories are updated and invalidated,
/// the trail of every memory begins with exactly one `add`, goes on with
/// `update`s, and ends with one `invalidate` exactly if the memory is
/// invalid.
pub proof fn lemma_history_shape(
    s: EngineState,
    add: AddMemoryRequestView,
    id: u64,
    patch: UpdateMemoryRequestView,
    reason: Seq<char>,
    who: Seq<char>,
    now: Timestamp,
)
    requires
        consistent(s),
        audited(s),
        s.next_memory_id < u64::MAX,
    ensures
        audited(initial_state()),
        audited(after_add_memory(s, add, now)),
        current_or_missing(s, id) ==> audited(after_update_memory(s, id, patch, who, now)),
        current_or_missing(s, id) ==> audited(after_invalidate_memory(s, id, reason, who, now)),
{
    assert(audited(initial_state())) by {
        assert forall|k: u64| (#[trigger] entries_of(initial_state().history, k)).len() == 0 by {}
    }
    // Adding.
    {
        let m = new_memory(s.next_memory_id, add, now);
        let e = added_entry(s.next_history_id, m, stamp_after(entries_of(s.history, m.id), now));
        let after = after_add_memory(s, add, now);
        assert(entries_of(s.history, m.id).len() == 0);
        assert forall|i: int| 0 <= i < after.memories.len() implies shaped(
            entries_of(after.history, (#[trigger] after.memories[i]).id),
            after.memories[i].valid_until is Some,
        ) by {
            lemma_grown_trail(s.history, m.id, e, now, after.memories[i].id);
            if i < s.memories.len() {
                assert(after.memories[i] == s.memories[i]);
                assert(s.memories[i].key() < s.next_memory_id);
            } else {
                assert(entries_of(after.history, m.id) =~= seq![e]);
            }
        }
        assert forall|k: u64| k >= after.next_memory_id implies (#[trigger] entries_of(
            after.history,
            k,
        )).len() == 0 by {
            lemma_grown_trail(s.history, m.id, e, now, k);
            assert(entries_of(s.history, k).len() == 0);
        }
    }
    lemma_position_some(s.memories, id);
    match position(s.memories, id) {
        Some(p) => {
            if s.memories[p].valid_until is None {
                let stamp = stamp_after(entries_of(s.history, id), now);
                let before = entries_of(s.history, id);
                assert(shaped(before, false));
                // Updating.
                let u = patched(s.memories[p], patch, now);
                let ue = updated_entry(s.next_history_id, s.memories[p], u, who, stamp);
                let au = after_update_memory(s, id, patch, who, now);
                assert forall|i: int| 0 <= i < au.memories.len() implies shaped(
                    entries_of(au.history, (#[trigger] au.memories[i]).id),
                    au.memories[i].valid_until is Some,
                ) by {
                    lemma_grown_trail(s.history, id, ue, now, au.memories[i].id);
                    if i == p {
                        let h = before.push(ue);
                        assert forall|j: int| 0 < j < h.len() implies (#[trigger] h[j]).operation
                            == Operation::Update by {
                            if j < before.len() {
                                assert(h[j] == before[j]);
                            }
                        }
                        assert(h[0] == before[0]);
                    } else {
                        assert(au.memories[i] == s.memories[i]);
                        assert(s.memories[i].key() != s.memories[p].key());
                    }
                }
                assert forall|k: u64| k >= au.next_memory_id implies (#[trigger] entries_of(
                    au.history,
                    k,
                )).len() == 0 by {
                    lemma_grown_trail(s.history, id, ue, now, k);
                    assert(s.memories[p].key() < s.next_memory_id);
                    assert(entries_of(s.history, k).len() == 0);
                }
                // Invalidating.
                let v = invalidated(s.memories[p], now);
                let ve = invalidated_entry(s.next_history_id, v, reason, who, stamp);
                let av = after_invalidate_memory(s, id, reason, who, now);
                assert forall|i: int| 0 <= i < av.memories.len() implies shaped(
                    entries_of(av.history, (#[trigger] av.memories[i]).id),
                    av.memories[i].valid_until is Some,
                ) by {
                    lemma_grown_trail(s.history, id, ve, now, av.memories[i].id);
                    if i == p {
                        let h = before.push(ve);
                        assert forall|j: int| 0 < j < h.len() implies (#[trigger] h[j]).operation
                            == (if j == h.len() - 1 {
                            Operation::Invalidate
                        } else {
                            Operation::Update
                        }) by {
                            if j < before.len() {
                                assert(h[j] == before[j]);
                            }
                        }
                        assert(h[0] == before[0]);
                    } else {
                        assert(av.memories[i] == s.memories[i]);
                        assert(s.memories[i].key() != s.memories[p].key());
                    }
                }
                assert forall|k: u64| k >= av.next_memory_id implies (#[trigger] entries_of(
                    av.history,
                    k,
                )).len() == 0 by {
                    lemma_grown_trail(s.history, id, ve, now, k);
                    assert(s.memories[p].key() < s.next_memory_id);
                    assert(entries_of(s.history, k).len() == 0);
                }
            }
        },
        None => {},
    }
}

/// A search finds only current memories of the store: every result is the
/// hit of a memory that the store holds and whose validity has not ended.
pub proof fn lemma_search_finds_current(ms: Seq<MemoryView>, req: SearchRequestView, i: int)
    requires
        0 <= i < keyword_search(ms, req).len(),
    ensures
        keyword_search(ms, req)[i].memory.valid_until is None,
        ms.contains(keyword_search(ms, req)[i].memory),
        is_candidate(keyword_search(ms, req)[i].memory, req),
{
    broadcast use vstd::seq_lib::group_to_multiset_ensures;

    let all = hits(ms, req);
    let r = keyword_search(ms, req)[i];
    lemma_ranked(all);
    assert(ranked(all)[i] == r);
    assert(ranked(all).contains(r));
    assert(ranked(all).to_multiset().count(r) > 0);
    assert(all.contains(r));
    let k = choose|k: int| 0 <= k < all.len() && all[k] == r;
    lemma_hits_are_candidates(ms, req, k);
}

/// Whatever joins the results on similarity alone is a current memory of
/// the store, in the scope of the request.
pub proof fn lemma_lifted_members(
    acc: Seq<SearchResultView>,
    ms: Seq<MemoryView>,
    req: SearchRequestView,
    pairs: Seq<(u64, i64)>,
    r: SearchResultView,
)
    requires
        lifted(acc, ms, req, pairs).contains(r),
    ensures
        acc.contains(r) || (ms.contains(r.memory) && in_scope(r.memory, req)),
    decreases pairs.len(),
{
    if pairs.len() > 0 {
        let prev = lifted(acc, ms, req, pairs.drop_last());
        let all = lifted(acc, ms, req, pairs);
        let k = choose|k: int| 0 <= k < all.len() && all[k] == r;
        if k < prev.len() {
            assert(prev[k] == r);
            lemma_lifted_members(acc, ms, req, pairs.drop_last(), r);
        } else {
            let id = pairs.last().0;
            lemma_position_some(ms, id);
            let p = position(ms, id).unwrap();
            assert(ms[p] == r.memory);
        }
    }
}

/// A hybrid search, too, finds only current memories of the store, whatever
/// similarities it is given.
pub proof fn lemma_hybrid_finds_current(
    ms: Seq<MemoryView>,
    req: SearchRequestView,
    pairs: Seq<(u64, i64)>,
    i: int,
)
    requires
        0 <= i < hybrid_search(ms, req, pairs).len(),
    ensures
        hybrid_search(ms, req, pairs)[i].memory.valid_until is None,
        ms.contains(hybrid_search(ms, req, pairs)[i].memory),
{
    broadcast use vstd::seq_lib::group_to_multiset_ensures;

    let kw = keyword_search(ms, req);
    let mapped = kw.map_values(|r: SearchResultView| blended(r, pairs));
    let all = lifted(mapped, ms, req, pairs);
    let r = hybrid_search(ms, req, pairs)[i];
    lemma_ranked(all);
    assert(ranked(all)[i] == r);
    assert(ranked(all).contains(r));
    assert(ranked(all).to_multiset().count(r) > 0);
    assert(all.contains(r));
    lemma_lifted_members(mapped, ms, req, pairs, r);
    if mapped.contains(r) {
        let k = choose|k: int| 0 <= k < mapped.len() && mapped[k] == r;
        assert(mapped[k] == blended(kw[k], pairs));
        assert(r.memory == kw[k].memory);
        lemma_search_finds_current(ms, req, k);
    }
}

/// With no scope named and invalid memories asked for, a listing shows every
/// memory.
pub proof fn lemma_listing_all(ms: Seq<MemoryView>)
    ensures
        listing(ms, None, None, true) == ms,
    decreases ms.len(),
{
    if ms.len() > 0 {
        lemma_listing_all(ms.drop_last());
        assert(ms.drop_last().push(ms.last()) =~= ms);
    }
}

/// Validity reflects invalidation: once a memory is invalidated, no search
/// finds it, whatever is asked; a listing that asks for invalid memories
/// still shows it.
pub proof fn lemma_invalidated_is_hidden(
    s: EngineState,
    id: u64,
    reason: Seq<char>,
    who: Seq<char>,
    now: Timestamp,
    req: SearchRequestView,
    pairs: Seq<(u64, i64)>,
)
    requires
        distinct_keys(s.memories),
        found(s.memories, id) is Some,
    ensures
        forall|i: int|
            0 <= i < hybrid_search(
                after_invalidate_memory(s, id, reason, who, now).memories,
                req,
                pairs,
            ).len() ==> (#[trigger] hybrid_search(
                after_invalidate_memory(s, id, reason, who, now).memories,
                req,
                pairs,
            )[i]).memory.id != id,
        forall|i: int|
            0 <= i < keyword_search(
                after_invalidate_memory(s, id, reason, who, now).memories,
                req,
            ).len() ==> (#[trigger] keyword_search(
                after_invalidate_memory(s, id, reason, who, now).memories,
                req,
            )[i]).memory.id != id,
        listing(
            after_invalidate_memory(s, id, reason, who, now).memories,
            None,
            None,
            true,
        ).contains(invalidated(found(s.memories, id).unwrap(), now)),
{
    let after = after_invalidate_memory(s, id, reason, who, now).memories;
    lemma_position_some(s.memories, id);
    let p = position(s.memories, id).unwrap();
    let gone = invalidated(s.memories[p], now);
    assert(after[p] == gone);
    assert forall|i: int| 0 <= i < keyword_search(after, req).len() implies (
    #[trigger] keyword_search(after, req)[i]).memory.id != id by {
        lemma_search_finds_current(after, req, i);
        let m = keyword_search(after, req)[i].memory;
        let k = choose|k: int| 0 <= k < after.len() && after[k] == m;
        if m.id == id {
            if k != p {
                assert(after[k] == s.memories[k]);
                assert(s.memories[k].key() == s.memories[p].key());
            }
        }
    }
    assert forall|i: int| 0 <= i < hybrid_search(after, req, pairs).len() implies (
    #[trigger] hybrid_search(after, req, pairs)[i]).memory.id != id by {
        lemma_hybrid_finds_current(after, req, pairs, i);
        let m = hybrid_search(after, req, pairs)[i].memory;
        let k = choose|k: int| 0 <= k < after.len() && after[k] == m;
        if m.id == id {
            if k != p {
                assert(after[k] == s.memories[k]);
                assert(s.memories[k].key() == s.memories[p].key());
            }
        }
    }
    lemma_listing_all(after);
}

/// Searches are repeatable: two searches with the same request over the same
/// memories give the same results in the same order.
pub proof fn lemma_search_is_repeatable(
    ms: Seq<MemoryView>,
    req: SearchRequestView,
    first: Seq<SearchResultView>,
    second: Seq<SearchResultView>,
)
    requires
        first == keyword_search(ms, req),
        second == keyword_search(ms, req),
    ensures
        first == second,
{
}

/// One call of a task action.
pub struct TaskCall {
    pub id: u64,
    pub action: TaskAction,
    pub agent: Seq<char>,
    pub text: Seq<char>,
    pub now: Timestamp,
}

/// The state after a sequence of task actions.
pub open spec fn after_calls(s: EngineState, calls: Seq<TaskCall>) -> EngineState
    decreases calls.len(),
{
    if calls.len() == 0 {
        s
    } else {
        let c = calls.last();
        after_task_action(after_calls(s, calls.drop_last()), c.id, c.action, c.agent, c.text, c.now)
    }
}

/// A call that is refused changes nothing: neither the task, nor its event
/// log, nor anything else in the store.
pub proof fn lemma_refused_changes_nothing(s: EngineState, c: TaskCall)
    requires
        task_refusal(s, c.id, c.action, c.agent) is Some,
    ensures
        after_task_action(s, c.id, c.action, c.agent, c.text, c.now) == s,
{
}

/// No sequence of task actions moves a task out of a finished state: a task
/// that is completed, failed or cancelled is the same task after any calls.
pub proof fn lemma_finished_tasks_stay(s: EngineState, calls: Seq<TaskCall>, id: u64)
    requires
        distinct_keys(s.tasks),
        found(s.tasks, id) is Some,
        is_terminal(found(s.tasks, id).unwrap().status),
    ensures
        distinct_keys(after_calls(s, calls).tasks),
        found(after_calls(s, calls).tasks, id) == found(s.tasks, id),
    decreases calls.len(),
{
    if calls.len() > 0 {
        let c = calls.last();
        let mid = after_calls(s, calls.drop_last());
        lemma_finished_tasks_stay(s, calls.drop_last(), id);
        let end = after_task_action(mid, c.id, c.action, c.agent, c.text, c.now);
        lemma_position_some(mid.tasks, id);
        lemma_position_some(mid.tasks, c.id);
        let p = position(mid.tasks, id).unwrap();
        if task_refusal(mid, c.id, c.action, c.agent) is None {
            let q = position(mid.tasks, c.id).unwrap();
            assert(q != p);
            assert(end.tasks[p] == mid.tasks[p]);
            assert forall|i: int, j: int|
                0 <= i < end.tasks.len() && 0 <= j < end.tasks.len() && #[trigger] end.tasks[i].key()
                    == #[trigger] end.tasks[j].key() implies i == j by {
                assert(end.tasks[i].key() == mid.tasks[i].key());
                assert(end.tasks[j].key() == mid.tasks[j].key());
            }
            lemma_position(end.tasks, id, p);
        }
    }
}

} // verus!
