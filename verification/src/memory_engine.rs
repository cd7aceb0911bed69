//! The engine: the record store with its audit trail, search, the knowledge
//! graph, agents, tasks and the outbound replication queue.

use crate::clock::{later, now, Timestamp};
use crate::config::HiveMindConfig;
use crate::directory::{
    distinct_names, lemma_put_named_keeps_distinct, lemma_views_position_of_name,
    lemma_views_put_named, position_of_name, put_all_named, put_named, Directory, HasName,
};
use crate::graph::{
    incident, is_live, lemma_within_fixpoint, lemma_within_grows, linked, other_end, touches,
    within,
};
use crate::ledger::{
    distinct_pages, entries_of, entry_keys_below, lemma_page_views, lemma_page_views_with_entry,
    lemma_with_entry_below, page_views, raised_over, with_entry, with_lists, Ledger, Page,
};
use crate::persistence::{
    restorable, ReplicationEvent, ReplicationEventView, Snapshot, SnapshotView,
};
use crate::search::{hybrid_search, hybrid_search_table, keyword_search, search_table};
use crate::table::{
    distinct_keys, found, has_key, keys_below, lemma_position, lemma_position_some,
    lemma_put_keeps_distinct, lemma_views_position, lemma_views_put, position, put_all, raised,
    HasKey, Table,
};
use crate::tasks::{
    action_event, advance, advanced, create_task, created_event, creation_event, event_for,
    new_task, refusal, TaskAction, TaskError,
};
use crate::text::{copy_opt_text, copy_texts, lowercase, opt_text, same_text, to_lower};
use crate::types::{
    lemma_views_push, views, AddEntityRequest, AddEntityRequestView, AddMemoryRequest,
    AddMemoryRequestView, AddRelationshipRequest, AddRelationshipRequestView, Agent, AgentStatus,
    AgentView, CreateTaskRequest, CreateTaskRequestView, Entity, EntityView, Episode, EpisodeView,
    Memory, MemoryHistory, MemoryHistoryView, MemoryView, Operation, RegisterAgentRequest,
    RegisterAgentRequestView, Relationship, RelationshipView, SearchRequest, SearchResult, Task,
    TaskEvent, TaskEventView, TaskStatus, TaskView, UpdateMemoryRequest, UpdateMemoryRequestView,
    MILLION,
};
use vstd::prelude::*;
use vstd::string::*;

verus! {

/// What the engine holds, as plain values.
pub struct EngineState {
    pub memories: Seq<MemoryView>,
    pub history: Seq<Page<MemoryHistoryView>>,
    pub entities: Seq<EntityView>,
    pub relationships: Seq<RelationshipView>,
    pub episodes: Seq<EpisodeView>,
    pub agents: Seq<AgentView>,
    pub tasks: Seq<TaskView>,
    pub task_events: Seq<Page<TaskEventView>>,
    pub next_memory_id: u64,
    pub next_entity_id: u64,
    pub next_relationship_id: u64,
    pub next_episode_id: u64,
    pub next_history_id: u64,
    pub next_task_id: u64,
    pub next_task_event_id: u64,
    pub replication: bool,
    pub outbox: Seq<ReplicationEventView>,
}

/// Records of a kind have distinct ids, all below the next id of the kind.
pub open spec fn consistent(s: EngineState) -> bool {
    &&& distinct_keys(s.memories) && keys_below(s.memories, s.next_memory_id)
    &&& distinct_keys(s.entities) && keys_below(s.entities, s.next_entity_id)
    &&& distinct_keys(s.relationships) && keys_below(s.relationships, s.next_relationship_id)
    &&& distinct_keys(s.episodes) && keys_below(s.episodes, s.next_episode_id)
    &&& distinct_keys(s.tasks) && keys_below(s.tasks, s.next_task_id)
    &&& distinct_names(s.agents)
    &&& distinct_pages(s.history) && entry_keys_below(s.history, s.next_history_id)
    &&& distinct_pages(s.task_events) && entry_keys_below(s.task_events, s.next_task_event_id)
}

/// The view of an optional record.
pub open spec fn opt_view<T: View>(o: Option<T>) -> Option<T::V> {
    match o {
        Some(x) => Some(x@),
        None => None,
    }
}

/// The view of an optional string slice.
pub open spec fn opt_str(o: Option<&str>) -> Option<Seq<char>> {
    match o {
        Some(s) => Some(s@),
        None => None,
    }
}

/// The outbound queue after `ev` is emitted: it grows by `ev` where
/// replication is on, and stays as it is where it is off.
pub open spec fn emitted(s: EngineState, ev: ReplicationEventView) -> Seq<ReplicationEventView> {
    if s.replication {
        s.outbox.push(ev)
    } else {
        s.outbox
    }
}

/// The time an audit entry gets: `now`, or the time of the newest entry
/// where that is later, so that entries never run backwards.
pub open spec fn stamp_after(entries: Seq<MemoryHistoryView>, now: Timestamp) -> Timestamp {
    if entries.len() == 0 {
        now
    } else {
        later(now, entries.last().timestamp)
    }
}

/// The source of a memory: the agent that added it, or "unknown".
pub open spec fn source_of(agent: Option<Seq<char>>) -> Seq<char> {
    match agent {
        Some(a) => a,
        None => "unknown"@,
    }
}

/// The memory that a request creates under `id` at time `now`.
pub open spec fn new_memory(id: u64, req: AddMemoryRequestView, now: Timestamp) -> MemoryView {
    MemoryView {
        id,
        content: req.content,
        memory_type: req.memory_type,
        agent_id: req.agent_id,
        user_id: req.user_id,
        session_id: req.session_id,
        confidence: MILLION,
        tags: req.tags,
        created_at: now,
        updated_at: now,
        valid_from: now,
        valid_until: None,
        source: source_of(req.agent_id),
        metadata: req.metadata,
    }
}

/// The audit entry of a memory's creation.
pub open spec fn added_entry(id: u64, m: MemoryView, stamp: Timestamp) -> MemoryHistoryView {
    MemoryHistoryView {
        id,
        memory_id: m.id,
        operation: Operation::Add,
        old_content: None,
        new_content: m.content,
        reason: "Initial creation"@,
        changed_by: m.source,
        timestamp: stamp,
    }
}

/// The state after a memory is added.
pub open spec fn after_add_memory(s: EngineState, req: AddMemoryRequestView, now: Timestamp) -> EngineState {
    let m = new_memory(s.next_memory_id, req, now);
    let stamp = stamp_after(entries_of(s.history, m.id), now);
    EngineState {
        memories: s.memories.push(m),
        history: with_entry(s.history, m.id, added_entry(s.next_history_id, m, stamp)),
        next_memory_id: (s.next_memory_id + 1) as u64,
        next_history_id: (s.next_history_id + 1) as u64,
        outbox: emitted(s, ReplicationEventView::MemoryAdded { memory: m }),
        ..s
    }
}

/// A confidence, held to at most one.
pub open spec fn clamped(confidence: u32) -> u32 {
    if confidence > MILLION {
        MILLION
    } else {
        confidence
    }
}

/// The memory after a patch: each field that the patch names is replaced.
pub open spec fn patched(m: MemoryView, req: UpdateMemoryRequestView, now: Timestamp) -> MemoryView {
    MemoryView {
        content: match req.content {
            Some(c) => c,
            None => m.content,
        },
        tags: match req.tags {
            Some(t) => t,
            None => m.tags,
        },
        confidence: match req.confidence {
            Some(c) => clamped(c),
            None => m.confidence,
        },
        metadata: match req.metadata {
            Some(d) => d,
            None => m.metadata,
        },
        updated_at: now,
        ..m
    }
}

/// The audit entry of an update from `before` to `after`.
pub open spec fn updated_entry(
    id: u64,
    before: MemoryView,
    after: MemoryView,
    changed_by: Seq<char>,
    stamp: Timestamp,
) -> MemoryHistoryView {
    MemoryHistoryView {
        id,
        memory_id: before.id,
        operation: Operation::Update,
        old_content: Some(before.content),
        new_content: after.content,
        reason: "Manual update"@,
        changed_by,
        timestamp: stamp,
    }
}

/// The state after the memory `id` is patched; the state itself where no
/// memory has that id.
pub open spec fn after_update_memory(
    s: EngineState,
    id: u64,
    req: UpdateMemoryRequestView,
    changed_by: Seq<char>,
    now: Timestamp,
) -> EngineState {
    match position(s.memories, id) {
        None => s,
        Some(i) => {
            let m = patched(s.memories[i], req, now);
            let stamp = stamp_after(entries_of(s.history, id), now);
            EngineState {
                memories: s.memories.update(i, m),
                history: with_entry(
                    s.history,
                    id,
                    updated_entry(s.next_history_id, s.memories[i], m, changed_by, stamp),
                ),
                next_history_id: (s.next_history_id + 1) as u64,
                outbox: emitted(s, ReplicationEventView::MemoryUpdated { memory: m }),
                ..s
            }
        },
    }
}

/// The memory after it is invalidated at `now`: its validity ends then, or
/// at its start where the clock reads earlier than that.
pub open spec fn invalidated(m: MemoryView, now: Timestamp) -> MemoryView {
    MemoryView { valid_until: Some(later(now, m.valid_from)), updated_at: now, ..m }
}

/// The audit entry of an invalidation.
pub open spec fn invalidated_entry(
    id: u64,
    m: MemoryView,
    reason: Seq<char>,
    changed_by: Seq<char>,
    stamp: Timestamp,
) -> MemoryHistoryView {
    MemoryHistoryView {
        id,
        memory_id: m.id,
        operation: Operation::Invalidate,
        old_content: Some(m.content),
        new_content: m.content,
        reason,
        changed_by,
        timestamp: stamp,
    }
}

/// The state after the memory `id` is invalidated; the state itself where no
/// memory has that id.
pub open spec fn after_invalidate_memory(
    s: EngineState,
    id: u64,
    reason: Seq<char>,
    changed_by: Seq<char>,
    now: Timestamp,
) -> EngineState {
    match position(s.memories, id) {
        None => s,
        Some(i) => {
            let m = invalidated(s.memories[i], now);
            let stamp = stamp_after(entries_of(s.history, id), now);
            EngineState {
                memories: s.memories.update(i, m),
                history: with_entry(
                    s.history,
                    id,
                    invalidated_entry(s.next_history_id, m, reason, changed_by, stamp),
                ),
                next_history_id: (s.next_history_id + 1) as u64,
                outbox: emitted(
                    s,
                    ReplicationEventView::MemoryInvalidated { memory_id: id, reason },
                ),
                ..s
            }
        },
    }
}

/// Whether a listing shows the memory: it is current or invalidated ones are
/// asked for, and it belongs to each scope that is named.
pub open spec fn listed(
    m: MemoryView,
    agent: Option<Seq<char>>,
    user: Option<Seq<char>>,
    include_invalidated: bool,
) -> bool {
    &&& include_invalidated || m.valid_until is None
    &&& agent is Some ==> m.agent_id == agent
    &&& user is Some ==> m.user_id == user
}

/// The memories that a listing shows, in the order of the store.
pub open spec fn listing(
    ms: Seq<MemoryView>,
    agent: Option<Seq<char>>,
    user: Option<Seq<char>>,
    include_invalidated: bool,
) -> Seq<MemoryView>
    decreases ms.len(),
{
    if ms.len() == 0 {
        Seq::empty()
    } else {
        let rest = listing(ms.drop_last(), agent, user, include_invalidated);
        if listed(ms.last(), agent, user, include_invalidated) {
            rest.push(ms.last())
        } else {
            rest
        }
    }
}

/// The entity that a request creates under `id` at time `now`.
pub open spec fn new_entity(id: u64, req: AddEntityRequestView, now: Timestamp) -> EntityView {
    EntityView {
        id,
        name: req.name,
        entity_type: req.entity_type,
        description: req.description,
        agent_id: req.agent_id,
        created_at: now,
        updated_at: now,
        metadata: req.metadata,
    }
}

/// The state after an entity is added.
pub open spec fn after_add_entity(s: EngineState, req: AddEntityRequestView, now: Timestamp) -> EngineState {
    let e = new_entity(s.next_entity_id, req, now);
    EngineState {
        entities: s.entities.push(e),
        next_entity_id: (s.next_entity_id + 1) as u64,
        outbox: emitted(s, ReplicationEventView::EntityAdded { entity: e }),
        ..s
    }
}

/// The relationship that a request creates under `id` at time `now`.
pub open spec fn new_relationship(id: u64, req: AddRelationshipRequestView, now: Timestamp) -> RelationshipView {
    RelationshipView {
        id,
        source_entity_id: req.source_entity_id,
        target_entity_id: req.target_entity_id,
        relation_type: req.relation_type,
        description: req.description,
        weight: req.weight,
        valid_from: now,
        valid_until: None,
        created_by: req.created_by,
        metadata: req.metadata,
    }
}

/// The state after a relationship is added.
pub open spec fn after_add_relationship(
    s: EngineState,
    req: AddRelationshipRequestView,
    now: Timestamp,
) -> EngineState {
    let r = new_relationship(s.next_relationship_id, req, now);
    EngineState {
        relationships: s.relationships.push(r),
        next_relationship_id: (s.next_relationship_id + 1) as u64,
        outbox: emitted(s, ReplicationEventView::RelationshipAdded { relationship: r }),
        ..s
    }
}

/// The entity at `i` is the first whose name, lowercased, is `lower`.
pub open spec fn first_named(es: Seq<EntityView>, lower: Seq<char>, i: int) -> bool {
    &&& 0 <= i < es.len()
    &&& lowercase(es[i].name) == lower
    &&& forall|j: int| 0 <= j < i ==> lowercase(#[trigger] es[j].name) != lower
}

/// No entity has a name that, lowercased, is `lower`.
pub open spec fn none_named(es: Seq<EntityView>, lower: Seq<char>) -> bool {
    forall|j: int| 0 <= j < es.len() ==> lowercase(#[trigger] es[j].name) != lower
}

/// Each current relationship that touches `id` and whose other endpoint
/// exists, paired with the entity at that endpoint, in the order of the
/// store.
pub open spec fn neighbours(rels: Seq<RelationshipView>, es: Seq<EntityView>, id: u64) -> Seq<
    (RelationshipView, EntityView),
>
    decreases rels.len(),
{
    if rels.len() == 0 {
        Seq::empty()
    } else {
        let rest = neighbours(rels.drop_last(), es, id);
        let r = rels.last();
        if is_live(r) && touches(r, id) && found(es, other_end(r, id)) is Some {
            rest.push((r, found(es, other_end(r, id)).unwrap()))
        } else {
            rest
        }
    }
}

/// The views of a list of relationships paired with entities.
pub open spec fn pair_views(s: Seq<(Relationship, Entity)>) -> Seq<(RelationshipView, EntityView)> {
    s.map_values(|p: (Relationship, Entity)| (p.0@, p.1@))
}

/// The agent that a registration creates at time `now`.
pub open spec fn new_agent(req: RegisterAgentRequestView, now: Timestamp) -> AgentView {
    AgentView {
        agent_id: req.agent_id,
        name: req.name,
        agent_type: req.agent_type,
        capabilities: req.capabilities,
        status: AgentStatus::Online,
        last_seen: now,
        memory_count: 0,
        metadata: req.metadata,
    }
}

/// The state after an agent registers: it takes the place of the agent with
/// its id, if there is one.
pub open spec fn after_register_agent(s: EngineState, req: RegisterAgentRequestView, now: Timestamp) -> EngineState {
    let a = new_agent(req, now);
    EngineState {
        agents: put_named(s.agents, a),
        outbox: emitted(s, ReplicationEventView::AgentRegistered { agent: a }),
        ..s
    }
}

/// The state after the agent `agent_id` sends a heartbeat: it is online and
/// was last seen at `now`. The state itself where there is no such agent.
pub open spec fn after_heartbeat(s: EngineState, agent_id: Seq<char>, now: Timestamp) -> EngineState {
    match position_of_name(s.agents, agent_id) {
        None => s,
        Some(i) => EngineState {
            agents: s.agents.update(
                i,
                AgentView { last_seen: now, status: AgentStatus::Online, ..s.agents[i] },
            ),
            ..s
        },
    }
}

/// The agent with the id, if there is one.
pub open spec fn found_agent(agents: Seq<AgentView>, agent_id: Seq<char>) -> Option<AgentView> {
    match position_of_name(agents, agent_id) {
        Some(i) => Some(agents[i]),
        None => None,
    }
}

/// How many of the memories are current.
pub open spec fn count_current(ms: Seq<MemoryView>) -> nat
    decreases ms.len(),
{
    if ms.len() == 0 {
        0
    } else {
        count_current(ms.drop_last()) + if ms.last().valid_until is None {
            1nat
        } else {
            0nat
        }
    }
}

/// Counts of what the engine holds.
#[derive(Debug, Clone, Copy, PartialEq, Eq, Structural)]
pub struct EngineStats {
    pub memories: usize,
    pub entities: usize,
    pub relationships: usize,
    pub episodes: usize,
    pub agents: usize,
    pub valid_memories: usize,
    pub replication_enabled: bool,
}

/// The state after a task is created.
pub open spec fn after_create_task(s: EngineState, req: CreateTaskRequestView, now: Timestamp) -> EngineState {
    let t = new_task(s.next_task_id, req, now);
    EngineState {
        tasks: s.tasks.push(t),
        task_events: with_entry(
            s.task_events,
            t.id,
            created_event(s.next_task_event_id, t, now),
        ),
        next_task_id: (s.next_task_id + 1) as u64,
        next_task_event_id: (s.next_task_event_id + 1) as u64,
        outbox: emitted(s, ReplicationEventView::TaskCreated { task: t }),
        ..s
    }
}

/// Why the action of `agent` on the task `id` is refused, if it is: no task
/// has the id, or the task refuses.
pub open spec fn task_refusal(s: EngineState, id: u64, action: TaskAction, agent: Seq<char>) -> Option<
    TaskError,
> {
    match position(s.tasks, id) {
        None => Some(TaskError::NotFound),
        Some(i) => refusal(s.tasks[i], action, agent),
    }
}

/// The outbound queue after the action led to the task `t`: claiming,
/// completing and failing are told to replicas.
pub open spec fn announced(s: EngineState, action: TaskAction, t: TaskView) -> Seq<
    ReplicationEventView,
> {
    match action {
        TaskAction::Claim => emitted(s, ReplicationEventView::TaskClaimed { task: t }),
        TaskAction::Complete => emitted(s, ReplicationEventView::TaskCompleted { task: t }),
        TaskAction::Fail => emitted(s, ReplicationEventView::TaskFailed { task: t }),
        _ => s.outbox,
    }
}

/// The state after `agent` asks for the action on the task `id`: the state
/// itself where the action is refused; else the task is rewritten and its
/// event log grows by the matching event.
pub open spec fn after_task_action(
    s: EngineState,
    id: u64,
    action: TaskAction,
    agent: Seq<char>,
    text: Seq<char>,
    now: Timestamp,
) -> EngineState {
    if task_refusal(s, id, action, agent) is Some {
        s
    } else {
        let i = position(s.tasks, id).unwrap();
        let t = advanced(s.tasks[i], action, agent, text, now);
        EngineState {
            tasks: s.tasks.update(i, t),
            task_events: with_entry(
                s.task_events,
                id,
                action_event(s.next_task_event_id, id, action, agent, text, now),
            ),
            next_task_event_id: (s.next_task_event_id + 1) as u64,
            outbox: announced(s, action, t),
            ..s
        }
    }
}

/// Whether a listing of tasks shows the task: it is in the state asked for,
/// and assigned to the agent asked for, where one is named.
pub open spec fn task_listed(t: TaskView, status: Option<TaskStatus>, agent: Option<Seq<char>>) -> bool {
    &&& status is Some ==> t.status == status.unwrap()
    &&& agent is Some ==> t.assigned_agent == agent
}

/// The tasks that a listing shows, in the order of the store.
pub open spec fn task_listing(
    ts: Seq<TaskView>,
    status: Option<TaskStatus>,
    agent: Option<Seq<char>>,
) -> Seq<TaskView>
    decreases ts.len(),
{
    if ts.len() == 0 {
        Seq::empty()
    } else {
        let rest = task_listing(ts.drop_last(), status, agent);
        if task_listed(ts.last(), status, agent) {
            rest.push(ts.last())
        } else {
            rest
        }
    }
}

/// The state after a snapshot is restored: each record of the snapshot is
/// stored under its id, in place of a record that has the id; each list of
/// audit entries and task events is stored under its key; and each next id is
/// raised above the ids of its kind.
pub open spec fn after_restore(s: EngineState, snap: SnapshotView) -> EngineState {
    EngineState {
        memories: put_all(s.memories, snap.memories),
        history: with_lists(s.history, snap.history),
        entities: put_all(s.entities, snap.entities),
        relationships: put_all(s.relationships, snap.relationships),
        episodes: put_all(s.episodes, snap.episodes),
        agents: put_all_named(s.agents, snap.agents),
        tasks: put_all(s.tasks, snap.tasks),
        task_events: with_lists(s.task_events, snap.task_events),
        next_memory_id: raised(s.next_memory_id, snap.memories),
        next_entity_id: raised(s.next_entity_id, snap.entities),
        next_relationship_id: raised(s.next_relationship_id, snap.relationships),
        next_episode_id: raised(s.next_episode_id, snap.episodes),
        next_history_id: raised_over(s.next_history_id, snap.history),
        next_task_id: raised(s.next_task_id, snap.tasks),
        next_task_event_id: raised_over(s.next_task_event_id, snap.task_events),
        replication: s.replication,
        outbox: s.outbox,
    }
}

/// The snapshot of a state, taken at `now`. It names no channels: those
/// belong to the channel hub.
pub open spec fn snapshot_of(s: EngineState, now: Timestamp) -> SnapshotView {
    SnapshotView {
        version: 2,
        created_at: now,
        memories: s.memories,
        entities: s.entities,
        relationships: s.relationships,
        episodes: s.episodes,
        agents: s.agents,
        history: s.history,
        channels: Seq::empty(),
        tasks: s.tasks,
        task_events: s.task_events,
    }
}

/// The ids that the records created next will get.
#[derive(Debug, Clone, Copy, PartialEq, Eq, Structural)]
pub struct NextIds {
    pub memory: u64,
    pub entity: u64,
    pub relationship: u64,
    pub episode: u64,
    pub history: u64,
    pub task: u64,
    pub task_event: u64,
}

/// The next ids of a state.
pub open spec fn next_ids_of(s: EngineState) -> NextIds {
    NextIds {
        memory: s.next_memory_id,
        entity: s.next_entity_id,
        relationship: s.next_relationship_id,
        episode: s.next_episode_id,
        history: s.next_history_id,
        task: s.next_task_id,
        task_event: s.next_task_event_id,
    }
}

/// An id of every kind can still be issued.
pub open spec fn room_left(s: EngineState) -> bool {
    &&& s.next_memory_id < u64::MAX
    &&& s.next_entity_id < u64::MAX
    &&& s.next_relationship_id < u64::MAX
    &&& s.next_episode_id < u64::MAX
    &&& s.next_history_id < u64::MAX
    &&& s.next_task_id < u64::MAX
    &&& s.next_task_event_id < u64::MAX
}

/// The store of memories, graph, agents and tasks.
pub struct MemoryEngine {
    config: HiveMindConfig,
    memories: Table<Memory>,
    entities: Table<Entity>,
    relationships: Table<Relationship>,
    episodes: Table<Episode>,
    agents: Directory<Agent>,
    history: Ledger<MemoryHistory>,
    tasks: Table<Task>,
    task_events: Ledger<TaskEvent>,
    next_memory_id: u64,
    next_entity_id: u64,
    next_relationship_id: u64,
    next_episode_id: u64,
    next_history_id: u64,
    next_task_id: u64,
    next_task_event_id: u64,
    replication: bool,
    outbox: Vec<ReplicationEvent>,
}

impl View for MemoryEngine {
    type V = EngineState;

    closed spec fn view(&self) -> EngineState {
        EngineState {
            memories: views(self.memories@),
            history: page_views(self.history@),
            entities: views(self.entities@),
            relationships: views(self.relationships@),
            episodes: views(self.episodes@),
            agents: views(self.agents@),
            tasks: views(self.tasks@),
            task_events: page_views(self.task_events@),
            next_memory_id: self.next_memory_id,
            next_entity_id: self.next_entity_id,
            next_relationship_id: self.next_relationship_id,
            next_episode_id: self.next_episode_id,
            next_history_id: self.next_history_id,
            next_task_id: self.next_task_id,
            next_task_event_id: self.next_task_event_id,
            replication: self.replication,
            outbox: views(self.outbox@),
        }
    }
}

impl MemoryEngine {
    /// The tables are well formed and the state is consistent.
    pub closed spec fn wf(&self) -> bool {
        &&& self.memories.wf()
        &&& self.entities.wf()
        &&& self.relationships.wf()
        &&& self.episodes.wf()
        &&& self.agents.wf()
        &&& self.history.wf()
        &&& self.tasks.wf()
        &&& self.task_events.wf()
        &&& consistent(self@)
    }

    /// The configuration the engine was made with.
    pub closed spec fn settings(&self) -> HiveMindConfig {
        self.config
    }

    /// A well-formed engine is in a consistent state.
    pub proof fn lemma_consistent(&self)
        requires
            self.wf(),
        ensures
            consistent(self@),
    {
    }

    /// An engine without records, whose first ids are 1 and whose replication
    /// is off.
    pub fn new(config: HiveMindConfig) -> (e: Self)
        ensures
            e.wf(),
            e.settings() == config,
            e@ == initial_state(),
    {
        let e = MemoryEngine {
            config,
            memories: Table::new(),
            entities: Table::new(),
            relationships: Table::new(),
            episodes: Table::new(),
            agents: Directory::new(),
            history: Ledger::new(),
            tasks: Table::new(),
            task_events: Ledger::new(),
            next_memory_id: 1,
            next_entity_id: 1,
            next_relationship_id: 1,
            next_episode_id: 1,
            next_history_id: 1,
            next_task_id: 1,
            next_task_event_id: 1,
            replication: false,
            outbox: Vec::new(),
        };
        assert(e@ =~= initial_state()) by {
            assert(e@.memories =~= Seq::empty());
            assert(e@.history =~= Seq::empty());
            assert(e@.entities =~= Seq::empty());
            assert(e@.relationships =~= Seq::empty());
            assert(e@.episodes =~= Seq::empty());
            assert(e@.agents =~= Seq::empty());
            assert(e@.tasks =~= Seq::empty());
            assert(e@.task_events =~= Seq::empty());
            assert(e@.outbox =~= Seq::empty());
        }
        e
    }

    /// The configuration the engine was made with.
    pub fn config(&self) -> (c: &HiveMindConfig)
        ensures
            *c == self.settings(),
    {
        &self.config
    }

    /// The ids that the records created next will get.
    pub fn next_ids(&self) -> (n: NextIds)
        ensures
            n == next_ids_of(self@),
    {
        NextIds {
            memory: self.next_memory_id,
            entity: self.next_entity_id,
            relationship: self.next_relationship_id,
            episode: self.next_episode_id,
            history: self.next_history_id,
            task: self.next_task_id,
            task_event: self.next_task_event_id,
        }
    }

    /// Whether an id of every kind can still be issued.
    pub fn has_room(&self) -> (r: bool)
        ensures
            r == room_left(self@),
    {
        self.next_memory_id < u64::MAX && self.next_entity_id < u64::MAX
            && self.next_relationship_id < u64::MAX && self.next_episode_id < u64::MAX
            && self.next_history_id < u64::MAX && self.next_task_id < u64::MAX
            && self.next_task_event_id < u64::MAX
    }

    /// Turns the outbound replication queue on or off.
    pub fn set_replication(&mut self, enabled: bool)
        requires
            old(self).wf(),
        ensures
            final(self).wf(),
            final(self)@ == (EngineState { replication: enabled, ..old(self)@ }),
    {
        self.replication = enabled;
    }

    /// Hands out the replication events emitted since the last call, oldest
    /// first, and empties the queue.
    pub fn take_replication_events(&mut self) -> (events: Vec<ReplicationEvent>)
        requires
            old(self).wf(),
        ensures
            final(self).wf(),
            views(events@) == old(self)@.outbox,
            final(self)@ == (EngineState { outbox: Seq::empty(), ..old(self)@ }),
    {
        let mut events: Vec<ReplicationEvent> = Vec::new();
        std::mem::swap(&mut self.outbox, &mut events);
        assert(views(self.outbox@) =~= Seq::empty());
        events
    }

    /// Puts `ev` on the outbound queue where replication is on.
    fn emit(&mut self, ev: ReplicationEvent)
        requires
            old(self).wf(),
        ensures
            final(self).wf(),
            final(self)@ == (EngineState { outbox: emitted(old(self)@, ev@), ..old(self)@ }),
    {
        if self.replication {
            self.outbox.push(ev);
            assert(views(self.outbox@) =~= views(old(self).outbox@).push(ev@));
        }
    }

    /// The time the next audit entry of memory `id` gets when the clock reads
    /// `now`.
    fn next_stamp(&self, id: u64, now: Timestamp) -> (stamp: Timestamp)
        requires
            self.wf(),
        ensures
            stamp == stamp_after(entries_of(self@.history, id), now),
    {
        proof {
            self.history.lemma_distinct();
            lemma_page_views(self.history@, id);
        }
        match self.history.get(id) {
            Some(list) => {
                if list.len() == 0 {
                    now
                } else {
                    Timestamp::later_of(now, list[list.len() - 1].timestamp)
                }
            },
            None => now,
        }
    }

    /// Records `entry` in the audit trail of memory `id`.
    fn record(&mut self, id: u64, entry: MemoryHistory)
        requires
            old(self).wf(),
            entry.id == old(self).next_history_id,
            old(self).next_history_id < u64::MAX,
        ensures
            final(self).wf(),
            final(self)@ == (EngineState {
                history: with_entry(old(self)@.history, id, entry@),
                next_history_id: (old(self)@.next_history_id + 1) as u64,
                ..old(self)@
            }),
    {
        proof {
            self.history.lemma_distinct();
            lemma_page_views_with_entry(self.history@, id, entry);
            lemma_page_views(self.history@, id);
            lemma_with_entry_below(page_views(self.history@), id, entry@, self.next_history_id);
        }
        self.history.append(id, entry);
        self.next_history_id = self.next_history_id + 1;
    }

    /// Adds a memory, stamped with the clock's reading.
    pub fn add_memory(&mut self, req: AddMemoryRequest) -> (m: Memory)
        requires
            old(self).wf(),
            old(self)@.next_memory_id < u64::MAX,
            old(self)@.next_history_id < u64::MAX,
        ensures
            final(self).wf(),
            exists|t: Timestamp|
                m@ == new_memory(old(self)@.next_memory_id, req@, t) && final(self)@
                    == after_add_memory(old(self)@, req@, t),
    {
        let t = now();
        self.add_memory_at(req, t)
    }

    /// Adds a memory at the time `now`: it gets the next memory id, its audit
    /// trail gets an `add` entry, and a `MemoryAdded` event is emitted.
    pub fn add_memory_at(&mut self, req: AddMemoryRequest, now: Timestamp) -> (m: Memory)
        requires
            old(self).wf(),
            old(self)@.next_memory_id < u64::MAX,
            old(self)@.next_history_id < u64::MAX,
        ensures
            final(self).wf(),
            m@ == new_memory(old(self)@.next_memory_id, req@, now),
            final(self)@ == after_add_memory(old(self)@, req@, now),
    {
        let id: u64 = self.next_memory_id;
        let source = match &req.agent_id {
            Some(a) => a.clone(),
            None => String::from_str("unknown"),
        };
        let changed_by = source.clone();
        let content = req.content.clone();
        let memory = Memory {
            id,
            content: req.content,
            memory_type: req.memory_type,
            agent_id: req.agent_id,
            user_id: req.user_id,
            session_id: req.session_id,
            confidence: MILLION,
            tags: req.tags,
            created_at: now,
            updated_at: now,
            valid_from: now,
            valid_until: None,
            source,
            metadata: req.metadata,
        };
        let stamp = self.next_stamp(id, now);
        let entry = MemoryHistory {
            id: self.next_history_id,
            memory_id: id,
            operation: Operation::Add,
            old_content: None,
            new_content: content,
            reason: String::from_str("Initial creation"),
            changed_by,
            timestamp: stamp,
        };
        let out = memory.clone();
        let copy = memory.clone();
        self.record(id, entry);
        proof {
            self.memories.lemma_distinct();
            lemma_views_put(self.memories@, memory);
            lemma_position_some(views(self.memories@), id);
            lemma_put_keeps_distinct(views(self.memories@), memory@);
        }
        self.memories.put(memory);
        self.next_memory_id = id + 1;
        self.emit(ReplicationEvent::MemoryAdded { memory: copy });
        out
    }

    /// A copy of the memory `id`.
    pub fn get_memory(&self, id: u64) -> (r: Option<Memory>)
        requires
            self.wf(),
        ensures
            opt_view(r) == found(self@.memories, id),
    {
        proof {
            self.memories.lemma_distinct();
            lemma_views_position(self.memories@, id);
        }
        match self.memories.get(id) {
            Some(m) => Some(m.clone()),
            None => None,
        }
    }

    /// A copy of the audit trail of memory `id`, oldest entry first.
    pub fn get_memory_history(&self, memory_id: u64) -> (r: Vec<MemoryHistory>)
        requires
            self.wf(),
        ensures
            views(r@) == entries_of(self@.history, memory_id),
    {
        proof {
            self.history.lemma_distinct();
            lemma_page_views(self.history@, memory_id);
        }
        let mut out: Vec<MemoryHistory> = Vec::new();
        match self.history.get(memory_id) {
            Some(list) => {
                let mut i: usize = 0;
                while i < list.len()
                    invariant
                        i <= list.len(),
                        views(out@) == views(list@).take(i as int),
                    decreases list.len() - i,
                {
                    proof {
                        lemma_views_push(out@, list@[i as int]);
                    }
                    let entry = list[i].clone();
                    proof {
                        lemma_views_push(out@, entry);
                    }
                    out.push(entry);
                    assert(views(out@) =~= views(list@).take(i + 1));
                    i += 1;
                }
                assert(views(list@).take(list.len() as int) =~= views(list@));
            },
            None => {
                assert(views(out@) =~= Seq::empty());
            },
        }
        out
    }

    /// Patches the memory `id`, stamped with the clock's reading.
    pub fn update_memory(&mut self, id: u64, req: UpdateMemoryRequest, changed_by: &str) -> (r:
        Option<Memory>)
        requires
            old(self).wf(),
            old(self)@.next_history_id < u64::MAX,
        ensures
            final(self).wf(),
            exists|t: Timestamp|
                final(self)@ == after_update_memory(old(self)@, id, req@, changed_by@, t)
                    && opt_view(r) == (match found(old(self)@.memories, id) {
                    Some(m) => Some(patched(m, req@, t)),
                    None => None,
                }),
    {
        let t = now();
        self.update_memory_at(id, req, changed_by, t)
    }

    /// Patches the memory `id` at the time `now`: the fields that the patch
    /// names are replaced, the audit trail gets an `update` entry, and a
    /// `MemoryUpdated` event is emitted. Returns the patched memory, or
    /// `None`, leaving the state as it is, where no memory has that id.
    pub fn update_memory_at(
        &mut self,
        id: u64,
        req: UpdateMemoryRequest,
        changed_by: &str,
        now: Timestamp,
    ) -> (r: Option<Memory>)
        requires
            old(self).wf(),
            old(self)@.next_history_id < u64::MAX,
        ensures
            final(self).wf(),
            final(self)@ == after_update_memory(old(self)@, id, req@, changed_by@, now),
            opt_view(r) == (match found(old(self)@.memories, id) {
                Some(m) => Some(patched(m, req@, now)),
                None => None,
            }),
    {
        proof {
            self.memories.lemma_distinct();
            lemma_views_position(self.memories@, id);
        }
        let updated = match self.memories.get(id) {
            None => {
                return None;
            },
            Some(m) => Memory {
                id: m.id,
                content: match &req.content {
                    Some(c) => c.clone(),
                    None => m.content.clone(),
                },
                memory_type: m.memory_type,
                agent_id: copy_opt_text(&m.agent_id),
                user_id: copy_opt_text(&m.user_id),
                session_id: copy_opt_text(&m.session_id),
                confidence: match req.confidence {
                    Some(c) => if c > MILLION {
                        MILLION
                    } else {
                        c
                    },
                    None => m.confidence,
                },
                tags: match &req.tags {
                    Some(t) => copy_texts(t),
                    None => copy_texts(&m.tags),
                },
                created_at: m.created_at,
                updated_at: now,
                valid_from: m.valid_from,
                valid_until: m.valid_until,
                source: m.source.clone(),
                metadata: match &req.metadata {
                    Some(d) => d.clone(),
                    None => m.metadata.clone(),
                },
            },
        };
        let old_content = match self.memories.get(id) {
            Some(m) => m.content.clone(),
            None => String::new(),
        };
        let stamp = self.next_stamp(id, now);
        let entry = MemoryHistory {
            id: self.next_history_id,
            memory_id: id,
            operation: Operation::Update,
            old_content: Some(old_content),
            new_content: updated.content.clone(),
            reason: String::from_str("Manual update"),
            changed_by: changed_by.to_owned(),
            timestamp: stamp,
        };
        let out = updated.clone();
        let copy = updated.clone();
        self.record(id, entry);
        proof {
            self.memories.lemma_distinct();
            lemma_views_position(self.memories@, id);
            lemma_views_put(self.memories@, updated);
            lemma_put_keeps_distinct(views(self.memories@), updated@);
        }
        self.memories.put(updated);
        self.emit(ReplicationEvent::MemoryUpdated { memory: copy });
        Some(out)
    }

    /// Invalidates the memory `id`, stamped with the clock's reading.
    pub fn invalidate_memory(&mut self, id: u64, reason: &str, changed_by: &str) -> (r: Option<
        Memory,
    >)
        requires
            old(self).wf(),
            old(self)@.next_history_id < u64::MAX,
        ensures
            final(self).wf(),
            exists|t: Timestamp|
                final(self)@ == after_invalidate_memory(old(self)@, id, reason@, changed_by@, t)
                    && opt_view(r) == (match found(old(self)@.memories, id) {
                    Some(m) => Some(invalidated(m, t)),
                    None => None,
                }),
    {
        let t = now();
        self.invalidate_memory_at(id, reason, changed_by, t)
    }

    /// Invalidates the memory `id` at the time `now`: its validity ends, the
    /// audit trail gets an `invalidate` entry, and a `MemoryInvalidated`
    /// event is emitted. A memory that was invalid already gets the new end.
    /// Returns the memory, or `None`, leaving the state as it is, where no
    /// memory has that id.
    pub fn invalidate_memory_at(
        &mut self,
        id: u64,
        reason: &str,
        changed_by: &str,
        now: Timestamp,
    ) -> (r: Option<Memory>)
        requires
            old(self).wf(),
            old(self)@.next_history_id < u64::MAX,
        ensures
            final(self).wf(),
            final(self)@ == after_invalidate_memory(old(self)@, id, reason@, changed_by@, now),
            opt_view(r) == (match found(old(self)@.memories, id) {
                Some(m) => Some(invalidated(m, now)),
                None => None,
            }),
    {
        proof {
            self.memories.lemma_distinct();
            lemma_views_position(self.memories@, id);
        }
        let updated = match self.memories.get(id) {
            None => {
                return None;
            },
            Some(m) => Memory {
                id: m.id,
                content: m.content.clone(),
                memory_type: m.memory_type,
                agent_id: copy_opt_text(&m.agent_id),
                user_id: copy_opt_text(&m.user_id),
                session_id: copy_opt_text(&m.session_id),
                confidence: m.confidence,
                tags: copy_texts(&m.tags),
                created_at: m.created_at,
                updated_at: now,
                valid_from: m.valid_from,
                valid_until: Some(Timestamp::later_of(now, m.valid_from)),
                source: m.source.clone(),
                metadata: m.metadata.clone(),
            },
        };
        let stamp = self.next_stamp(id, now);
        let entry = MemoryHistory {
            id: self.next_history_id,
            memory_id: id,
            operation: Operation::Invalidate,
            old_content: Some(updated.content.clone()),
            new_content: updated.content.clone(),
            reason: reason.to_owned(),
            changed_by: changed_by.to_owned(),
            timestamp: stamp,
        };
        let out = updated.clone();
        self.record(id, entry);
        proof {
            self.memories.lemma_distinct();
            lemma_views_position(self.memories@, id);
            lemma_views_put(self.memories@, updated);
            lemma_put_keeps_distinct(views(self.memories@), updated@);
        }
        self.memories.put(updated);
        self.emit(ReplicationEvent::MemoryInvalidated { memory_id: id, reason: reason.to_owned() });
        Some(out)
    }

    /// Copies of the memories that a listing shows, in the order of the store.
    pub fn list_memories(
        &self,
        agent_id: Option<&str>,
        user_id: Option<&str>,
        include_invalidated: bool,
    ) -> (r: Vec<Memory>)
        requires
            self.wf(),
        ensures
            views(r@) == listing(
                self@.memories,
                opt_str(agent_id),
                opt_str(user_id),
                include_invalidated,
            ),
    {
        let mut out: Vec<Memory> = Vec::new();
        let ghost ms = views(self.memories@);
        let ghost agent = opt_str(agent_id);
        let ghost user = opt_str(user_id);
        let mut i: usize = 0;
        assert(views(out@) =~= listing(ms.take(0), agent, user, include_invalidated));
        while i < self.memories.len()
            invariant
                i <= self.memories@.len(),
                ms == views(self.memories@),
                agent == opt_str(agent_id),
                user == opt_str(user_id),
                views(out@) == listing(ms.take(i as int), agent, user, include_invalidated),
            decreases self.memories@.len() - i,
        {
            let m = self.memories.row(i);
            assert(ms.take(i + 1).drop_last() =~= ms.take(i as int));
            assert(ms.take(i + 1).last() == m@);
            let shown = (include_invalidated || m.valid_until.is_none()) && belongs_to(
                &m.agent_id,
                agent_id,
            ) && belongs_to(&m.user_id, user_id);
            if shown {
                let copy = m.clone();
                proof {
                    lemma_views_push(out@, copy);
                }
                out.push(copy);
            }
            i += 1;
        }
        assert(ms.take(self.memories@.len() as int) =~= ms);
        out
    }

    /// Adds an entity, stamped with the clock's reading.
    pub fn add_entity(&mut self, req: AddEntityRequest) -> (e: Entity)
        requires
            old(self).wf(),
            old(self)@.next_entity_id < u64::MAX,
        ensures
            final(self).wf(),
            exists|t: Timestamp|
                e@ == new_entity(old(self)@.next_entity_id, req@, t) && final(self)@
                    == after_add_entity(old(self)@, req@, t),
    {
        let t = now();
        self.add_entity_at(req, t)
    }

    /// Adds an entity at the time `now`: it gets the next entity id, and an
    /// `EntityAdded` event is emitted.
    pub fn add_entity_at(&mut self, req: AddEntityRequest, now: Timestamp) -> (e: Entity)
        requires
            old(self).wf(),
            old(self)@.next_entity_id < u64::MAX,
        ensures
            final(self).wf(),
            e@ == new_entity(old(self)@.next_entity_id, req@, now),
            final(self)@ == after_add_entity(old(self)@, req@, now),
    {
        let id: u64 = self.next_entity_id;
        let entity = Entity {
            id,
            name: req.name,
            entity_type: req.entity_type,
            description: req.description,
            agent_id: req.agent_id,
            created_at: now,
            updated_at: now,
            metadata: req.metadata,
        };
        let out = entity.clone();
        let copy = entity.clone();
        proof {
            self.entities.lemma_distinct();
            lemma_views_put(self.entities@, entity);
            lemma_position_some(views(self.entities@), id);
            lemma_put_keeps_distinct(views(self.entities@), entity@);
        }
        self.entities.put(entity);
        self.next_entity_id = id + 1;
        self.emit(ReplicationEvent::EntityAdded { entity: copy });
        out
    }

    /// A copy of the entity `id`.
    pub fn get_entity(&self, id: u64) -> (r: Option<Entity>)
        requires
            self.wf(),
        ensures
            opt_view(r) == found(self@.entities, id),
    {
        proof {
            self.entities.lemma_distinct();
            lemma_views_position(self.entities@, id);
        }
        match self.entities.get(id) {
            Some(e) => Some(e.clone()),
            None => None,
        }
    }

    /// A copy of the first entity whose name is `name` when case is ignored.
    pub fn find_entity_by_name(&self, name: &str) -> (r: Option<Entity>)
        requires
            self.wf(),
        ensures
            match r {
                Some(e) => exists|i: int|
                    first_named(self@.entities, lowercase(name@), i) && e@ == self@.entities[i],
                None => none_named(self@.entities, lowercase(name@)),
            },
    {
        let lower = to_lower(name);
        let mut i: usize = 0;
        while i < self.entities.len()
            invariant
                i <= self.entities@.len(),
                lower@ == lowercase(name@),
                forall|j: int|
                    0 <= j < i ==> lowercase(#[trigger] views(self.entities@)[j].name) != lower@,
            decreases self.entities@.len() - i,
        {
            let e = self.entities.row(i);
            let candidate = to_lower(e.name.as_str());
            if candidate == lower {
                assert(first_named(self@.entities, lowercase(name@), i as int));
                return Some(e.clone());
            }
            i += 1;
        }
        None
    }

    /// Adds a relationship, stamped with the clock's reading.
    pub fn add_relationship(&mut self, req: AddRelationshipRequest) -> (r: Relationship)
        requires
            old(self).wf(),
            old(self)@.next_relationship_id < u64::MAX,
        ensures
            final(self).wf(),
            exists|t: Timestamp|
                r@ == new_relationship(old(self)@.next_relationship_id, req@, t) && final(self)@
                    == after_add_relationship(old(self)@, req@, t),
    {
        let t = now();
        self.add_relationship_at(req, t)
    }

    /// Adds a relationship at the time `now`: it gets the next relationship
    /// id and is current, and a `RelationshipAdded` event is emitted. Its
    /// endpoints need not exist.
    pub fn add_relationship_at(&mut self, req: AddRelationshipRequest, now: Timestamp) -> (r:
        Relationship)
        requires
            old(self).wf(),
            old(self)@.next_relationship_id < u64::MAX,
        ensures
            final(self).wf(),
            r@ == new_relationship(old(self)@.next_relationship_id, req@, now),
            final(self)@ == after_add_relationship(old(self)@, req@, now),
    {
        let id: u64 = self.next_relationship_id;
        let rel = Relationship {
            id,
            source_entity_id: req.source_entity_id,
            target_entity_id: req.target_entity_id,
            relation_type: req.relation_type,
            description: req.description,
            weight: req.weight,
            valid_from: now,
            valid_until: None,
            created_by: req.created_by,
            metadata: req.metadata,
        };
        let out = rel.clone();
        let copy = rel.clone();
        proof {
            self.relationships.lemma_distinct();
            lemma_views_put(self.relationships@, rel);
            lemma_position_some(views(self.relationships@), id);
            lemma_put_keeps_distinct(views(self.relationships@), rel@);
        }
        self.relationships.put(rel);
        self.next_relationship_id = id + 1;
        self.emit(ReplicationEvent::RelationshipAdded { relationship: copy });
        out
    }

    /// Each current relationship that touches the entity, with a copy of the
    /// entity at its other endpoint; relationships whose other endpoint does
    /// not exist are left out.
    pub fn get_entity_relationships(&self, entity_id: u64) -> (r: Vec<(Relationship, Entity)>)
        requires
            self.wf(),
        ensures
            pair_views(r@) == neighbours(self@.relationships, self@.entities, entity_id),
    {
        let mut out: Vec<(Relationship, Entity)> = Vec::new();
        let ghost rels = views(self.relationships@);
        let ghost es = views(self.entities@);
        let mut i: usize = 0;
        assert(pair_views(out@) =~= neighbours(rels.take(0), es, entity_id));
        while i < self.relationships.len()
            invariant
                self.wf(),
                i <= self.relationships@.len(),
                rels == views(self.relationships@),
                es == views(self.entities@),
                pair_views(out@) == neighbours(rels.take(i as int), es, entity_id),
            decreases self.relationships@.len() - i,
        {
            let rel = self.relationships.row(i);
            assert(rels.take(i + 1).drop_last() =~= rels.take(i as int));
            assert(rels.take(i + 1).last() == rel@);
            if rel.valid_until.is_none() && (rel.source_entity_id == entity_id
                || rel.target_entity_id == entity_id) {
                let other: u64 = if rel.source_entity_id == entity_id {
                    rel.target_entity_id
                } else {
                    rel.source_entity_id
                };
                proof {
                    self.entities.lemma_distinct();
                    lemma_views_position(self.entities@, other);
                }
                match self.entities.get(other) {
                    Some(e) => {
                        let pair = (rel.clone(), e.clone());
                        assert(pair_views(out@.push(pair)) =~= pair_views(out@).push(
                            (pair.0@, pair.1@),
                        ));
                        out.push(pair);
                    },
                    None => {},
                }
            }
            i += 1;
        }
        assert(rels.take(self.relationships@.len() as int) =~= rels);
        out
    }

    /// Registers an agent, stamped with the clock's reading.
    pub fn register_agent(&mut self, req: RegisterAgentRequest) -> (a: Agent)
        requires
            old(self).wf(),
        ensures
            final(self).wf(),
            exists|t: Timestamp|
                a@ == new_agent(req@, t) && final(self)@ == after_register_agent(
                    old(self)@,
                    req@,
                    t,
                ),
    {
        let t = now();
        self.register_agent_at(req, t)
    }

    /// Registers an agent at the time `now`: it is online, has no memories
    /// counted, and takes the place of an agent with the same id. An
    /// `AgentRegistered` event is emitted.
    pub fn register_agent_at(&mut self, req: RegisterAgentRequest, now: Timestamp) -> (a: Agent)
        requires
            old(self).wf(),
        ensures
            final(self).wf(),
            a@ == new_agent(req@, now),
            final(self)@ == after_register_agent(old(self)@, req@, now),
    {
        let agent = Agent {
            agent_id: req.agent_id,
            name: req.name,
            agent_type: req.agent_type,
            capabilities: req.capabilities,
            status: AgentStatus::Online,
            last_seen: now,
            memory_count: 0,
            metadata: req.metadata,
        };
        let out = agent.clone();
        let copy = agent.clone();
        proof {
            self.agents.lemma_distinct();
            lemma_views_put_named(self.agents@, agent);
            lemma_put_named_keeps_distinct(views(self.agents@), agent@);
            lemma_views_position_of_name(self.agents@, agent.name());
        }
        self.agents.put(agent);
        self.emit(ReplicationEvent::AgentRegistered { agent: copy });
        out
    }

    /// A copy of the agent `agent_id`.
    pub fn get_agent(&self, agent_id: &str) -> (r: Option<Agent>)
        requires
            self.wf(),
        ensures
            opt_view(r) == found_agent(self@.agents, agent_id@),
    {
        proof {
            self.agents.lemma_distinct();
            lemma_views_position_of_name(self.agents@, agent_id@);
        }
        match self.agents.get(agent_id) {
            Some(a) => Some(a.clone()),
            None => None,
        }
    }

    /// Copies of all agents, in the order they first registered.
    pub fn list_agents(&self) -> (r: Vec<Agent>)
        requires
            self.wf(),
        ensures
            views(r@) == self@.agents,
    {
        let mut out: Vec<Agent> = Vec::new();
        let mut i: usize = 0;
        while i < self.agents.len()
            invariant
                i <= self.agents@.len(),
                views(out@) == views(self.agents@).take(i as int),
            decreases self.agents@.len() - i,
        {
            let copy = self.agents.row(i).clone();
            proof {
                lemma_views_push(out@, copy);
            }
            out.push(copy);
            assert(views(out@) =~= views(self.agents@).take(i + 1));
            i += 1;
        }
        assert(views(self.agents@).take(self.agents@.len() as int) =~= views(self.agents@));
        out
    }

    /// Notes a heartbeat of the agent `agent_id`, stamped with the clock's
    /// reading.
    pub fn heartbeat_agent(&mut self, agent_id: &str)
        requires
            old(self).wf(),
        ensures
            final(self).wf(),
            exists|t: Timestamp| final(self)@ == after_heartbeat(old(self)@, agent_id@, t),
    {
        let t = now();
        self.heartbeat_agent_at(agent_id, t)
    }

    /// Notes a heartbeat of the agent `agent_id` at the time `now`: the agent
    /// is online and was last seen then. Nothing changes where there is no
    /// such agent.
    pub fn heartbeat_agent_at(&mut self, agent_id: &str, now: Timestamp)
        requires
            old(self).wf(),
        ensures
            final(self).wf(),
            final(self)@ == after_heartbeat(old(self)@, agent_id@, now),
    {
        proof {
            self.agents.lemma_distinct();
            lemma_views_position_of_name(self.agents@, agent_id@);
        }
        let updated = match self.agents.get(agent_id) {
            None => {
                return ;
            },
            Some(a) => Agent {
                agent_id: a.agent_id.clone(),
                name: a.name.clone(),
                agent_type: a.agent_type.clone(),
                capabilities: copy_texts(&a.capabilities),
                status: AgentStatus::Online,
                last_seen: now,
                memory_count: a.memory_count,
                metadata: a.metadata.clone(),
            },
        };
        proof {
            lemma_views_put_named(self.agents@, updated);
            lemma_put_named_keeps_distinct(views(self.agents@), updated@);
        }
        self.agents.put(updated);
    }

    /// Counts of what the engine holds.
    pub fn stats(&self) -> (st: EngineStats)
        requires
            self.wf(),
        ensures
            st.memories == self@.memories.len(),
            st.entities == self@.entities.len(),
            st.relationships == self@.relationships.len(),
            st.episodes == self@.episodes.len(),
            st.agents == self@.agents.len(),
            st.valid_memories == count_current(self@.memories),
            st.replication_enabled == self@.replication,
    {
        let mut valid: usize = 0;
        let ghost ms = views(self.memories@);
        let mut i: usize = 0;
        while i < self.memories.len()
            invariant
                i <= self.memories@.len(),
                ms == views(self.memories@),
                valid <= i,
                valid == count_current(ms.take(i as int)),
            decreases self.memories@.len() - i,
        {
            assert(ms.take(i + 1).drop_last() =~= ms.take(i as int));
            assert(ms.take(i + 1).last() == self.memories@[i as int]@);
            if self.memories.row(i).valid_until.is_none() {
                valid += 1;
            }
            i += 1;
        }
        assert(ms.take(self.memories@.len() as int) =~= ms);
        EngineStats {
            memories: self.memories.len(),
            entities: self.entities.len(),
            relationships: self.relationships.len(),
            episodes: self.episodes.len(),
            agents: self.agents.len(),
            valid_memories: valid,
            replication_enabled: self.replication,
        }
    }

    /// Records `entry` in the event log of task `id`.
    fn record_event(&mut self, id: u64, entry: TaskEvent)
        requires
            old(self).wf(),
            entry.id == old(self).next_task_event_id,
            old(self).next_task_event_id < u64::MAX,
        ensures
            final(self).wf(),
            final(self)@ == (EngineState {
                task_events: with_entry(old(self)@.task_events, id, entry@),
                next_task_event_id: (old(self)@.next_task_event_id + 1) as u64,
                ..old(self)@
            }),
    {
        proof {
            self.task_events.lemma_distinct();
            lemma_page_views_with_entry(self.task_events@, id, entry);
            lemma_page_views(self.task_events@, id);
            lemma_with_entry_below(
                page_views(self.task_events@),
                id,
                entry@,
                self.next_task_event_id,
            );
        }
        self.task_events.append(id, entry);
        self.next_task_event_id = self.next_task_event_id + 1;
    }

    /// Creates a task, stamped with the clock's reading.
    pub fn create_task(&mut self, req: CreateTaskRequest) -> (t: Task)
        requires
            old(self).wf(),
            old(self)@.next_task_id < u64::MAX,
            old(self)@.next_task_event_id < u64::MAX,
        ensures
            final(self).wf(),
            exists|now: Timestamp|
                t@ == new_task(old(self)@.next_task_id, req@, now) && final(self)@
                    == after_create_task(old(self)@, req@, now),
    {
        let t = now();
        self.create_task_at(req, t)
    }

    /// Creates a task at the time `now`: it gets the next task id and is
    /// pending, its event log gets a `created` event, and a `TaskCreated`
    /// event is emitted.
    pub fn create_task_at(&mut self, req: CreateTaskRequest, now: Timestamp) -> (t: Task)
        requires
            old(self).wf(),
            old(self)@.next_task_id < u64::MAX,
            old(self)@.next_task_event_id < u64::MAX,
        ensures
            final(self).wf(),
            t@ == new_task(old(self)@.next_task_id, req@, now),
            final(self)@ == after_create_task(old(self)@, req@, now),
    {
        let id: u64 = self.next_task_id;
        let task = create_task(id, req, now);
        let event = creation_event(self.next_task_event_id, &task, now);
        let out = task.clone();
        let copy = task.clone();
        self.record_event(id, event);
        proof {
            self.tasks.lemma_distinct();
            lemma_views_put(self.tasks@, task);
            lemma_position_some(views(self.tasks@), id);
            lemma_put_keeps_distinct(views(self.tasks@), task@);
        }
        self.tasks.put(task);
        self.next_task_id = id + 1;
        self.emit(ReplicationEvent::TaskCreated { task: copy });
        out
    }

    /// Takes the action of `agent_id` on the task `id` at the time `now`.
    /// Where the task accepts it, the task is rewritten, its event log gets
    /// the matching event, and the change is told to replicas; the new task
    /// is returned. Where no task has the id, or the task refuses, nothing
    /// changes and the reason is returned.
    pub fn act_on_task_at(
        &mut self,
        id: u64,
        action: TaskAction,
        agent_id: &str,
        text: &str,
        now: Timestamp,
    ) -> (r: Result<Task, TaskError>)
        requires
            old(self).wf(),
            old(self)@.next_task_event_id < u64::MAX,
        ensures
            final(self).wf(),
            final(self)@ == after_task_action(old(self)@, id, action, agent_id@, text@, now),
            match r {
                Ok(t) => task_refusal(old(self)@, id, action, agent_id@) is None && Some(t@)
                    == found(final(self)@.tasks, id) && t@ == advanced(
                    found(old(self)@.tasks, id).unwrap(),
                    action,
                    agent_id@,
                    text@,
                    now,
                ),
                Err(e) => task_refusal(old(self)@, id, action, agent_id@) == Some(e),
            },
    {
        proof {
            self.tasks.lemma_distinct();
            lemma_views_position(self.tasks@, id);
        }
        let next = match self.tasks.get(id) {
            None => {
                return Err(TaskError::NotFound);
            },
            Some(task) => match advance(task, action, agent_id, text, now) {
                Err(e) => {
                    return Err(e);
                },
                Ok(t) => t,
            },
        };
        let event = event_for(self.next_task_event_id, id, action, agent_id, text, now);
        let out = next.clone();
        let copy = next.clone();
        self.record_event(id, event);
        proof {
            self.tasks.lemma_distinct();
            lemma_views_position(self.tasks@, id);
            lemma_views_put(self.tasks@, next);
            lemma_put_keeps_distinct(views(self.tasks@), next@);
            lemma_position_some(views(self.tasks@), id);
        }
        self.tasks.put(next);
        proof {
            self.tasks.lemma_distinct();
            lemma_views_position(self.tasks@, id);
            lemma_position(views(self.tasks@), id, position(old(self)@.tasks, id).unwrap());
        }
        match action {
            TaskAction::Claim => self.emit(ReplicationEvent::TaskClaimed { task: copy }),
            TaskAction::Complete => self.emit(ReplicationEvent::TaskCompleted { task: copy }),
            TaskAction::Fail => self.emit(ReplicationEvent::TaskFailed { task: copy }),
            _ => {},
        }
        Ok(out)
    }

    /// A pending task is claimed by `agent_id`.
    pub fn claim_task(&mut self, id: u64, agent_id: &str) -> (r: Result<Task, TaskError>)
        requires
            old(self).wf(),
            old(self)@.next_task_event_id < u64::MAX,
        ensures
            final(self).wf(),
            r is Ok <==> task_refusal(old(self)@, id, TaskAction::Claim, agent_id@) is None,
            r is Err ==> final(self)@ == old(self)@ && Some(r->Err_0) == task_refusal(
                old(self)@,
                id,
                TaskAction::Claim,
                agent_id@,
            ),
            exists|t: Timestamp|
                final(self)@ == after_task_action(
                    old(self)@,
                    id,
                    TaskAction::Claim,
                    agent_id@,
                    ""@,
                    t,
                ) && (r is Ok ==> Some(r->Ok_0@) == found(final(self)@.tasks, id)),
    {
        let t = now();
        self.act_on_task_at(id, TaskAction::Claim, agent_id, "", t)
    }

    /// A claimed task is started by the agent it is assigned to.
    pub fn start_task(&mut self, id: u64, agent_id: &str) -> (r: Result<Task, TaskError>)
        requires
            old(self).wf(),
            old(self)@.next_task_event_id < u64::MAX,
        ensures
            final(self).wf(),
            r is Ok <==> task_refusal(old(self)@, id, TaskAction::Start, agent_id@) is None,
            r is Err ==> final(self)@ == old(self)@ && Some(r->Err_0) == task_refusal(
                old(self)@,
                id,
                TaskAction::Start,
                agent_id@,
            ),
            exists|t: Timestamp|
                final(self)@ == after_task_action(
                    old(self)@,
                    id,
                    TaskAction::Start,
                    agent_id@,
                    ""@,
                    t,
                ) && (r is Ok ==> Some(r->Ok_0@) == found(final(self)@.tasks, id)),
    {
        let t = now();
        self.act_on_task_at(id, TaskAction::Start, agent_id, "", t)
    }

    /// A task in progress is completed, with a result, by the agent it is
    /// assigned to.
    pub fn complete_task(&mut self, id: u64, agent_id: &str, result: String) -> (r: Result<
        Task,
        TaskError,
    >)
        requires
            old(self).wf(),
            old(self)@.next_task_event_id < u64::MAX,
        ensures
            final(self).wf(),
            r is Ok <==> task_refusal(old(self)@, id, TaskAction::Complete, agent_id@) is None,
            r is Err ==> final(self)@ == old(self)@ && Some(r->Err_0) == task_refusal(
                old(self)@,
                id,
                TaskAction::Complete,
                agent_id@,
            ),
            exists|t: Timestamp|
                final(self)@ == after_task_action(
                    old(self)@,
                    id,
                    TaskAction::Complete,
                    agent_id@,
                    result@,
                    t,
                ) && (r is Ok ==> Some(r->Ok_0@) == found(final(self)@.tasks, id)),
    {
        let t = now();
        self.act_on_task_at(id, TaskAction::Complete, agent_id, result.as_str(), t)
    }

    /// A claimed task or one in progress fails, with a reason, whoever says
    /// so.
    pub fn fail_task(&mut self, id: u64, agent_id: &str, reason: String) -> (r: Result<
        Task,
        TaskError,
    >)
        requires
            old(self).wf(),
            old(self)@.next_task_event_id < u64::MAX,
        ensures
            final(self).wf(),
            r is Ok <==> task_refusal(old(self)@, id, TaskAction::Fail, agent_id@) is None,
            r is Err ==> final(self)@ == old(self)@ && Some(r->Err_0) == task_refusal(
                old(self)@,
                id,
                TaskAction::Fail,
                agent_id@,
            ),
            exists|t: Timestamp|
                final(self)@ == after_task_action(
                    old(self)@,
                    id,
                    TaskAction::Fail,
                    agent_id@,
                    reason@,
                    t,
                ) && (r is Ok ==> Some(r->Ok_0@) == found(final(self)@.tasks, id)),
    {
        let t = now();
        self.act_on_task_at(id, TaskAction::Fail, agent_id, reason.as_str(), t)
    }

    /// A task that is not finished is cancelled.
    pub fn cancel_task(&mut self, id: u64, agent_id: &str) -> (r: Result<Task, TaskError>)
        requires
            old(self).wf(),
            old(self)@.next_task_event_id < u64::MAX,
        ensures
            final(self).wf(),
            r is Ok <==> task_refusal(old(self)@, id, TaskAction::Cancel, agent_id@) is None,
            r is Err ==> final(self)@ == old(self)@ && Some(r->Err_0) == task_refusal(
                old(self)@,
                id,
                TaskAction::Cancel,
                agent_id@,
            ),
            exists|t: Timestamp|
                final(self)@ == after_task_action(
                    old(self)@,
                    id,
                    TaskAction::Cancel,
                    agent_id@,
                    ""@,
                    t,
                ) && (r is Ok ==> Some(r->Ok_0@) == found(final(self)@.tasks, id)),
    {
        let t = now();
        self.act_on_task_at(id, TaskAction::Cancel, agent_id, "", t)
    }

    /// A copy of the task `id`.
    pub fn get_task(&self, id: u64) -> (r: Option<Task>)
        requires
            self.wf(),
        ensures
            opt_view(r) == found(self@.tasks, id),
    {
        proof {
            self.tasks.lemma_distinct();
            lemma_views_position(self.tasks@, id);
        }
        match self.tasks.get(id) {
            Some(t) => Some(t.clone()),
            None => None,
        }
    }

    /// A copy of the event log of task `id`, oldest event first.
    pub fn get_task_events(&self, task_id: u64) -> (r: Vec<TaskEvent>)
        requires
            self.wf(),
        ensures
            views(r@) == entries_of(self@.task_events, task_id),
    {
        proof {
            self.task_events.lemma_distinct();
            lemma_page_views(self.task_events@, task_id);
        }
        let mut out: Vec<TaskEvent> = Vec::new();
        match self.task_events.get(task_id) {
            Some(list) => {
                let mut i: usize = 0;
                while i < list.len()
                    invariant
                        i <= list.len(),
                        views(out@) == views(list@).take(i as int),
                    decreases list.len() - i,
                {
                    let entry = list[i].clone();
                    proof {
                        lemma_views_push(out@, entry);
                    }
                    out.push(entry);
                    assert(views(out@) =~= views(list@).take(i + 1));
                    i += 1;
                }
                assert(views(list@).take(list.len() as int) =~= views(list@));
            },
            None => {
                assert(views(out@) =~= Seq::empty());
            },
        }
        out
    }

    /// Copies of the tasks in the state and of the agent asked for, in the
    /// order of the store.
    pub fn list_tasks(&self, status: Option<TaskStatus>, agent_id: Option<&str>) -> (r: Vec<Task>)
        requires
            self.wf(),
        ensures
            views(r@) == task_listing(self@.tasks, status, opt_str(agent_id)),
    {
        let mut out: Vec<Task> = Vec::new();
        let ghost ts = views(self.tasks@);
        let ghost agent = opt_str(agent_id);
        let mut i: usize = 0;
        assert(views(out@) =~= task_listing(ts.take(0), status, agent));
        while i < self.tasks.len()
            invariant
                i <= self.tasks@.len(),
                ts == views(self.tasks@),
                agent == opt_str(agent_id),
                views(out@) == task_listing(ts.take(i as int), status, agent),
            decreases self.tasks@.len() - i,
        {
            let t = self.tasks.row(i);
            assert(ts.take(i + 1).drop_last() =~= ts.take(i as int));
            assert(ts.take(i + 1).last() == t@);
            let status_ok = match status {
                Some(s) => t.status == s,
                None => true,
            };
            if status_ok && belongs_to(&t.assigned_agent, agent_id) {
                let copy = t.clone();
                proof {
                    lemma_views_push(out@, copy);
                }
                out.push(copy);
            }
            i += 1;
        }
        assert(ts.take(self.tasks@.len() as int) =~= ts);
        out
    }

    /// Restores a snapshot: stores its records, audit entries and task events
    /// and raises each next id above the ids of its kind, so that no id is
    /// issued twice.
    pub fn restore_from_snapshot(&mut self, snapshot: Snapshot)
        requires
            old(self).wf(),
            restorable(snapshot@),
        ensures
            final(self).wf(),
            final(self)@ == after_restore(old(self)@, snapshot@),
    {
        self.next_memory_id = self.memories.absorb(&snapshot.memories, self.next_memory_id);
        self.next_entity_id = self.entities.absorb(&snapshot.entities, self.next_entity_id);
        self.next_relationship_id = self.relationships.absorb(
            &snapshot.relationships,
            self.next_relationship_id,
        );
        self.next_episode_id = self.episodes.absorb(&snapshot.episodes, self.next_episode_id);
        self.agents.absorb(&snapshot.agents);
        self.next_history_id = self.history.absorb(&snapshot.history, self.next_history_id);
        self.next_task_id = self.tasks.absorb(&snapshot.tasks, self.next_task_id);
        self.next_task_event_id = self.task_events.absorb(
            &snapshot.task_events,
            self.next_task_event_id,
        );
        proof {
            self.history.lemma_distinct();
            lemma_page_views(self.history@, 0);
            self.task_events.lemma_distinct();
            lemma_page_views(self.task_events@, 0);
        }
    }

    /// A snapshot of the store, stamped with the clock's reading.
    pub fn create_snapshot(&self) -> (snap: Snapshot)
        requires
            self.wf(),
        ensures
            exists|t: Timestamp| snap@ == snapshot_of(self@, t),
    {
        let t = now();
        self.create_snapshot_at(t)
    }

    /// A snapshot of the store, taken at `now`: copies of every record,
    /// audit entry and task event, in the order of the store.
    pub fn create_snapshot_at(&self, now: Timestamp) -> (snap: Snapshot)
        requires
            self.wf(),
        ensures
            snap@ == snapshot_of(self@, now),
    {
        let snap = Snapshot {
            version: Snapshot::CURRENT_VERSION,
            created_at: now,
            memories: self.memories.copy_rows(),
            entities: self.entities.copy_rows(),
            relationships: self.relationships.copy_rows(),
            episodes: self.episodes.copy_rows(),
            agents: self.agents.copy_rows(),
            history: self.history.export(),
            channels: Vec::new(),
            tasks: self.tasks.copy_rows(),
            task_events: self.task_events.export(),
        };
        assert(views(snap.channels@) =~= Seq::empty());
        snap
    }

    /// Copies of the current relationships that touch the entity `id`, in the
    /// order of the store.
    pub fn incident_to(&self, id: u64) -> (out: Vec<Relationship>)
        requires
            self.wf(),
        ensures
            views(out@) == incident(self@.relationships, id),
    {
        let mut out: Vec<Relationship> = Vec::new();
        let ghost rels = views(self.relationships@);
        let mut i: usize = 0;
        assert(views(out@) =~= incident(rels.take(0), id));
        while i < self.relationships.len()
            invariant
                i <= self.relationships@.len(),
                rels == views(self.relationships@),
                views(out@) == incident(rels.take(i as int), id),
            decreases self.relationships@.len() - i,
        {
            let rel = self.relationships.row(i);
            assert(rels.take(i + 1).drop_last() =~= rels.take(i as int));
            assert(rels.take(i + 1).last() == rel@);
            if rel.valid_until.is_none() && (rel.source_entity_id == id || rel.target_entity_id
                == id) {
                let copy = rel.clone();
                proof {
                    lemma_views_push(out@, copy);
                }
                out.push(copy);
            }
            i += 1;
        }
        assert(rels.take(self.relationships@.len() as int) =~= rels);
        out
    }

    /// Puts into `visited` every existing entity that a current relationship
    /// joins to the entity `a`.
    fn visit_neighbours(&self, visited: &mut Table<Entity>, a: u64)
        requires
            self.wf(),
            old(visited).wf(),
            stored(self@.entities, views(old(visited)@)),
        ensures
            final(visited).wf(),
            stored(self@.entities, views(final(visited)@)),
            views(final(visited)@).take(old(visited)@.len() as int) == views(old(visited)@),
            old(visited)@.len() <= final(visited)@.len(),
            forall|x: u64|
                linked(self@.relationships, a, x) && has_key(self@.entities, x) ==> has_key(
                    views(final(visited)@),
                    x,
                ),
            forall|i: int|
                old(visited)@.len() <= i < final(visited)@.len() ==> linked(
                    self@.relationships,
                    a,
                    (#[trigger] views(final(visited)@)[i]).id,
                ),
    {
        let ghost es = views(self.entities@);
        let ghost rels = views(self.relationships@);
        let ghost base = views(visited@);
        let mut j: usize = 0;
        assert(views(visited@).take(visited@.len() as int) =~= views(visited@));
        while j < self.relationships.len()
            invariant
                self.wf(),
                visited.wf(),
                j <= self.relationships@.len(),
                es == views(self.entities@),
                rels == views(self.relationships@),
                base == views(old(visited)@),
                stored(es, views(visited@)),
                base.len() <= visited@.len(),
                views(visited@).take(base.len() as int) == base,
                forall|r: int|
                    0 <= r < j && is_live(#[trigger] rels[r]) && touches(rels[r], a) && has_key(
                        es,
                        other_end(rels[r], a),
                    ) ==> has_key(views(visited@), other_end(rels[r], a)),
                forall|i: int|
                    base.len() <= i < visited@.len() ==> linked(
                        rels,
                        a,
                        (#[trigger] views(visited@)[i]).id,
                    ),
            decreases self.relationships@.len() - j,
        {
            let rel = self.relationships.row(j);
            assert(rels[j as int] == rel@);
            if rel.valid_until.is_none() && (rel.source_entity_id == a || rel.target_entity_id
                == a) {
                let other: u64 = if rel.source_entity_id == a {
                    rel.target_entity_id
                } else {
                    rel.source_entity_id
                };
                proof {
                    self.entities.lemma_distinct();
                    lemma_views_position(self.entities@, other);
                    lemma_position_some(es, other);
                    visited.lemma_distinct();
                    lemma_views_position(visited@, other);
                    lemma_position_some(views(visited@), other);
                }
                match self.entities.get(other) {
                    Some(e) => {
                        if visited.slot(other).is_none() {
                            let copy = e.clone();
                            let ghost before = views(visited@);
                            proof {
                                lemma_views_put(visited@, copy);
                                lemma_put_keeps_distinct(before, copy@);
                            }
                            visited.put(copy);
                            proof {
                                let after = views(visited@);
                                assert(after == before.push(copy@));
                                assert(after.take(base.len() as int) =~= before.take(
                                    base.len() as int,
                                ));
                                assert forall|i: int| 0 <= i < after.len() implies found(
                                    es,
                                    (#[trigger] after[i]).id,
                                ) == Some(after[i]) by {
                                    if i < before.len() {
                                        assert(after[i] == before[i]);
                                    }
                                }
                                assert forall|i: int|
                                    base.len() <= i < after.len() implies linked(
                                    rels,
                                    a,
                                    (#[trigger] after[i]).id,
                                ) by {
                                    if i < before.len() {
                                        assert(after[i] == before[i]);
                                    }
                                }
                            }
                        }
                    },
                    None => {},
                }
            }
            j += 1;
        }
        proof {
            assert forall|x: u64| linked(rels, a, x) && has_key(es, x) implies has_key(
                views(visited@),
                x,
            ) by {
                let r = choose|r: int|
                    0 <= r < rels.len() && is_live(#[trigger] rels[r]) && touches(rels[r], a)
                        && other_end(rels[r], a) == x;
                assert(has_key(views(visited@), other_end(rels[r], a)));
            }
        }
    }

    /// The entities that a walk of at most `max_depth` hops from the entity
    /// `start_entity_id` reaches, each once, with copies of the current
    /// relationships that touch it. A walk passes only through entities that
    /// exist.
    pub fn traverse(&self, start_entity_id: u64, max_depth: usize) -> (r: Vec<
        (Entity, Vec<Relationship>),
    >)
        requires
            self.wf(),
        ensures
            forall|i: int|
                0 <= i < r@.len() ==> found(self@.entities, (#[trigger] r@[i]).0@.id) == Some(
                    r@[i].0@,
                ) && views(r@[i].1@) == incident(self@.relationships, r@[i].0@.id),
            forall|i: int, j: int|
                0 <= i < r@.len() && 0 <= j < r@.len() && (#[trigger] r@[i]).0@.id == (
                #[trigger] r@[j]).0@.id ==> i == j,
            forall|id: u64|
                within(self@.entities, self@.relationships, start_entity_id, max_depth as nat).contains(
                    id,
                ) <==> (exists|i: int| 0 <= i < r@.len() && (#[trigger] r@[i]).0@.id == id),
    {
        let ghost es = views(self.entities@);
        let ghost rels = views(self.relationships@);
        let ghost start = start_entity_id;
        let mut visited: Table<Entity> = Table::new();
        proof {
            self.entities.lemma_distinct();
            lemma_views_position(self.entities@, start);
            lemma_position_some(es, start);
        }
        match self.entities.get(start_entity_id) {
            Some(e) => {
                let copy = e.clone();
                proof {
                    visited.lemma_distinct();
                    lemma_views_put(visited@, copy);
                    lemma_position_some(views(visited@), start);
                }
                visited.put(copy);
                assert(views(visited@)[0].id == start);
            },
            None => {},
        }
        let mut d: usize = 0;
        let mut level_start: usize = 0;
        let mut done = false;
        while d < max_depth && !done
            invariant
                self.wf(),
                visited.wf(),
                es == views(self.entities@),
                rels == views(self.relationships@),
                start == start_entity_id,
                d <= max_depth,
                level_start <= visited@.len(),
                stored(es, views(visited@)),
                forall|id: u64|
                    has_key(views(visited@), id) <==> within(es, rels, start, d as nat).contains(
                        id,
                    ),
                forall|i: int|
                    0 <= i < level_start ==> d > 0 && within(
                        es,
                        rels,
                        start,
                        (d - 1) as nat,
                    ).contains((#[trigger] views(visited@)[i]).id),
                done ==> forall|id: u64|
                    within(es, rels, start, max_depth as nat).contains(id) <==> within(
                        es,
                        rels,
                        start,
                        d as nat,
                    ).contains(id),
            decreases max_depth - d,
        {
            let level_end: usize = visited.len();
            let ghost base = views(visited@);
            let mut idx: usize = level_start;
            assert(views(visited@).take(level_end as int) =~= base);
            while idx < level_end
                invariant
                    self.wf(),
                    visited.wf(),
                    es == views(self.entities@),
                    rels == views(self.relationships@),
                    level_start <= idx <= level_end,
                    level_end == base.len(),
                    level_end <= visited@.len(),
                    stored(es, views(visited@)),
                    views(visited@).take(level_end as int) == base,
                    forall|id: u64| has_key(base, id) ==> within(es, rels, start, d as nat).contains(id),
                    forall|i: int|
                        level_end <= i < visited@.len() ==> next_to(
                            base,
                            rels,
                            (#[trigger] views(visited@)[i]).id,
                        ),
                    forall|k: int, x: u64|
                        level_start <= k < idx && linked(rels, (#[trigger] base[k]).id, x)
                            && has_key(es, x) ==> #[trigger] has_key(views(visited@), x),
                decreases level_end - idx,
            {
                let a: u64 = visited.row(idx).id;
                let ghost before = views(visited@);
                assert(before.take(level_end as int)[idx as int] == before[idx as int]);
                assert(base[idx as int].id == a);
                self.visit_neighbours(&mut visited, a);
                proof {
                    let after = views(visited@);
                    assert(after.take(level_end as int) =~= before.take(level_end as int)) by {
                        assert(after.take(before.len() as int) == before);
                        assert forall|i: int| 0 <= i < level_end implies after[i] == before[i] by {
                            assert(after.take(before.len() as int)[i] == after[i]);
                        }
                    }
                    assert forall|i: int| level_end <= i < after.len() implies next_to(
                        base,
                        rels,
                        (#[trigger] after[i]).id,
                    ) by {
                        if i < before.len() {
                            assert(after.take(before.len() as int)[i] == after[i]);
                            assert(after[i] == before[i]);
                        } else {
                            assert(linked(rels, a, after[i].id));
                            assert(has_key(base, a));
                        }
                    }
                    assert forall|k: int, x: u64|
                        level_start <= k < idx + 1 && linked(rels, (#[trigger] base[k]).id, x)
                            && has_key(es, x) implies #[trigger] has_key(after, x) by {
                        if k < idx {
                            assert(has_key(before, x));
                            let i = choose|i: int| 0 <= i < before.len() && (#[trigger] before[i]).key() == x;
                            assert(after.take(before.len() as int)[i] == after[i]);
                            assert(after[i].key() == x);
                        }
                    }
                }
                idx += 1;
            }
            proof {
                let after = views(visited@);
                let dn = d as nat;
                assert forall|id: u64| has_key(after, id) <==> within(
                    es,
                    rels,
                    start,
                    dn + 1,
                ).contains(id) by {
                    if has_key(after, id) {
                        let i = choose|i: int| 0 <= i < after.len() && (#[trigger] after[i]).key() == id;
                        assert(found(es, after[i].id) == Some(after[i]));
                        lemma_position_some(es, id);
                        if i < level_end {
                            assert(after.take(level_end as int)[i] == after[i]);
                            assert(base[i].key() == id);
                            assert(has_key(base, id));
                            lemma_within_grows(es, rels, start, dn, id);
                        } else {
                            assert(next_to(base, rels, after[i].id));
                            let a2 = choose|a2: u64| has_key(base, a2) && linked(rels, a2, after[i].id);
                            assert(within(es, rels, start, dn).contains(a2));
                            assert(has_key(es, id));
                        }
                    }
                    if within(es, rels, start, dn + 1).contains(id) {
                        if within(es, rels, start, dn).contains(id) {
                            assert(has_key(base, id));
                            let i = choose|i: int| 0 <= i < base.len() && (#[trigger] base[i]).key() == id;
                            assert(after.take(level_end as int)[i] == after[i]);
                            assert(after[i].key() == id);
                        } else {
                            let a2 = choose|a2: u64|
                                within(es, rels, start, dn).contains(a2) && linked(rels, a2, id);
                            assert(has_key(base, a2));
                            let k = choose|k: int| 0 <= k < base.len() && (#[trigger] base[k]).key() == a2;
                            if k < level_start {
                                assert(within(es, rels, start, (dn - 1) as nat).contains(a2));
                                assert(within(es, rels, start, dn).contains(id));
                            } else {
                                assert(linked(rels, base[k].id, id));
                                assert(has_key(after, id));
                            }
                        }
                    }
                }
                assert forall|i: int| 0 <= i < level_end implies within(
                    es,
                    rels,
                    start,
                    dn,
                ).contains((#[trigger] after[i]).id) by {
                    assert(after.take(level_end as int)[i] == after[i]);
                    assert(base[i].key() == after[i].id);
                    assert(has_key(base, after[i].id));
                }
            }
            if visited.len() == level_end {
                done = true;
                proof {
                    let dn = d as nat;
                    assert forall|id: u64|
                        within(es, rels, start, dn + 1).contains(id) implies within(
                        es,
                        rels,
                        start,
                        dn,
                    ).contains(id) by {
                        assert(has_key(views(visited@), id));
                        assert(views(visited@) =~= base);
                    }
                    lemma_within_fixpoint(es, rels, start, dn, max_depth as nat);
                    lemma_within_fixpoint(es, rels, start, dn, dn + 1);
                }
            }
            level_start = level_end;
            d = d + 1;
        }
        let mut out: Vec<(Entity, Vec<Relationship>)> = Vec::new();
        let mut i: usize = 0;
        while i < visited.len()
            invariant
                self.wf(),
                visited.wf(),
                es == views(self.entities@),
                rels == views(self.relationships@),
                i <= visited@.len(),
                out@.len() == i,
                stored(es, views(visited@)),
                forall|k: int|
                    0 <= k < i ==> (#[trigger] out@[k]).0@ == views(visited@)[k] && views(
                        out@[k].1@,
                    ) == incident(rels, out@[k].0@.id),
            decreases visited@.len() - i,
        {
            let e = visited.row(i);
            let copy = e.clone();
            let touching = self.incident_to(e.id);
            out.push((copy, touching));
            i += 1;
        }
        proof {
            let vs = views(visited@);
            visited.lemma_distinct();
            lemma_views_position(visited@, 0);
            assert forall|id: u64|
                within(es, rels, start, max_depth as nat).contains(id) <==> (exists|i: int|
                    0 <= i < out@.len() && (#[trigger] out@[i]).0@.id == id) by {
                if has_key(vs, id) {
                    let k = choose|k: int| 0 <= k < vs.len() && (#[trigger] vs[k]).key() == id;
                    assert(out@[k].0@.id == id);
                }
                if exists|i: int| 0 <= i < out@.len() && (#[trigger] out@[i]).0@.id == id {
                    let k = choose|k: int| 0 <= k < out@.len() && (#[trigger] out@[k]).0@.id == id;
                    assert(vs[k].key() == id);
                }
            }
            assert forall|i: int, j: int|
                0 <= i < out@.len() && 0 <= j < out@.len() && (#[trigger] out@[i]).0@.id == (
                #[trigger] out@[j]).0@.id implies i == j by {
                assert(vs[i].key() == vs[j].key());
            }
        }
        out
    }

    /// Hybrid search: the keyword results, each blended with the similarity
    /// of its memory where `vector_scores` names one, joined by the memories
    /// that only `vector_scores` names, ranked anew, at most `req.limit` of
    /// them. `vector_scores` pairs memory ids with similarities in
    /// millionths.
    pub fn search_hybrid(&self, req: &SearchRequest, vector_scores: &Vec<(u64, i64)>) -> (r: Vec<
        SearchResult,
    >)
        requires
            self.wf(),
        ensures
            views(r@) == hybrid_search(self@.memories, req@, vector_scores@),
    {
        proof {
            self.memories.lemma_distinct();
            lemma_views_position(self.memories@, 0);
        }
        hybrid_search_table(&self.memories, req, vector_scores)
    }

    /// Keyword search: the candidates among the current memories, ranked by
    /// score, at most `req.limit` of them.
    pub fn search(&self, req: &SearchRequest) -> (r: Vec<SearchResult>)
        requires
            self.wf(),
        ensures
            views(r@) == keyword_search(self@.memories, req@),
    {
        search_table(&self.memories, req)
    }
}

/// Whether a record scoped to `have` belongs to the scope `want`, where one is
/// named.
pub fn belongs_to(have: &Option<String>, want: Option<&str>) -> (r: bool)
    ensures
        r == (opt_str(want) is Some ==> opt_text(*have) == opt_str(want)),
{
    match want {
        None => true,
        Some(w) => match have {
            Some(h) => same_text(h.as_str(), w),
            None => false,
        },
    }
}

/// Some current relationship joins `x` to one of `rows`.
pub open spec fn next_to(rows: Seq<EntityView>, rels: Seq<RelationshipView>, x: u64) -> bool {
    exists|a: u64| has_key(rows, a) && linked(rels, a, x)
}

/// Every row is an entity of the store, as the store holds it.
pub open spec fn stored(es: Seq<EntityView>, rows: Seq<EntityView>) -> bool {
    forall|i: int| 0 <= i < rows.len() ==> found(es, (#[trigger] rows[i]).id) == Some(rows[i])
}

/// The state of an engine that holds nothing yet.
pub open spec fn initial_state() -> EngineState {
    EngineState {
        memories: Seq::empty(),
        history: Seq::empty(),
        entities: Seq::empty(),
        relationships: Seq::empty(),
        episodes: Seq::empty(),
        agents: Seq::empty(),
        tasks: Seq::empty(),
        task_events: Seq::empty(),
        next_memory_id: 1,
        next_entity_id: 1,
        next_relationship_id: 1,
        next_episode_id: 1,
        next_history_id: 1,
        next_task_id: 1,
        next_task_event_id: 1,
        replication: false,
        outbox: Seq::empty(),
    }
}

} // verus!
