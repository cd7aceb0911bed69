//! Snapshots of the whole store, where they are kept, and the events that
//! tell a replica what changed.

use crate::clock::Timestamp;
use crate::ledger::{group_keys_below, group_pages, groups_below, Page};
use crate::table::{all_below, keys_below};
use crate::types::{
    views, Agent, AgentView, Channel, ChannelView, Entity, EntityView, Episode, EpisodeView, Memory,
    MemoryHistory, MemoryHistoryView, MemoryView, Relationship, RelationshipView, Task, TaskEvent,
    TaskEventView, TaskView,
};
use vstd::prelude::*;
use vstd::string::*;

verus! {

/// An image of every store, as it is written to disk.
#[derive(Debug)]
pub struct Snapshot {
    pub version: u32,
    pub created_at: Timestamp,
    pub memories: Vec<Memory>,
    pub entities: Vec<Entity>,
    pub relationships: Vec<Relationship>,
    pub episodes: Vec<Episode>,
    pub agents: Vec<Agent>,
    pub history: Vec<(u64, Vec<MemoryHistory>)>,
    pub channels: Vec<Channel>,
    pub tasks: Vec<Task>,
    pub task_events: Vec<(u64, Vec<TaskEvent>)>,
}

/// What a [`Snapshot`] holds, as plain values.
pub struct SnapshotView {
    pub version: u32,
    pub created_at: Timestamp,
    pub memories: Seq<MemoryView>,
    pub entities: Seq<EntityView>,
    pub relationships: Seq<RelationshipView>,
    pub episodes: Seq<EpisodeView>,
    pub agents: Seq<AgentView>,
    pub history: Seq<Page<MemoryHistoryView>>,
    pub channels: Seq<ChannelView>,
    pub tasks: Seq<TaskView>,
    pub task_events: Seq<Page<TaskEventView>>,
}

impl View for Snapshot {
    type V = SnapshotView;

    open spec fn view(&self) -> SnapshotView {
        SnapshotView {
            version: self.version,
            created_at: self.created_at,
            memories: views(self.memories@),
            entities: views(self.entities@),
            relationships: views(self.relationships@),
            episodes: views(self.episodes@),
            agents: views(self.agents@),
            history: group_pages(self.history@),
            channels: views(self.channels@),
            tasks: views(self.tasks@),
            task_events: group_pages(self.task_events@),
        }
    }
}

/// No id in the snapshot is the largest integer, so that an id can follow
/// each.
pub open spec fn restorable(s: SnapshotView) -> bool {
    &&& keys_below(s.memories, u64::MAX)
    &&& keys_below(s.entities, u64::MAX)
    &&& keys_below(s.relationships, u64::MAX)
    &&& keys_below(s.episodes, u64::MAX)
    &&& keys_below(s.tasks, u64::MAX)
    &&& group_keys_below(s.history, u64::MAX)
    &&& group_keys_below(s.task_events, u64::MAX)
}

impl Snapshot {
    /// The version that snapshots are written with.
    pub const CURRENT_VERSION: u32 = 2;

    /// Whether an id can follow each id of the snapshot.
    pub fn is_restorable(&self) -> (r: bool)
        ensures
            r == restorable(self@),
    {
        all_below(&self.memories, u64::MAX) && all_below(&self.entities, u64::MAX) && all_below(
            &self.relationships,
            u64::MAX,
        ) && all_below(&self.episodes, u64::MAX) && all_below(&self.tasks, u64::MAX)
            && groups_below(&self.history, u64::MAX) && groups_below(&self.task_events, u64::MAX)
    }
}

/// Says where under a data directory the snapshot is kept.
#[derive(Debug)]
pub struct SnapshotManager {
    data_dir: String,
}

/// The path of `name` under the directory `dir`.
pub open spec fn path_under(dir: Seq<char>, name: Seq<char>) -> Seq<char> {
    dir + "/"@ + name
}

impl SnapshotManager {
    /// The data directory.
    pub closed spec fn dir(&self) -> Seq<char> {
        self.data_dir@
    }

    /// A manager for the snapshot under `data_dir`.
    pub fn new(data_dir: &str) -> (m: Self)
        ensures
            m.dir() == data_dir@,
    {
        SnapshotManager { data_dir: data_dir.to_owned() }
    }

    /// The data directory.
    pub fn data_dir(&self) -> (d: &str)
        ensures
            d@ == self.dir(),
    {
        self.data_dir.as_str()
    }

    /// The file that holds the snapshot.
    pub fn snapshot_path(&self) -> (p: String)
        ensures
            p@ == path_under(self.dir(), "hivemind-snapshot.json"@),
    {
        self.data_dir.clone().concat("/").concat("hivemind-snapshot.json")
    }

    /// The scratch file a snapshot is written to before it replaces the
    /// snapshot file.
    pub fn snapshot_tmp_path(&self) -> (p: String)
        ensures
            p@ == path_under(self.dir(), "hivemind-snapshot.json.tmp"@),
    {
        self.data_dir.clone().concat("/").concat("hivemind-snapshot.json.tmp")
    }
}

/// A change of the store, as it is told to a replica.
#[derive(Debug)]
pub enum ReplicationEvent {
    MemoryAdded { memory: Memory },
    MemoryUpdated { memory: Memory },
    MemoryInvalidated { memory_id: u64, reason: String },
    EntityAdded { entity: Entity },
    RelationshipAdded { relationship: Relationship },
    AgentRegistered { agent: Agent },
    ChannelCreated { channel: Channel },
    TaskCreated { task: Task },
    TaskClaimed { task: Task },
    TaskCompleted { task: Task },
    TaskFailed { task: Task },
}

/// What a [`ReplicationEvent`] holds, as plain values.
pub enum ReplicationEventView {
    MemoryAdded { memory: MemoryView },
    MemoryUpdated { memory: MemoryView },
    MemoryInvalidated { memory_id: u64, reason: Seq<char> },
    EntityAdded { entity: EntityView },
    RelationshipAdded { relationship: RelationshipView },
    AgentRegistered { agent: AgentView },
    ChannelCreated { channel: crate::types::ChannelView },
    TaskCreated { task: TaskView },
    TaskClaimed { task: TaskView },
    TaskCompleted { task: TaskView },
    TaskFailed { task: TaskView },
}

impl View for ReplicationEvent {
    type V = ReplicationEventView;

    open spec fn view(&self) -> ReplicationEventView {
        match *self {
            ReplicationEvent::MemoryAdded { memory } => ReplicationEventView::MemoryAdded {
                memory: memory@,
            },
            ReplicationEvent::MemoryUpdated { memory } => ReplicationEventView::MemoryUpdated {
                memory: memory@,
            },
            ReplicationEvent::MemoryInvalidated {
                memory_id,
                reason,
            } => ReplicationEventView::MemoryInvalidated { memory_id, reason: reason@ },
            ReplicationEvent::EntityAdded { entity } => ReplicationEventView::EntityAdded {
                entity: entity@,
            },
            ReplicationEvent::RelationshipAdded {
                relationship,
            } => ReplicationEventView::RelationshipAdded { relationship: relationship@ },
            ReplicationEvent::AgentRegistered { agent } => ReplicationEventView::AgentRegistered {
                agent: agent@,
            },
            ReplicationEvent::ChannelCreated { channel } => ReplicationEventView::ChannelCreated {
                channel: channel@,
            },
            ReplicationEvent::TaskCreated { task } => ReplicationEventView::TaskCreated {
                task: task@,
            },
            ReplicationEvent::TaskClaimed { task } => ReplicationEventView::TaskClaimed {
                task: task@,
            },
            ReplicationEvent::TaskCompleted { task } => ReplicationEventView::TaskCompleted {
                task: task@,
            },
            ReplicationEvent::TaskFailed { task } => ReplicationEventView::TaskFailed {
                task: task@,
            },
        }
    }
}

} // verus!
