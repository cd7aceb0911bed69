//! The records the store holds, the requests that create them, and the
//! messages sent to subscribers. Every record has a view that states what it
//! holds as plain values; contracts compare records by their views.

use crate::clock::Timestamp;
use crate::directory::{HasName, Named};
use crate::table::{HasKey, Keyed, Replica};
use crate::text::{copy_opt_text, copy_texts, opt_text, texts};
use vstd::prelude::*;

verus! {

/// One million: confidences, weights and scores are counted in millionths.
pub const MILLION: u32 = 1_000_000;

/// The kind of knowledge a memory holds.
#[derive(Debug, Clone, Copy, PartialEq, Eq, Structural)]
pub enum MemoryType {
    Fact,
    Episodic,
    Procedural,
    Semantic,
}

/// What an audit entry records.
#[derive(Debug, Clone, Copy, PartialEq, Eq, Structural)]
pub enum Operation {
    Add,
    Update,
    Invalidate,
    Merge,
}

/// Who may see a channel.
#[derive(Debug, Clone, Copy, PartialEq, Eq, Structural)]
pub enum ChannelType {
    Public,
    Private,
    Agent,
    User,
}

/// Whether an agent is reachable.
#[derive(Debug, Clone, Copy, PartialEq, Eq, Structural)]
pub enum AgentStatus {
    Online,
    Offline,
    Busy,
}

/// Where a task stands in its life cycle.
#[derive(Debug, Clone, Copy, PartialEq, Eq, Structural)]
pub enum TaskStatus {
    Pending,
    Claimed,
    InProgress,
    Completed,
    Failed,
    Cancelled,
}

/// What a task event records.
#[derive(Debug, Clone, Copy, PartialEq, Eq, Structural)]
pub enum TaskEventType {
    Created,
    Claimed,
    Started,
    Progress,
    Completed,
    Failed,
    Cancelled,
    Reassigned,
}

/// The views of a list of records.
pub open spec fn views<T: View>(s: Seq<T>) -> Seq<T::V> {
    s.map_values(|x: T| x@)
}

/// The views of a list that grew by one record are the views of the list,
/// grown by the record's view.
pub proof fn lemma_views_push<T: View>(s: Seq<T>, x: T)
    ensures
        views(s.push(x)) == views(s).push(x@),
{
    assert(views(s.push(x)) =~= views(s).push(x@));
}

/// A copy of a list of ids.
pub fn copy_ids(list: &Vec<u64>) -> (out: Vec<u64>)
    ensures
        out@ == list@,
{
    let mut out: Vec<u64> = Vec::new();
    let mut i: usize = 0;
    while i < list.len()
        invariant
            i <= list.len(),
            out@ == list@.take(i as int),
        decreases list.len() - i,
    {
        out.push(list[i]);
        i += 1;
    }
    out
}

/// A piece of timestamped, scoped text knowledge with tags and a validity window.
#[derive(Debug)]
pub struct Memory {
    pub id: u64,
    pub content: String,
    pub memory_type: MemoryType,
    pub agent_id: Option<String>,
    pub user_id: Option<String>,
    pub session_id: Option<String>,
    pub confidence: u32,
    pub tags: Vec<String>,
    pub created_at: Timestamp,
    pub updated_at: Timestamp,
    pub valid_from: Timestamp,
    pub valid_until: Option<Timestamp>,
    pub source: String,
    pub metadata: String,
}

/// What a [`Memory`] holds, as plain values.
pub struct MemoryView {
    pub id: u64,
    pub content: Seq<char>,
    pub memory_type: MemoryType,
    pub agent_id: Option<Seq<char>>,
    pub user_id: Option<Seq<char>>,
    pub session_id: Option<Seq<char>>,
    pub confidence: u32,
    pub tags: Seq<Seq<char>>,
    pub created_at: Timestamp,
    pub updated_at: Timestamp,
    pub valid_from: Timestamp,
    pub valid_until: Option<Timestamp>,
    pub source: Seq<char>,
    pub metadata: Seq<char>,
}

impl View for Memory {
    type V = MemoryView;

    open spec fn view(&self) -> MemoryView {
        MemoryView {
            id: self.id,
            content: self.content@,
            memory_type: self.memory_type,
            agent_id: opt_text(self.agent_id),
            user_id: opt_text(self.user_id),
            session_id: opt_text(self.session_id),
            confidence: self.confidence,
            tags: texts(self.tags@),
            created_at: self.created_at,
            updated_at: self.updated_at,
            valid_from: self.valid_from,
            valid_until: self.valid_until,
            source: self.source@,
            metadata: self.metadata@,
        }
    }
}

impl Clone for Memory {
    fn clone(&self) -> (out: Self)
        ensures
            out@ == self@,
    {
        Memory {
            id: self.id,
            content: self.content.clone(),
            memory_type: self.memory_type,
            agent_id: copy_opt_text(&self.agent_id),
            user_id: copy_opt_text(&self.user_id),
            session_id: copy_opt_text(&self.session_id),
            confidence: self.confidence,
            tags: copy_texts(&self.tags),
            created_at: self.created_at,
            updated_at: self.updated_at,
            valid_from: self.valid_from,
            valid_until: self.valid_until,
            source: self.source.clone(),
            metadata: self.metadata.clone(),
        }
    }
}

/// One entry of a memory's audit trail.
#[derive(Debug)]
pub struct MemoryHistory {
    pub id: u64,
    pub memory_id: u64,
    pub operation: Operation,
    pub old_content: Option<String>,
    pub new_content: String,
    pub reason: String,
    pub changed_by: String,
    pub timestamp: Timestamp,
}

/// What a [`MemoryHistory`] holds, as plain values.
pub struct MemoryHistoryView {
    pub id: u64,
    pub memory_id: u64,
    pub operation: Operation,
    pub old_content: Option<Seq<char>>,
    pub new_content: Seq<char>,
    pub reason: Seq<char>,
    pub changed_by: Seq<char>,
    pub timestamp: Timestamp,
}

impl View for MemoryHistory {
    type V = MemoryHistoryView;

    open spec fn view(&self) -> MemoryHistoryView {
        MemoryHistoryView {
            id: self.id,
            memory_id: self.memory_id,
            operation: self.operation,
            old_content: opt_text(self.old_content),
            new_content: self.new_content@,
            reason: self.reason@,
            changed_by: self.changed_by@,
            timestamp: self.timestamp,
        }
    }
}

impl Clone for MemoryHistory {
    fn clone(&self) -> (out: Self)
        ensures
            out@ == self@,
    {
        MemoryHistory {
            id: self.id,
            memory_id: self.memory_id,
            operation: self.operation,
            old_content: copy_opt_text(&self.old_content),
            new_content: self.new_content.clone(),
            reason: self.reason.clone(),
            changed_by: self.changed_by.clone(),
            timestamp: self.timestamp,
        }
    }
}

/// A node of the knowledge graph.
#[derive(Debug)]
pub struct Entity {
    pub id: u64,
    pub name: String,
    pub entity_type: String,
    pub description: Option<String>,
    pub agent_id: Option<String>,
    pub created_at: Timestamp,
    pub updated_at: Timestamp,
    pub metadata: String,
}

/// What a [`Entity`] holds, as plain values.
pub struct EntityView {
    pub id: u64,
    pub name: Seq<char>,
    pub entity_type: Seq<char>,
    pub description: Option<Seq<char>>,
    pub agent_id: Option<Seq<char>>,
    pub created_at: Timestamp,
    pub updated_at: Timestamp,
    pub metadata: Seq<char>,
}

impl View for Entity {
    type V = EntityView;

    open spec fn view(&self) -> EntityView {
        EntityView {
            id: self.id,
            name: self.name@,
            entity_type: self.entity_type@,
            description: opt_text(self.description),
            agent_id: opt_text(self.agent_id),
            created_at: self.created_at,
            updated_at: self.updated_at,
            metadata: self.metadata@,
        }
    }
}

impl Clone for Entity {
    fn clone(&self) -> (out: Self)
        ensures
            out@ == self@,
    {
        Entity {
            id: self.id,
            name: self.name.clone(),
            entity_type: self.entity_type.clone(),
            description: copy_opt_text(&self.description),
            agent_id: copy_opt_text(&self.agent_id),
            created_at: self.created_at,
            updated_at: self.updated_at,
            metadata: self.metadata.clone(),
        }
    }
}

/// A directed, typed, weighted edge of the knowledge graph.
#[derive(Debug)]
pub struct Relationship {
    pub id: u64,
    pub source_entity_id: u64,
    pub target_entity_id: u64,
    pub relation_type: String,
    pub description: Option<String>,
    pub weight: u32,
    pub valid_from: Timestamp,
    pub valid_until: Option<Timestamp>,
    pub created_by: String,
    pub metadata: String,
}

/// What a [`Relationship`] holds, as plain values.
pub struct RelationshipView {
    pub id: u64,
    pub source_entity_id: u64,
    pub target_entity_id: u64,
    pub relation_type: Seq<char>,
    pub description: Option<Seq<char>>,
    pub weight: u32,
    pub valid_from: Timestamp,
    pub valid_until: Option<Timestamp>,
    pub created_by: Seq<char>,
    pub metadata: Seq<char>,
}

impl View for Relationship {
    type V = RelationshipView;

    open spec fn view(&self) -> RelationshipView {
        RelationshipView {
            id: self.id,
            source_entity_id: self.source_entity_id,
            target_entity_id: self.target_entity_id,
            relation_type: self.relation_type@,
            description: opt_text(self.description),
            weight: self.weight,
            valid_from: self.valid_from,
            valid_until: self.valid_until,
            created_by: self.created_by@,
            metadata: self.metadata@,
        }
    }
}

impl Clone for Relationship {
    fn clone(&self) -> (out: Self)
        ensures
            out@ == self@,
    {
        Relationship {
            id: self.id,
            source_entity_id: self.source_entity_id,
            target_entity_id: self.target_entity_id,
            relation_type: self.relation_type.clone(),
            description: copy_opt_text(&self.description),
            weight: self.weight,
            valid_from: self.valid_from,
            valid_until: self.valid_until,
            created_by: self.created_by.clone(),
            metadata: self.metadata.clone(),
        }
    }
}

/// A summary of one session over a time interval.
#[derive(Debug)]
pub struct Episode {
    pub id: u64,
    pub agent_id: String,
    pub user_id: Option<String>,
    pub session_id: String,
    pub summary: String,
    pub key_decisions: Vec<String>,
    pub tools_used: Vec<String>,
    pub outcome: String,
    pub started_at: Timestamp,
    pub ended_at: Timestamp,
    pub metadata: String,
}

/// What a [`Episode`] holds, as plain values.
pub struct EpisodeView {
    pub id: u64,
    pub agent_id: Seq<char>,
    pub user_id: Option<Seq<char>>,
    pub session_id: Seq<char>,
    pub summary: Seq<char>,
    pub key_decisions: Seq<Seq<char>>,
    pub tools_used: Seq<Seq<char>>,
    pub outcome: Seq<char>,
    pub started_at: Timestamp,
    pub ended_at: Timestamp,
    pub metadata: Seq<char>,
}

impl View for Episode {
    type V = EpisodeView;

    open spec fn view(&self) -> EpisodeView {
        EpisodeView {
            id: self.id,
            agent_id: self.agent_id@,
            user_id: opt_text(self.user_id),
            session_id: self.session_id@,
            summary: self.summary@,
            key_decisions: texts(self.key_decisions@),
            tools_used: texts(self.tools_used@),
            outcome: self.outcome@,
            started_at: self.started_at,
            ended_at: self.ended_at,
            metadata: self.metadata@,
        }
    }
}

impl Clone for Episode {
    fn clone(&self) -> (out: Self)
        ensures
            out@ == self@,
    {
        Episode {
            id: self.id,
            agent_id: self.agent_id.clone(),
            user_id: copy_opt_text(&self.user_id),
            session_id: self.session_id.clone(),
            summary: self.summary.clone(),
            key_decisions: copy_texts(&self.key_decisions),
            tools_used: copy_texts(&self.tools_used),
            outcome: self.outcome.clone(),
            started_at: self.started_at,
            ended_at: self.ended_at,
            metadata: self.metadata.clone(),
        }
    }
}

/// A named publish/subscribe channel.
#[derive(Debug)]
pub struct Channel {
    pub id: u64,
    pub name: String,
    pub description: Option<String>,
    pub channel_type: ChannelType,
    pub created_by: String,
    pub created_at: Timestamp,
}

/// What a [`Channel`] holds, as plain values.
pub struct ChannelView {
    pub id: u64,
    pub name: Seq<char>,
    pub description: Option<Seq<char>>,
    pub channel_type: ChannelType,
    pub created_by: Seq<char>,
    pub created_at: Timestamp,
}

impl View for Channel {
    type V = ChannelView;

    open spec fn view(&self) -> ChannelView {
        ChannelView {
            id: self.id,
            name: self.name@,
            description: opt_text(self.description),
            channel_type: self.channel_type,
            created_by: self.created_by@,
            created_at: self.created_at,
        }
    }
}

impl Clone for Channel {
    fn clone(&self) -> (out: Self)
        ensures
            out@ == self@,
    {
        Channel {
            id: self.id,
            name: self.name.clone(),
            description: copy_opt_text(&self.description),
            channel_type: self.channel_type,
            created_by: self.created_by.clone(),
            created_at: self.created_at,
        }
    }
}

/// A registered agent, keyed by the id its client chose.
#[derive(Debug)]
pub struct Agent {
    pub agent_id: String,
    pub name: String,
    pub agent_type: String,
    pub capabilities: Vec<String>,
    pub status: AgentStatus,
    pub last_seen: Timestamp,
    pub memory_count: u64,
    pub metadata: String,
}

/// What a [`Agent`] holds, as plain values.
pub struct AgentView {
    pub agent_id: Seq<char>,
    pub name: Seq<char>,
    pub agent_type: Seq<char>,
    pub capabilities: Seq<Seq<char>>,
    pub status: AgentStatus,
    pub last_seen: Timestamp,
    pub memory_count: u64,
    pub metadata: Seq<char>,
}

impl View for Agent {
    type V = AgentView;

    open spec fn view(&self) -> AgentView {
        AgentView {
            agent_id: self.agent_id@,
            name: self.name@,
            agent_type: self.agent_type@,
            capabilities: texts(self.capabilities@),
            status: self.status,
            last_seen: self.last_seen,
            memory_count: self.memory_count,
            metadata: self.metadata@,
        }
    }
}

impl Clone for Agent {
    fn clone(&self) -> (out: Self)
        ensures
            out@ == self@,
    {
        Agent {
            agent_id: self.agent_id.clone(),
            name: self.name.clone(),
            agent_type: self.agent_type.clone(),
            capabilities: copy_texts(&self.capabilities),
            status: self.status,
            last_seen: self.last_seen,
            memory_count: self.memory_count,
            metadata: self.metadata.clone(),
        }
    }
}

/// A unit of work that agents claim, start and finish.
#[derive(Debug)]
pub struct Task {
    pub id: u64,
    pub title: String,
    pub description: String,
    pub status: TaskStatus,
    pub priority: u32,
    pub required_capabilities: Vec<String>,
    pub assigned_agent: Option<String>,
    pub created_by: String,
    pub dependencies: Vec<u64>,
    pub result: Option<String>,
    pub created_at: Timestamp,
    pub updated_at: Timestamp,
    pub deadline: Option<String>,
    pub metadata: String,
}

/// What a [`Task`] holds, as plain values.
pub struct TaskView {
    pub id: u64,
    pub title: Seq<char>,
    pub description: Seq<char>,
    pub status: TaskStatus,
    pub priority: u32,
    pub required_capabilities: Seq<Seq<char>>,
    pub assigned_agent: Option<Seq<char>>,
    pub created_by: Seq<char>,
    pub dependencies: Seq<u64>,
    pub result: Option<Seq<char>>,
    pub created_at: Timestamp,
    pub updated_at: Timestamp,
    pub deadline: Option<Seq<char>>,
    pub metadata: Seq<char>,
}

impl View for Task {
    type V = TaskView;

    open spec fn view(&self) -> TaskView {
        TaskView {
            id: self.id,
            title: self.title@,
            description: self.description@,
            status: self.status,
            priority: self.priority,
            required_capabilities: texts(self.required_capabilities@),
            assigned_agent: opt_text(self.assigned_agent),
            created_by: self.created_by@,
            dependencies: self.dependencies@,
            result: opt_text(self.result),
            created_at: self.created_at,
            updated_at: self.updated_at,
            deadline: opt_text(self.deadline),
            metadata: self.metadata@,
        }
    }
}

impl Clone for Task {
    fn clone(&self) -> (out: Self)
        ensures
            out@ == self@,
    {
        Task {
            id: self.id,
            title: self.title.clone(),
            description: self.description.clone(),
            status: self.status,
            priority: self.priority,
            required_capabilities: copy_texts(&self.required_capabilities),
            assigned_agent: copy_opt_text(&self.assigned_agent),
            created_by: self.created_by.clone(),
            dependencies: copy_ids(&self.dependencies),
            result: copy_opt_text(&self.result),
            created_at: self.created_at,
            updated_at: self.updated_at,
            deadline: copy_opt_text(&self.deadline),
            metadata: self.metadata.clone(),
        }
    }
}

/// One entry of a task's event log.
#[derive(Debug)]
pub struct TaskEvent {
    pub id: u64,
    pub task_id: u64,
    pub event_type: TaskEventType,
    pub agent_id: Option<String>,
    pub details: Option<String>,
    pub timestamp: Timestamp,
}

/// What a [`TaskEvent`] holds, as plain values.
pub struct TaskEventView {
    pub id: u64,
    pub task_id: u64,
    pub event_type: TaskEventType,
    pub agent_id: Option<Seq<char>>,
    pub details: Option<Seq<char>>,
    pub timestamp: Timestamp,
}

impl View for TaskEvent {
    type V = TaskEventView;

    open spec fn view(&self) -> TaskEventView {
        TaskEventView {
            id: self.id,
            task_id: self.task_id,
            event_type: self.event_type,
            agent_id: opt_text(self.agent_id),
            details: opt_text(self.details),
            timestamp: self.timestamp,
        }
    }
}

impl Clone for TaskEvent {
    fn clone(&self) -> (out: Self)
        ensures
            out@ == self@,
    {
        TaskEvent {
            id: self.id,
            task_id: self.task_id,
            event_type: self.event_type,
            agent_id: copy_opt_text(&self.agent_id),
            details: copy_opt_text(&self.details),
            timestamp: self.timestamp,
        }
    }
}


/// What a search asks for.
#[derive(Debug)]
pub struct SearchRequest {
    pub query: String,
    pub agent_id: Option<String>,
    pub user_id: Option<String>,
    pub tags: Vec<String>,
    pub limit: usize,
    pub include_graph: bool,
}

/// The number of results a search returns when the request names none.
pub fn default_limit() -> (n: usize)
    ensures
        n == 10,
{
    10
}

/// One hit of a search: the memory and its score in millionths.
#[derive(Debug)]
pub struct SearchResult {
    pub memory: Memory,
    pub score: i64,
    pub related_entities: Vec<Entity>,
    pub related_relationships: Vec<Relationship>,
}

/// What a [`SearchResult`] holds, as plain values.
pub struct SearchResultView {
    pub memory: MemoryView,
    pub score: i64,
    pub related_entities: Seq<EntityView>,
    pub related_relationships: Seq<RelationshipView>,
}

impl View for SearchResult {
    type V = SearchResultView;

    open spec fn view(&self) -> SearchResultView {
        SearchResultView {
            memory: self.memory@,
            score: self.score,
            related_entities: views(self.related_entities@),
            related_relationships: views(self.related_relationships@),
        }
    }
}

/// What `add_memory` takes.
#[derive(Debug)]
pub struct AddMemoryRequest {
    pub content: String,
    pub memory_type: MemoryType,
    pub agent_id: Option<String>,
    pub user_id: Option<String>,
    pub session_id: Option<String>,
    pub tags: Vec<String>,
    pub metadata: String,
}

/// What a [`AddMemoryRequest`] holds, as plain values.
pub struct AddMemoryRequestView {
    pub content: Seq<char>,
    pub memory_type: MemoryType,
    pub agent_id: Option<Seq<char>>,
    pub user_id: Option<Seq<char>>,
    pub session_id: Option<Seq<char>>,
    pub tags: Seq<Seq<char>>,
    pub metadata: Seq<char>,
}

impl View for AddMemoryRequest {
    type V = AddMemoryRequestView;

    open spec fn view(&self) -> AddMemoryRequestView {
        AddMemoryRequestView {
            content: self.content@,
            memory_type: self.memory_type,
            agent_id: opt_text(self.agent_id),
            user_id: opt_text(self.user_id),
            session_id: opt_text(self.session_id),
            tags: texts(self.tags@),
            metadata: self.metadata@,
        }
    }
}

/// The kind of a memory whose request names none.
pub fn default_memory_type() -> (t: MemoryType)
    ensures
        t == MemoryType::Fact,
{
    MemoryType::Fact
}

/// What `update_memory` takes: each field that is present replaces the
/// memory's.
#[derive(Debug)]
pub struct UpdateMemoryRequest {
    pub content: Option<String>,
    pub tags: Option<Vec<String>>,
    pub confidence: Option<u32>,
    pub metadata: Option<String>,
}

/// What a [`UpdateMemoryRequest`] holds, as plain values.
pub struct UpdateMemoryRequestView {
    pub content: Option<Seq<char>>,
    pub tags: Option<Seq<Seq<char>>>,
    pub confidence: Option<u32>,
    pub metadata: Option<Seq<char>>,
}

impl View for UpdateMemoryRequest {
    type V = UpdateMemoryRequestView;

    open spec fn view(&self) -> UpdateMemoryRequestView {
        UpdateMemoryRequestView {
            content: opt_text(self.content),
            tags: match self.tags {
                Some(t) => Some(texts(t@)),
                None => None,
            },
            confidence: self.confidence,
            metadata: opt_text(self.metadata),
        }
    }
}

/// One message of a conversation.
#[derive(Debug)]
pub struct ConversationMessage {
    pub role: String,
    pub content: String,
}

impl Clone for ConversationMessage {
    fn clone(&self) -> (out: Self)
        ensures
            out.role@ == self.role@,
            out.content@ == self.content@,
    {
        ConversationMessage { role: self.role.clone(), content: self.content.clone() }
    }
}

/// A conversation to extract knowledge from, and the scope to store it under.
#[derive(Debug)]
pub struct ExtractRequest {
    pub messages: Vec<ConversationMessage>,
    pub agent_id: Option<String>,
    pub user_id: Option<String>,
    pub session_id: Option<String>,
}

/// What `add_entity` takes.
#[derive(Debug)]
pub struct AddEntityRequest {
    pub name: String,
    pub entity_type: String,
    pub description: Option<String>,
    pub agent_id: Option<String>,
    pub metadata: String,
}

/// What a [`AddEntityRequest`] holds, as plain values.
pub struct AddEntityRequestView {
    pub name: Seq<char>,
    pub entity_type: Seq<char>,
    pub description: Option<Seq<char>>,
    pub agent_id: Option<Seq<char>>,
    pub metadata: Seq<char>,
}

impl View for AddEntityRequest {
    type V = AddEntityRequestView;

    open spec fn view(&self) -> AddEntityRequestView {
        AddEntityRequestView {
            name: self.name@,
            entity_type: self.entity_type@,
            description: opt_text(self.description),
            agent_id: opt_text(self.agent_id),
            metadata: self.metadata@,
        }
    }
}

/// What `add_relationship` takes.
#[derive(Debug)]
pub struct AddRelationshipRequest {
    pub source_entity_id: u64,
    pub target_entity_id: u64,
    pub relation_type: String,
    pub description: Option<String>,
    pub weight: u32,
    pub created_by: String,
    pub metadata: String,
}

/// What a [`AddRelationshipRequest`] holds, as plain values.
pub struct AddRelationshipRequestView {
    pub source_entity_id: u64,
    pub target_entity_id: u64,
    pub relation_type: Seq<char>,
    pub description: Option<Seq<char>>,
    pub weight: u32,
    pub created_by: Seq<char>,
    pub metadata: Seq<char>,
}

impl View for AddRelationshipRequest {
    type V = AddRelationshipRequestView;

    open spec fn view(&self) -> AddRelationshipRequestView {
        AddRelationshipRequestView {
            source_entity_id: self.source_entity_id,
            target_entity_id: self.target_entity_id,
            relation_type: self.relation_type@,
            description: opt_text(self.description),
            weight: self.weight,
            created_by: self.created_by@,
            metadata: self.metadata@,
        }
    }
}

/// The weight of a relationship whose request names none: one, in millionths.
pub fn default_weight() -> (w: u32)
    ensures
        w == MILLION,
{
    MILLION
}

/// What `create_channel` takes.
#[derive(Debug)]
pub struct CreateChannelRequest {
    pub name: String,
    pub description: Option<String>,
    pub channel_type: ChannelType,
    pub created_by: String,
}

/// What a [`CreateChannelRequest`] holds, as plain values.
pub struct CreateChannelRequestView {
    pub name: Seq<char>,
    pub description: Option<Seq<char>>,
    pub channel_type: ChannelType,
    pub created_by: Seq<char>,
}

impl View for CreateChannelRequest {
    type V = CreateChannelRequestView;

    open spec fn view(&self) -> CreateChannelRequestView {
        CreateChannelRequestView {
            name: self.name@,
            description: opt_text(self.description),
            channel_type: self.channel_type,
            created_by: self.created_by@,
        }
    }
}

/// The type of a channel whose request names none.
pub fn default_channel_type() -> (t: ChannelType)
    ensures
        t == ChannelType::Public,
{
    ChannelType::Public
}

/// What sharing a memory to a channel takes.
#[derive(Debug)]
pub struct ShareToChannelRequest {
    pub memory_id: u64,
    pub shared_by: String,
}

/// What `register_agent` takes.
#[derive(Debug)]
pub struct RegisterAgentRequest {
    pub agent_id: String,
    pub name: String,
    pub agent_type: String,
    pub capabilities: Vec<String>,
    pub metadata: String,
}

/// What a [`RegisterAgentRequest`] holds, as plain values.
pub struct RegisterAgentRequestView {
    pub agent_id: Seq<char>,
    pub name: Seq<char>,
    pub agent_type: Seq<char>,
    pub capabilities: Seq<Seq<char>>,
    pub metadata: Seq<char>,
}

impl View for RegisterAgentRequest {
    type V = RegisterAgentRequestView;

    open spec fn view(&self) -> RegisterAgentRequestView {
        RegisterAgentRequestView {
            agent_id: self.agent_id@,
            name: self.name@,
            agent_type: self.agent_type@,
            capabilities: texts(self.capabilities@),
            metadata: self.metadata@,
        }
    }
}

/// What `create_task` takes.
#[derive(Debug)]
pub struct CreateTaskRequest {
    pub title: String,
    pub description: String,
    pub priority: u32,
    pub required_capabilities: Vec<String>,
    pub created_by: String,
    pub dependencies: Vec<u64>,
    pub deadline: Option<String>,
    pub metadata: String,
}

/// What a [`CreateTaskRequest`] holds, as plain values.
pub struct CreateTaskRequestView {
    pub title: Seq<char>,
    pub description: Seq<char>,
    pub priority: u32,
    pub required_capabilities: Seq<Seq<char>>,
    pub created_by: Seq<char>,
    pub dependencies: Seq<u64>,
    pub deadline: Option<Seq<char>>,
    pub metadata: Seq<char>,
}

impl View for CreateTaskRequest {
    type V = CreateTaskRequestView;

    open spec fn view(&self) -> CreateTaskRequestView {
        CreateTaskRequestView {
            title: self.title@,
            description: self.description@,
            priority: self.priority,
            required_capabilities: texts(self.required_capabilities@),
            created_by: self.created_by@,
            dependencies: self.dependencies@,
            deadline: opt_text(self.deadline),
            metadata: self.metadata@,
        }
    }
}

/// What claiming or starting a task takes.
#[derive(Debug)]
pub struct ClaimTaskRequest {
    pub agent_id: String,
}

/// What completing a task takes.
#[derive(Debug)]
pub struct CompleteTaskRequest {
    pub agent_id: String,
    pub result: String,
}

/// What failing a task takes.
#[derive(Debug)]
pub struct FailTaskRequest {
    pub agent_id: String,
    pub reason: String,
}

/// What applying an extraction did to the store.
#[derive(Debug)]
pub struct ExtractResponse {
    pub memories_added: Vec<Memory>,
    pub memories_updated: Vec<Memory>,
    pub entities_added: Vec<Entity>,
    pub relationships_added: Vec<Relationship>,
    pub skipped: usize,
}

/// A message a client sends over its stream.
#[derive(Debug, Clone)]
#[allow(inconsistent_fields)]
pub enum WsClientMessage {
    Subscribe { channels: Vec<String>, agent_id: Option<String> },
    Unsubscribe { channels: Vec<String> },
    SubscribeTasks { capabilities: Vec<String>, agent_id: String },
    Ping,
}

/// A message the server sends to a subscriber.
#[derive(Debug, Clone)]
pub enum WsServerMessage {
    MemoryAdded { channel: String, memory: Memory },
    MemoryUpdated { channel: String, memory: Memory },
    MemoryInvalidated { channel: String, memory_id: u64, reason: String },
    EntityUpdated { channel: String, entity: Entity },
    Subscribed { channels: Vec<String> },
    TaskCreated { task: Task },
    TaskClaimed { task: Task },
    TaskUpdated { task: Task },
    TaskCompleted { task: Task },
    TaskFailed { task: Task },
    Pong,
    Error { message: String },
}

impl HasKey for Memory {
    open spec fn key(&self) -> u64 {
        self.id
    }
}

impl HasKey for MemoryView {
    open spec fn key(&self) -> u64 {
        self.id
    }
}

impl Keyed for Memory {
    fn key_of(&self) -> (k: u64) {
        self.id
    }
}

impl HasKey for Entity {
    open spec fn key(&self) -> u64 {
        self.id
    }
}

impl HasKey for EntityView {
    open spec fn key(&self) -> u64 {
        self.id
    }
}

impl Keyed for Entity {
    fn key_of(&self) -> (k: u64) {
        self.id
    }
}

impl HasKey for Relationship {
    open spec fn key(&self) -> u64 {
        self.id
    }
}

impl HasKey for RelationshipView {
    open spec fn key(&self) -> u64 {
        self.id
    }
}

impl Keyed for Relationship {
    fn key_of(&self) -> (k: u64) {
        self.id
    }
}

impl HasKey for Episode {
    open spec fn key(&self) -> u64 {
        self.id
    }
}

impl HasKey for EpisodeView {
    open spec fn key(&self) -> u64 {
        self.id
    }
}

impl Keyed for Episode {
    fn key_of(&self) -> (k: u64) {
        self.id
    }
}

impl HasKey for Channel {
    open spec fn key(&self) -> u64 {
        self.id
    }
}

impl HasKey for ChannelView {
    open spec fn key(&self) -> u64 {
        self.id
    }
}

impl Keyed for Channel {
    fn key_of(&self) -> (k: u64) {
        self.id
    }
}

impl HasKey for Task {
    open spec fn key(&self) -> u64 {
        self.id
    }
}

impl HasKey for TaskView {
    open spec fn key(&self) -> u64 {
        self.id
    }
}

impl Keyed for Task {
    fn key_of(&self) -> (k: u64) {
        self.id
    }
}

impl Replica for Memory {
    fn replica(&self) -> (r: Self) {
        self.clone()
    }
}

impl Replica for Entity {
    fn replica(&self) -> (r: Self) {
        self.clone()
    }
}

impl Replica for Relationship {
    fn replica(&self) -> (r: Self) {
        self.clone()
    }
}

impl Replica for Episode {
    fn replica(&self) -> (r: Self) {
        self.clone()
    }
}

impl Replica for Channel {
    fn replica(&self) -> (r: Self) {
        self.clone()
    }
}

impl Replica for Task {
    fn replica(&self) -> (r: Self) {
        self.clone()
    }
}

impl Replica for Agent {
    fn replica(&self) -> (r: Self) {
        self.clone()
    }
}

impl Replica for MemoryHistory {
    fn replica(&self) -> (r: Self) {
        self.clone()
    }
}

impl Replica for TaskEvent {
    fn replica(&self) -> (r: Self) {
        self.clone()
    }
}

impl HasKey for MemoryHistory {
    open spec fn key(&self) -> u64 {
        self.id
    }
}

impl HasKey for MemoryHistoryView {
    open spec fn key(&self) -> u64 {
        self.id
    }
}

impl HasKey for TaskEvent {
    open spec fn key(&self) -> u64 {
        self.id
    }
}

impl HasKey for TaskEventView {
    open spec fn key(&self) -> u64 {
        self.id
    }
}

impl Keyed for MemoryHistory {
    fn key_of(&self) -> (k: u64) {
        self.id
    }
}

impl Keyed for TaskEvent {
    fn key_of(&self) -> (k: u64) {
        self.id
    }
}

impl HasName for Channel {
    open spec fn name(&self) -> Seq<char> {
        self.name@
    }
}

impl HasName for ChannelView {
    open spec fn name(&self) -> Seq<char> {
        self.name
    }
}

impl HasName for Agent {
    open spec fn name(&self) -> Seq<char> {
        self.agent_id@
    }
}

impl HasName for AgentView {
    open spec fn name(&self) -> Seq<char> {
        self.agent_id
    }
}

impl Named for Agent {
    fn name_of(&self) -> (n: String) {
        self.agent_id.clone()
    }
}

} // verus!
