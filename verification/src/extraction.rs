//! Knowledge extraction: where the language model lives, what it is asked,
//! how its answer is unwrapped, and what an answer holds.

use crate::clock::{now, Timestamp};
use crate::config::HiveMindConfig;
use crate::memory_engine::{
    after_add_entity, after_add_memory, after_add_relationship, after_update_memory, first_named,
    new_entity, new_memory, new_relationship, none_named, patched, EngineState, MemoryEngine,
};
use crate::table::found;
use crate::text::{
    chars_of, contains_text, copy_opt_text, copy_texts, decimal, decimal_chars, find_first,
    first_index, is_infix, is_prefix, lowercase, matches_at, opt_text, padded, padded_chars,
    push_chars, push_text, same_text, slice_chars, text_of, texts, trim_chars, trimmed,
};
use crate::types::{
    lemma_views_push, views, AddEntityRequest, AddEntityRequestView, AddMemoryRequest,
    AddMemoryRequestView, AddRelationshipRequest, AddRelationshipRequestView, ConversationMessage,
    EntityView, ExtractRequest, ExtractResponse, Memory, MemoryType, MemoryView, RelationshipView,
    UpdateMemoryRequest, UpdateMemoryRequestView, MILLION,
};
use vstd::prelude::*;
use vstd::string::*;

verus! {

/// Where the language model is reached and how it is spoken to.
#[derive(Debug)]
pub struct ExtractionConfig {
    pub provider: String,
    pub api_key: Option<String>,
    pub model: String,
    pub base_url: String,
}

/// The address of a provider's service: that of a known provider, the
/// provider itself where it is an address, else that of the default
/// provider.
pub open spec fn llm_base_url(provider: Seq<char>) -> Seq<char> {
    if provider == "openai"@ {
        "https://api.openai.com/v1"@
    } else if provider == "anthropic"@ {
        "https://api.anthropic.com"@
    } else if provider == "ollama"@ {
        "http://localhost:11434/v1"@
    } else if provider == "codegate"@ {
        "http://localhost:9212/v1"@
    } else if is_prefix("http"@, provider) {
        provider
    } else {
        "https://api.openai.com/v1"@
    }
}

/// The protocol a provider speaks: its own for "anthropic", that of "openai"
/// for every other.
pub open spec fn llm_protocol(provider: Seq<char>) -> Seq<char> {
    if provider == "anthropic"@ {
        "anthropic"@
    } else {
        "openai"@
    }
}

/// A service is usable if a key is configured or its address is on this
/// machine.
pub open spec fn reachable(api_key: Option<Seq<char>>, base_url: Seq<char>) -> bool {
    api_key is Some || is_infix("localhost"@, base_url) || is_infix("127.0.0.1"@, base_url)
}

/// Whether `url` begins with "http".
pub fn is_address(url: &str) -> (r: bool)
    ensures
        r == is_prefix("http"@, url@),
{
    let hay = chars_of(url);
    let needle = chars_of("http");
    matches_at(&hay, &needle, 0)
}

/// Whether a service is usable.
pub fn is_reachable(api_key: &Option<String>, base_url: &str) -> (r: bool)
    ensures
        r == reachable(opt_text(*api_key), base_url@),
{
    api_key.is_some() || contains_text(base_url, "localhost") || contains_text(
        base_url,
        "127.0.0.1",
    )
}

impl ExtractionConfig {
    /// The extraction settings that the service settings imply.
    pub fn from_hivemind_config(config: &HiveMindConfig) -> (c: Self)
        ensures
            c.provider@ == llm_protocol(config.llm_provider@),
            c.base_url@ == llm_base_url(config.llm_provider@),
            opt_text(c.api_key) == opt_text(config.llm_api_key),
            c.model@ == config.llm_model@,
    {
        let p = config.llm_provider.as_str();
        let base_url = if same_text(p, "openai") {
            String::from_str("https://api.openai.com/v1")
        } else if same_text(p, "anthropic") {
            String::from_str("https://api.anthropic.com")
        } else if same_text(p, "ollama") {
            String::from_str("http://localhost:11434/v1")
        } else if same_text(p, "codegate") {
            String::from_str("http://localhost:9212/v1")
        } else if is_address(p) {
            config.llm_provider.clone()
        } else {
            String::from_str("https://api.openai.com/v1")
        };
        let provider = if same_text(p, "anthropic") {
            String::from_str("anthropic")
        } else {
            String::from_str("openai")
        };
        ExtractionConfig {
            provider,
            api_key: copy_opt_text(&config.llm_api_key),
            model: config.llm_model.clone(),
            base_url,
        }
    }

    /// Whether extraction can be asked for: a key is configured or the model
    /// runs on this machine.
    pub fn is_available(&self) -> (r: bool)
        ensures
            r == reachable(opt_text(self.api_key), self.base_url@),
    {
        is_reachable(&self.api_key, self.base_url.as_str())
    }
}

/// How an extracted fact relates to what is known.
#[derive(Debug, Clone, Copy, PartialEq, Eq, Structural)]
pub enum ExtractionOperation {
    Add,
    Update,
    Noop,
}

/// A fact that the model extracted; its confidence is in millionths.
#[derive(Debug)]
pub struct ExtractedFact {
    pub content: String,
    pub memory_type: MemoryType,
    pub confidence: u32,
    pub tags: Vec<String>,
    pub operation: ExtractionOperation,
    pub updates_memory_id: Option<u64>,
}

/// What an [`ExtractedFact`] holds, as plain values.
pub struct ExtractedFactView {
    pub content: Seq<char>,
    pub memory_type: MemoryType,
    pub confidence: u32,
    pub tags: Seq<Seq<char>>,
    pub operation: ExtractionOperation,
    pub updates_memory_id: Option<u64>,
}

impl View for ExtractedFact {
    type V = ExtractedFactView;

    open spec fn view(&self) -> ExtractedFactView {
        ExtractedFactView {
            content: self.content@,
            memory_type: self.memory_type,
            confidence: self.confidence,
            tags: texts(self.tags@),
            operation: self.operation,
            updates_memory_id: self.updates_memory_id,
        }
    }
}

/// An entity that the model extracted.
#[derive(Debug)]
pub struct ExtractedEntity {
    pub name: String,
    pub entity_type: String,
    pub description: Option<String>,
}

/// What an [`ExtractedEntity`] holds, as plain values.
pub struct ExtractedEntityView {
    pub name: Seq<char>,
    pub entity_type: Seq<char>,
    pub description: Option<Seq<char>>,
}

impl View for ExtractedEntity {
    type V = ExtractedEntityView;

    open spec fn view(&self) -> ExtractedEntityView {
        ExtractedEntityView {
            name: self.name@,
            entity_type: self.entity_type@,
            description: opt_text(self.description),
        }
    }
}

/// A relationship that the model extracted, between entities named by name.
#[derive(Debug)]
pub struct ExtractedRelationship {
    pub source_entity: String,
    pub target_entity: String,
    pub relation_type: String,
    pub description: Option<String>,
}

/// What an [`ExtractedRelationship`] holds, as plain values.
pub struct ExtractedRelationshipView {
    pub source_entity: Seq<char>,
    pub target_entity: Seq<char>,
    pub relation_type: Seq<char>,
    pub description: Option<Seq<char>>,
}

impl View for ExtractedRelationship {
    type V = ExtractedRelationshipView;

    open spec fn view(&self) -> ExtractedRelationshipView {
        ExtractedRelationshipView {
            source_entity: self.source_entity@,
            target_entity: self.target_entity@,
            relation_type: self.relation_type@,
            description: opt_text(self.description),
        }
    }
}

/// What the model extracted from a conversation.
#[derive(Debug)]
pub struct ExtractionResult {
    pub facts: Vec<ExtractedFact>,
    pub entities: Vec<ExtractedEntity>,
    pub relationships: Vec<ExtractedRelationship>,
}

/// What the model is told about its task.
pub const EXTRACTION_SYSTEM_PROMPT: &'static str =
    "You are a knowledge extraction engine for HiveMindDB. Your job is to extract structured knowledge from conversation text.\n\nGiven a conversation, extract:\n1. **Facts**: Concrete pieces of knowledge (preferences, decisions, information)\n2. **Entities**: People, projects, technologies, organizations, concepts\n3. **Relationships**: How entities relate to each other\n\nFor each fact, determine:\n- `operation`: \"add\" (new knowledge), \"update\" (modifies existing), \"noop\" (already known)\n- `memory_type`: \"fact\" (concrete info), \"episodic\" (event/experience), \"procedural\" (how-to), \"semantic\" (abstract concept)\n- `confidence`: 0.0-1.0 how confident you are this is accurate\n- `tags`: relevant categories\n\nRespond with ONLY valid JSON in this exact format:\n{\n  \"facts\": [\n    {\n      \"content\": \"the extracted fact as a clear statement\",\n      \"memory_type\": \"fact\",\n      \"confidence\": 0.95,\n      \"tags\": [\"preferences\", \"languages\"],\n      \"operation\": \"add\",\n      \"updates_memory_id\": null\n    }\n  ],\n  \"entities\": [\n    {\n      \"name\": \"EntityName\",\n      \"entity_type\": \"Person\",\n      \"description\": \"Brief description\"\n    }\n  ],\n  \"relationships\": [\n    {\n      \"source_entity\": \"SourceName\",\n      \"target_entity\": \"TargetName\",\n      \"relation_type\": \"maintains\",\n      \"description\": \"Brief description\"\n    }\n  ]\n}";

/// How many known memories the model is shown at most.
pub const MAX_SHOWN_MEMORIES: usize = 20;

/// The text between the first `opener` and the next code fence behind it,
/// trimmed; nothing if either is missing.
pub open spec fn fenced(t: Seq<char>, opener: Seq<char>) -> Option<Seq<char>> {
    match first_index(t, opener) {
        Some(p) => {
            let after = t.skip(p + opener.len());
            match first_index(after, "```"@) {
                Some(q) => Some(trimmed(after.take(q))),
                None => None,
            }
        },
        None => None,
    }
}

/// The JSON text of an answer: what stands in its first code block marked as
/// JSON, else in its first code block, else the whole answer; trimmed in each
/// case.
pub open spec fn json_part(text: Seq<char>) -> Seq<char> {
    let t = trimmed(text);
    match fenced(t, "```json"@) {
        Some(x) => x,
        None => match fenced(t, "```"@) {
            Some(x) => x,
            None => t,
        },
    }
}

/// The text between the first `opener` and the next code fence behind it.
fn fenced_in(t: &Vec<char>, opener: &Vec<char>) -> (r: Option<Vec<char>>)
    ensures
        match r {
            Some(v) => fenced(t@, opener@) == Some(v@),
            None => fenced(t@, opener@) is None,
        },
{
    match find_first(t, opener) {
        Some(p) => {
            let end: usize = t.len();
            assert(p + opener@.len() <= end);
            let after = slice_chars(t, p + opener.len(), end);
            assert(after@ =~= t@.skip(p + opener.len()));
            let fence = chars_of("```");
            match find_first(&after, &fence) {
                Some(q) => {
                    let inner = trim_chars(&after, 0, q);
                    assert(after@.subrange(0, q as int) =~= after@.take(q as int));
                    Some(slice_chars(&after, inner.0, inner.1))
                },
                None => None,
            }
        },
        None => None,
    }
}

/// Unwraps the JSON text of a model's answer from a code block around it.
pub fn extract_json_from_response(text: &str) -> (json: String)
    ensures
        json@ == json_part(text@),
{
    let chars = chars_of(text);
    let outer = trim_chars(&chars, 0, chars.len());
    assert(chars@.subrange(0, chars.len() as int) =~= chars@);
    let t = slice_chars(&chars, outer.0, outer.1);
    let marked = chars_of("```json");
    match fenced_in(&t, &marked) {
        Some(v) => text_of(&v),
        None => {
            let plain = chars_of("```");
            match fenced_in(&t, &plain) {
                Some(v) => text_of(&v),
                None => text_of(&t),
            }
        },
    }
}

/// The lines of a conversation: each message as its role, a colon and a
/// space, and its content; messages are separated by line breaks.
pub open spec fn conversation_text(messages: Seq<ConversationMessage>) -> Seq<char>
    decreases messages.len(),
{
    if messages.len() == 0 {
        Seq::empty()
    } else {
        let line = messages.last().role@ + ": "@ + messages.last().content@;
        if messages.len() == 1 {
            line
        } else {
            conversation_text(messages.drop_last()) + "\n"@ + line
        }
    }
}

/// The lines that show known memories to the model: each as its id in
/// brackets and its content, separated by line breaks.
pub open spec fn memory_lines(memories: Seq<Memory>) -> Seq<char>
    decreases memories.len(),
{
    if memories.len() == 0 {
        Seq::empty()
    } else {
        let m = memories.last();
        let line = "  [#"@ + decimal(m.id as nat) + "] "@ + m.content@;
        if memories.len() == 1 {
            line
        } else {
            memory_lines(memories.drop_last()) + "\n"@ + line
        }
    }
}

/// The first `n` of a list, or all of it if it is shorter.
pub open spec fn at_most<T>(s: Seq<T>, n: nat) -> Seq<T> {
    if s.len() > n {
        s.take(n as int)
    } else {
        s
    }
}

/// What the model is asked: to extract knowledge from the conversation,
/// followed, where memories are known, by the first twenty of them to check
/// against.
pub open spec fn extraction_prompt(
    messages: Seq<ConversationMessage>,
    existing: Seq<Memory>,
) -> Seq<char> {
    let head = "Extract knowledge from this conversation:\n\n"@ + conversation_text(messages);
    if existing.len() == 0 {
        head
    } else {
        head + "\n\nExisting memories (check for conflicts/updates):\n"@ + memory_lines(
            at_most(existing, MAX_SHOWN_MEMORIES as nat),
        )
    }
}

/// Builds what the model is asked.
pub fn build_extraction_prompt(messages: &Vec<ConversationMessage>, existing: &Vec<Memory>) -> (prompt:
    String)
    ensures
        prompt@ == extraction_prompt(messages@, existing@),
{
    let mut out: Vec<char> = Vec::new();
    push_text(&mut out, "Extract knowledge from this conversation:\n\n");
    let ghost head = out@;
    let mut i: usize = 0;
    assert(conversation_text(messages@.take(0)) =~= Seq::empty());
    while i < messages.len()
        invariant
            i <= messages.len(),
            out@ == head + conversation_text(messages@.take(i as int)),
        decreases messages.len() - i,
    {
        proof {
            assert(messages@.take(i + 1).drop_last() =~= messages@.take(i as int));
            assert(messages@.take(i + 1).last() == messages@[i as int]);
        }
        let ghost before = out@;
        if i > 0 {
            push_text(&mut out, "\n");
        }
        push_text(&mut out, messages[i].role.as_str());
        push_text(&mut out, ": ");
        push_text(&mut out, messages[i].content.as_str());
        proof {
            let line = messages@[i as int].role@ + ": "@ + messages@[i as int].content@;
            if i == 0 {
                assert(out@ =~= head + line);
            } else {
                assert(out@ =~= head + (conversation_text(messages@.take(i as int)) + "\n"@
                    + line));
            }
        }
        i += 1;
    }
    assert(messages@.take(messages.len() as int) =~= messages@);
    if existing.len() > 0 {
        push_text(&mut out, "\n\nExisting memories (check for conflicts/updates):\n");
        let ghost head2 = out@;
        let shown: usize = if existing.len() > MAX_SHOWN_MEMORIES {
            MAX_SHOWN_MEMORIES
        } else {
            existing.len()
        };
        let ghost list = at_most(existing@, MAX_SHOWN_MEMORIES as nat);
        let mut k: usize = 0;
        assert(memory_lines(list.take(0)) =~= Seq::empty());
        while k < shown
            invariant
                k <= shown,
                shown == list.len(),
                shown <= existing.len(),
                list == at_most(existing@, MAX_SHOWN_MEMORIES as nat),
                out@ == head2 + memory_lines(list.take(k as int)),
            decreases shown - k,
        {
            proof {
                assert(list.take(k + 1).drop_last() =~= list.take(k as int));
                assert(list.take(k + 1).last() == existing@[k as int]);
            }
            if k > 0 {
                push_text(&mut out, "\n");
            }
            push_text(&mut out, "  [#");
            let digits = decimal_chars(existing[k].id);
            push_chars(&mut out, &digits);
            push_text(&mut out, "] ");
            push_text(&mut out, existing[k].content.as_str());
            proof {
                let m = existing@[k as int];
                let line = "  [#"@ + decimal(m.id as nat) + "] "@ + m.content@;
                if k == 0 {
                    assert(out@ =~= head2 + line);
                } else {
                    assert(out@ =~= head2 + (memory_lines(list.take(k as int)) + "\n"@ + line));
                }
            }
            k += 1;
        }
        assert(list.take(shown as int) =~= list);
    }
    text_of(&out)
}

/// The scope that extracted knowledge is stored under.
pub struct ExtractScope {
    pub agent_id: Option<Seq<char>>,
    pub user_id: Option<Seq<char>>,
    pub session_id: Option<Seq<char>>,
}

/// The scope that a request names.
pub open spec fn scope_of(req: ExtractRequest) -> ExtractScope {
    ExtractScope {
        agent_id: opt_text(req.agent_id),
        user_id: opt_text(req.user_id),
        session_id: opt_text(req.session_id),
    }
}

/// Who extracted knowledge is ascribed to: the agent of the scope, or
/// "extraction".
pub open spec fn actor(scope: ExtractScope) -> Seq<char> {
    match scope.agent_id {
        Some(a) => a,
        None => "extraction"@,
    }
}

/// The metadata of an extracted fact: its confidence as a decimal fraction
/// with six places, and the mark that it was extracted.
pub open spec fn fact_metadata(confidence: u32) -> Seq<char> {
    "{\"confidence\":"@ + decimal((confidence / MILLION) as nat) + "."@ + padded(
        (confidence % MILLION) as nat,
        6,
    ) + ",\"extracted\":true}"@
}

/// The metadata of an extracted entity or relationship.
pub open spec fn extracted_mark() -> Seq<char> {
    "{\"extracted\":true}"@
}

/// The request that adds an extracted fact as a memory.
pub open spec fn fact_request(scope: ExtractScope, f: ExtractedFactView) -> AddMemoryRequestView {
    AddMemoryRequestView {
        content: f.content,
        memory_type: f.memory_type,
        agent_id: scope.agent_id,
        user_id: scope.user_id,
        session_id: scope.session_id,
        tags: f.tags,
        metadata: fact_metadata(f.confidence),
    }
}

/// The patch that an extracted fact makes to the memory it updates.
pub open spec fn fact_patch(f: ExtractedFactView) -> UpdateMemoryRequestView {
    UpdateMemoryRequestView {
        content: Some(f.content),
        tags: Some(f.tags),
        confidence: Some(f.confidence),
        metadata: None,
    }
}

/// The store and what was done to it while an extraction is applied.
pub struct Extraction {
    pub state: EngineState,
    pub memories_added: Seq<MemoryView>,
    pub memories_updated: Seq<MemoryView>,
    pub entities_added: Seq<EntityView>,
    pub relationships_added: Seq<RelationshipView>,
    pub skipped: nat,
}

/// An extraction that has done nothing yet.
pub open spec fn begin(s: EngineState) -> Extraction {
    Extraction {
        state: s,
        memories_added: Seq::empty(),
        memories_updated: Seq::empty(),
        entities_added: Seq::empty(),
        relationships_added: Seq::empty(),
        skipped: 0,
    }
}

/// One fact is applied: a known one is skipped; an update of a named memory
/// patches it, or does nothing where the memory is missing; every other fact
/// is added as a memory.
pub open spec fn with_fact(x: Extraction, scope: ExtractScope, f: ExtractedFactView, now: Timestamp) -> Extraction {
    if f.operation == ExtractionOperation::Noop {
        Extraction { skipped: x.skipped + 1, ..x }
    } else if f.operation == ExtractionOperation::Update && f.updates_memory_id is Some {
        let id = f.updates_memory_id.unwrap();
        match found(x.state.memories, id) {
            Some(m) => Extraction {
                state: after_update_memory(x.state, id, fact_patch(f), actor(scope), now),
                memories_updated: x.memories_updated.push(patched(m, fact_patch(f), now)),
                ..x
            },
            None => x,
        }
    } else {
        let r = fact_request(scope, f);
        Extraction {
            state: after_add_memory(x.state, r, now),
            memories_added: x.memories_added.push(new_memory(x.state.next_memory_id, r, now)),
            ..x
        }
    }
}

/// The facts are applied, in order.
pub open spec fn with_facts(
    x: Extraction,
    scope: ExtractScope,
    facts: Seq<ExtractedFactView>,
    now: Timestamp,
) -> Extraction
    decreases facts.len(),
{
    if facts.len() == 0 {
        x
    } else {
        with_fact(with_facts(x, scope, facts.drop_last(), now), scope, facts.last(), now)
    }
}

/// Some entity has a name that, lowercased, is `lower`.
pub open spec fn some_named(es: Seq<EntityView>, lower: Seq<char>) -> bool {
    exists|i: int| first_named(es, lower, i)
}

/// The first entity whose name, lowercased, is `lower`.
pub open spec fn the_named(es: Seq<EntityView>, lower: Seq<char>) -> EntityView {
    es[choose|i: int| first_named(es, lower, i)]
}

/// The request that adds an extracted entity.
pub open spec fn entity_request(scope: ExtractScope, e: ExtractedEntityView) -> AddEntityRequestView {
    AddEntityRequestView {
        name: e.name,
        entity_type: e.entity_type,
        description: e.description,
        agent_id: scope.agent_id,
        metadata: extracted_mark(),
    }
}

/// One entity is applied: it is added unless an entity has its name, case
/// ignored.
pub open spec fn with_entity(x: Extraction, scope: ExtractScope, e: ExtractedEntityView, now: Timestamp) -> Extraction {
    if some_named(x.state.entities, lowercase(e.name)) {
        x
    } else {
        let r = entity_request(scope, e);
        Extraction {
            state: after_add_entity(x.state, r, now),
            entities_added: x.entities_added.push(new_entity(x.state.next_entity_id, r, now)),
            ..x
        }
    }
}

/// The entities are applied, in order.
pub open spec fn with_entities(
    x: Extraction,
    scope: ExtractScope,
    entities: Seq<ExtractedEntityView>,
    now: Timestamp,
) -> Extraction
    decreases entities.len(),
{
    if entities.len() == 0 {
        x
    } else {
        with_entity(
            with_entities(x, scope, entities.drop_last(), now),
            scope,
            entities.last(),
            now,
        )
    }
}

/// The request that adds an extracted relationship between the entities
/// `source` and `target`.
pub open spec fn relationship_request(
    scope: ExtractScope,
    r: ExtractedRelationshipView,
    source: u64,
    target: u64,
) -> AddRelationshipRequestView {
    AddRelationshipRequestView {
        source_entity_id: source,
        target_entity_id: target,
        relation_type: r.relation_type,
        description: r.description,
        weight: MILLION,
        created_by: actor(scope),
        metadata: extracted_mark(),
    }
}

/// One relationship is applied: it is added where both of its entities are
/// found by name, case ignored.
pub open spec fn with_relationship(
    x: Extraction,
    scope: ExtractScope,
    r: ExtractedRelationshipView,
    now: Timestamp,
) -> Extraction {
    let es = x.state.entities;
    if some_named(es, lowercase(r.source_entity)) && some_named(es, lowercase(r.target_entity)) {
        let req = relationship_request(
            scope,
            r,
            the_named(es, lowercase(r.source_entity)).id,
            the_named(es, lowercase(r.target_entity)).id,
        );
        Extraction {
            state: after_add_relationship(x.state, req, now),
            relationships_added: x.relationships_added.push(
                new_relationship(x.state.next_relationship_id, req, now),
            ),
            ..x
        }
    } else {
        x
    }
}

/// The relationships are applied, in order.
pub open spec fn with_relationships(
    x: Extraction,
    scope: ExtractScope,
    relationships: Seq<ExtractedRelationshipView>,
    now: Timestamp,
) -> Extraction
    decreases relationships.len(),
{
    if relationships.len() == 0 {
        x
    } else {
        with_relationship(
            with_relationships(x, scope, relationships.drop_last(), now),
            scope,
            relationships.last(),
            now,
        )
    }
}

/// What applying an extraction to the state `s` gives: the facts first, then
/// the entities, then the relationships.
pub open spec fn extraction_outcome(
    s: EngineState,
    scope: ExtractScope,
    result: ExtractionResult,
    now: Timestamp,
) -> Extraction {
    with_relationships(
        with_entities(
            with_facts(begin(s), scope, views(result.facts@), now),
            scope,
            views(result.entities@),
            now,
        ),
        scope,
        views(result.relationships@),
        now,
    )
}

/// The store has ids left for everything that an extraction may add.
pub open spec fn has_room_for(s: EngineState, result: ExtractionResult) -> bool {
    &&& s.next_memory_id + result.facts@.len() < u64::MAX
    &&& s.next_history_id + result.facts@.len() < u64::MAX
    &&& s.next_entity_id + result.entities@.len() < u64::MAX
    &&& s.next_relationship_id + result.relationships@.len() < u64::MAX
}

/// The metadata of an extracted fact.
pub fn fact_metadata_text(confidence: u32) -> (out: String)
    ensures
        out@ == fact_metadata(confidence),
{
    let mut chars: Vec<char> = Vec::new();
    push_text(&mut chars, "{\"confidence\":");
    let whole = decimal_chars((confidence / MILLION) as u64);
    push_chars(&mut chars, &whole);
    push_text(&mut chars, ".");
    let part = padded_chars((confidence % MILLION) as u64, 6);
    push_chars(&mut chars, &part);
    push_text(&mut chars, ",\"extracted\":true}");
    assert(chars@ =~= fact_metadata(confidence));
    text_of(&chars)
}

/// Who extracted knowledge is ascribed to.
pub fn actor_of(agent_id: &Option<String>) -> (out: String)
    ensures
        out@ == (match opt_text(*agent_id) {
            Some(a) => a,
            None => "extraction"@,
        }),
{
    match agent_id {
        Some(a) => a.clone(),
        None => String::from_str("extraction"),
    }
}

impl MemoryEngine {
    /// Whether the store has ids left for everything that the extraction
    /// may add.
    pub fn can_store(&self, result: &ExtractionResult) -> (r: bool)
        ensures
            r == has_room_for(self@, *result),
    {
        let n = self.next_ids();
        let facts: u128 = result.facts.len() as u128;
        let entities: u128 = result.entities.len() as u128;
        let relationships: u128 = result.relationships.len() as u128;
        let limit: u128 = u64::MAX as u128;
        (n.memory as u128) + facts < limit && (n.history as u128) + facts < limit && (
        n.entity as u128) + entities < limit && (n.relationship as u128) + relationships < limit
    }

    /// Stores what the model extracted, stamped with the clock's reading.
    pub fn extract_and_store(&mut self, req: &ExtractRequest, result: &ExtractionResult) -> (resp:
        ExtractResponse)
        requires
            old(self).wf(),
            has_room_for(old(self)@, *result),
        ensures
            final(self).wf(),
            exists|t: Timestamp|
                applied(extraction_outcome(old(self)@, scope_of(*req), *result, t), final(self)@, resp),
    {
        let t = now();
        self.extract_and_store_at(req, result, t)
    }

    /// Stores what the model extracted, at the time `now`: each fact is
    /// added, applied as an update or skipped, as it says; each entity is
    /// added unless one of its name exists; each relationship is added where
    /// both of its entities are found. Says what was added, updated and
    /// skipped.
    pub fn extract_and_store_at(
        &mut self,
        req: &ExtractRequest,
        result: &ExtractionResult,
        now: Timestamp,
    ) -> (resp: ExtractResponse)
        requires
            old(self).wf(),
            has_room_for(old(self)@, *result),
        ensures
            final(self).wf(),
            applied(extraction_outcome(old(self)@, scope_of(*req), *result, now), final(self)@, resp),
    {
        let ghost scope = scope_of(*req);
        let ghost s0 = self@;
        let mut resp = ExtractResponse {
            memories_added: Vec::new(),
            memories_updated: Vec::new(),
            entities_added: Vec::new(),
            relationships_added: Vec::new(),
            skipped: 0,
        };
        let ghost mut x = begin(self@);
        let ghost facts = views(result.facts@);
        assert(applied(x, self@, resp)) by {
            assert(views(resp.memories_added@) =~= Seq::empty());
            assert(views(resp.memories_updated@) =~= Seq::empty());
            assert(views(resp.entities_added@) =~= Seq::empty());
            assert(views(resp.relationships_added@) =~= Seq::empty());
        }
        let mut i: usize = 0;
        while i < result.facts.len()
            invariant
                self.wf(),
                i <= result.facts.len(),
                scope == scope_of(*req),
                facts == views(result.facts@),
                has_room_for(s0, *result),
                x == with_facts(begin(s0), scope, facts.take(i as int), now),
                applied(x, self@, resp),
                resp.skipped <= i,
                self@.next_memory_id <= s0.next_memory_id + i,
                self@.next_history_id <= s0.next_history_id + i,
                self@.next_entity_id == s0.next_entity_id,
                self@.next_relationship_id == s0.next_relationship_id,
            decreases result.facts.len() - i,
        {
            let fact = &result.facts[i];
            proof {
                assert(facts.take(i + 1).drop_last() =~= facts.take(i as int));
                assert(facts.take(i + 1).last() == fact@);
                self.lemma_consistent();
            }
            let ghost before = x;
            let update_target: Option<u64> = match fact.operation {
                ExtractionOperation::Update => fact.updates_memory_id,
                _ => None,
            };
            match fact.operation {
                ExtractionOperation::Noop => {
                    resp.skipped = resp.skipped + 1;
                },
                _ => {
                    match update_target {
                        Some(id) => {
                            let patch = UpdateMemoryRequest {
                                content: Some(fact.content.clone()),
                                tags: Some(copy_texts(&fact.tags)),
                                confidence: Some(fact.confidence),
                                metadata: None,
                            };
                            assert(patch@ == fact_patch(fact@));
                            let by = actor_of(&req.agent_id);
                            match self.update_memory_at(id, patch, by.as_str(), now) {
                                Some(m) => {
                                    proof {
                                        lemma_views_push(resp.memories_updated@, m);
                                    }
                                    resp.memories_updated.push(m);
                                },
                                None => {},
                            }
                        },
                        None => {
                            let add = AddMemoryRequest {
                                content: fact.content.clone(),
                                memory_type: fact.memory_type,
                                agent_id: copy_opt_text(&req.agent_id),
                                user_id: copy_opt_text(&req.user_id),
                                session_id: copy_opt_text(&req.session_id),
                                tags: copy_texts(&fact.tags),
                                metadata: fact_metadata_text(fact.confidence),
                            };
                            assert(add@ == fact_request(scope, fact@));
                            let m = self.add_memory_at(add, now);
                            proof {
                                lemma_views_push(resp.memories_added@, m);
                            }
                            resp.memories_added.push(m);
                        },
                    }
                },
            }
            proof {
                x = with_fact(before, scope, fact@, now);
            }
            i += 1;
        }
        assert(facts.take(result.facts.len() as int) =~= facts);
        let ghost x1 = x;
        let ghost entities = views(result.entities@);
        let mut j: usize = 0;
        while j < result.entities.len()
            invariant
                self.wf(),
                j <= result.entities.len(),
                scope == scope_of(*req),
                entities == views(result.entities@),
                has_room_for(s0, *result),
                x == with_entities(x1, scope, entities.take(j as int), now),
                applied(x, self@, resp),
                self@.next_entity_id <= s0.next_entity_id + j,
                self@.next_relationship_id == s0.next_relationship_id,
            decreases result.entities.len() - j,
        {
            let e = &result.entities[j];
            proof {
                assert(entities.take(j + 1).drop_last() =~= entities.take(j as int));
                assert(entities.take(j + 1).last() == e@);
            }
            let ghost before = x;
            match self.find_entity_by_name(e.name.as_str()) {
                Some(_) => {},
                None => {
                    proof {
                        assert forall|k: int| !first_named(
                            self@.entities,
                            lowercase(e.name@),
                            k,
                        ) by {}
                    }
                    let add = AddEntityRequest {
                        name: e.name.clone(),
                        entity_type: e.entity_type.clone(),
                        description: copy_opt_text(&e.description),
                        agent_id: copy_opt_text(&req.agent_id),
                        metadata: String::from_str("{\"extracted\":true}"),
                    };
                    assert(add@ == entity_request(scope, e@));
                    let added = self.add_entity_at(add, now);
                    proof {
                        lemma_views_push(resp.entities_added@, added);
                    }
                    resp.entities_added.push(added);
                },
            }
            proof {
                x = with_entity(before, scope, e@, now);
            }
            j += 1;
        }
        assert(entities.take(result.entities.len() as int) =~= entities);
        let ghost x2 = x;
        let ghost relationships = views(result.relationships@);
        let mut k: usize = 0;
        while k < result.relationships.len()
            invariant
                self.wf(),
                k <= result.relationships.len(),
                scope == scope_of(*req),
                relationships == views(result.relationships@),
                has_room_for(s0, *result),
                x == with_relationships(x2, scope, relationships.take(k as int), now),
                applied(x, self@, resp),
                self@.next_relationship_id <= s0.next_relationship_id + k,
            decreases result.relationships.len() - k,
        {
            let r = &result.relationships[k];
            proof {
                assert(relationships.take(k + 1).drop_last() =~= relationships.take(k as int));
                assert(relationships.take(k + 1).last() == r@);
            }
            let ghost before = x;
            let ghost es = self@.entities;
            let source = self.find_entity_by_name(r.source_entity.as_str());
            let target = self.find_entity_by_name(r.target_entity.as_str());
            proof {
                lemma_the_named(es, lowercase(r.source_entity@));
                lemma_the_named(es, lowercase(r.target_entity@));
            }
            match source {
                Some(src) => match target {
                    Some(tgt) => {
                        let add = AddRelationshipRequest {
                            source_entity_id: src.id,
                            target_entity_id: tgt.id,
                            relation_type: r.relation_type.clone(),
                            description: copy_opt_text(&r.description),
                            weight: MILLION,
                            created_by: actor_of(&req.agent_id),
                            metadata: String::from_str("{\"extracted\":true}"),
                        };
                        assert(add@ == relationship_request(scope, r@, src.id, tgt.id));
                        let added = self.add_relationship_at(add, now);
                        proof {
                            lemma_views_push(resp.relationships_added@, added);
                        }
                        resp.relationships_added.push(added);
                    },
                    None => {},
                },
                None => {},
            }
            proof {
                x = with_relationship(before, scope, r@, now);
            }
            k += 1;
        }
        assert(relationships.take(result.relationships.len() as int) =~= relationships);
        resp
    }
}

/// The first entity of a name is the one that stands first under it.
pub proof fn lemma_the_named(es: Seq<EntityView>, lower: Seq<char>)
    ensures
        forall|i: int| first_named(es, lower, i) ==> some_named(es, lower) && the_named(es, lower) == es[i],
        none_named(es, lower) ==> !some_named(es, lower),
{
    assert forall|i: int| first_named(es, lower, i) implies some_named(es, lower) && the_named(
        es,
        lower,
    ) == es[i] by {
        let c = choose|c: int| first_named(es, lower, c);
        if c < i {
            assert(lowercase(es[c].name) != lower);
        }
        if i < c {
            assert(lowercase(es[i].name) != lower);
        }
    }
}

/// The response says what the extraction did, and the store is in the state
/// that the extraction left.
pub open spec fn applied(x: Extraction, s: EngineState, resp: ExtractResponse) -> bool {
    &&& s == x.state
    &&& views(resp.memories_added@) == x.memories_added
    &&& views(resp.memories_updated@) == x.memories_updated
    &&& views(resp.entities_added@) == x.entities_added
    &&& views(resp.relationships_added@) == x.relationships_added
    &&& resp.skipped == x.skipped
}

} // verus!
