//! The channel hub: named channels, the bus of each, and who subscribed.

use crate::clock::{now, Timestamp};
use crate::directory::{distinct_names, has_name, position_of_name, HasName};
use crate::index::{name_entries, names_get, names_insert, names_new};
use crate::ledger::{entries_of, lemma_page_views, page_views, Ledger, Page};
use crate::table::{
    distinct_keys, found, keys_below, lemma_position, lemma_position_some, lemma_put_keeps_distinct,
    lemma_views_position, lemma_views_put, position, Table,
};
use crate::text::{copy_texts, opt_text, texts};
use crate::types::{
    views, Channel, ChannelType, ChannelView, CreateChannelRequest, CreateChannelRequestView,
    Memory, MemoryView, WsServerMessage,
};
use dashmap::DashMap;
use tokio::sync::broadcast::{Receiver, Sender};
use vstd::prelude::*;
use vstd::string::*;

verus! {

/// `tokio::sync::broadcast::Sender`: the sending half of a bus. Nothing is
/// claimed of what it holds.
#[verifier::external_type_specification]
#[verifier::external_body]
#[verifier::reject_recursive_types(T)]
pub struct ExSender<T>(Sender<T>);

/// `tokio::sync::broadcast::Receiver`: the receiving half of a bus, handed to
/// a subscriber. Nothing is claimed of what it holds.
#[verifier::external_type_specification]
#[verifier::external_body]
#[verifier::reject_recursive_types(T)]
pub struct ExReceiver<T>(Receiver<T>);

/// How many messages the bus of a channel holds for a slow subscriber.
pub const BUS_CAPACITY: usize = 256;

/// `tokio::sync::broadcast::channel`: the sending half of a new bus that
/// keeps the last `capacity` messages. The receiving half that comes with it
/// is dropped: subscribers get their own.
#[verifier::external_body]
pub(crate) fn bus_new(capacity: usize) -> (bus: Sender<WsServerMessage>)
    requires
        0 < capacity <= usize::MAX / 2,
{
    tokio::sync::broadcast::channel(capacity).0
}

/// `Sender::send`: hands the message to every receiver of the bus. Nothing
/// is promised: with no receiver the message is dropped.
#[verifier::external_body]
pub(crate) fn bus_send(bus: &Sender<WsServerMessage>, message: WsServerMessage) {
    let _ = bus.send(message);
}

/// `Sender::subscribe`: a new receiver of the bus, which sees the messages
/// sent from now on. It panics only where a bus has more receivers than a
/// quarter of the address space.
#[verifier::external_body]
pub(crate) fn bus_subscribe(bus: &Sender<WsServerMessage>) -> (rx: Receiver<WsServerMessage>) {
    bus.subscribe()
}

/// What the hub holds, as plain values.
pub struct HubState {
    pub channels: Seq<ChannelView>,
    pub subscribers: Seq<Page<Seq<char>>>,
    pub next_id: u64,
}

/// Channels have distinct ids, all below the next id, and distinct names.
pub open spec fn hub_consistent(h: HubState) -> bool {
    &&& distinct_keys(h.channels)
    &&& keys_below(h.channels, h.next_id)
    &&& distinct_names(h.channels)
}

/// The channel with the name, if there is one.
pub open spec fn found_by_name(channels: Seq<ChannelView>, name: Seq<char>) -> Option<ChannelView> {
    match position_of_name(channels, name) {
        Some(i) => Some(channels[i]),
        None => None,
    }
}

/// The channel that a request creates under `id` at time `now`.
pub open spec fn new_channel(id: u64, req: CreateChannelRequestView, now: Timestamp) -> ChannelView {
    ChannelView {
        id,
        name: req.name,
        description: req.description,
        channel_type: req.channel_type,
        created_by: req.created_by,
        created_at: now,
    }
}

/// The state after a channel is asked for: the state itself where a channel
/// has the name; else the channel is created under the next id.
pub open spec fn after_create_channel(h: HubState, req: CreateChannelRequestView, now: Timestamp) -> HubState {
    if has_name(h.channels, req.name) {
        h
    } else {
        HubState {
            channels: h.channels.push(new_channel(h.next_id, req, now)),
            next_id: (h.next_id + 1) as u64,
            ..h
        }
    }
}

/// The channel that asking for a channel returns: the one that has the name,
/// or the new one.
pub open spec fn channel_asked_for(h: HubState, req: CreateChannelRequestView, now: Timestamp) -> ChannelView {
    match found_by_name(h.channels, req.name) {
        Some(c) => c,
        None => new_channel(h.next_id, req, now),
    }
}

/// Whether a restored channel can be taken in: no channel has its id or its
/// name, and an id can follow its id.
pub open spec fn admits(h: HubState, c: ChannelView) -> bool {
    position(h.channels, c.id) is None && !has_name(h.channels, c.name) && c.id < u64::MAX
}

/// The state after a restored channel is taken in, where it can be.
pub open spec fn with_channel(h: HubState, c: ChannelView) -> HubState {
    if admits(h, c) {
        HubState {
            channels: h.channels.push(c),
            next_id: if c.id >= h.next_id {
                (c.id + 1) as u64
            } else {
                h.next_id
            },
            ..h
        }
    } else {
        h
    }
}

/// The state after restored channels are taken in, in order.
pub open spec fn with_channels(h: HubState, cs: Seq<ChannelView>) -> HubState
    decreases cs.len(),
{
    if cs.len() == 0 {
        h
    } else {
        with_channel(with_channels(h, cs.drop_last()), cs.last())
    }
}

/// The name of the channel of a user's memories.
pub open spec fn user_channel(user: Seq<char>) -> Seq<char> {
    "user:"@ + user
}

/// The channels that a change of a memory is published on: that of the
/// memory's user, where it has one, and "global".
pub open spec fn memory_channels(user: Option<Seq<char>>) -> Seq<Seq<char>> {
    match user {
        Some(u) => seq![user_channel(u), "global"@],
        None => seq!["global"@],
    }
}

/// The state after an agent joins the channel with the name: the channel is
/// created as a public one where it does not exist, and the agent is noted
/// as a subscriber of it.
pub open spec fn joined(h: HubState, name: Seq<char>, agent: Option<Seq<char>>, now: Timestamp) -> HubState {
    let req = CreateChannelRequestView {
        name,
        description: None,
        channel_type: ChannelType::Public,
        created_by: match agent {
            Some(a) => a,
            None => "ws-client"@,
        },
    };
    let made = after_create_channel(h, req, now);
    HubState {
        subscribers: crate::ledger::with_entry(
            made.subscribers,
            channel_asked_for(h, req, now).id,
            match agent {
                Some(a) => a,
                None => "anonymous"@,
            },
        ),
        ..made
    }
}

/// The hub of named channels.
pub struct ChannelHub {
    channels: Table<Channel>,
    by_name: DashMap<String, u64>,
    subscribers: Ledger<String>,
    buses: Vec<Sender<WsServerMessage>>,
    next_id: u64,
}

impl View for ChannelHub {
    type V = HubState;

    closed spec fn view(&self) -> HubState {
        HubState {
            channels: views(self.channels@),
            subscribers: page_views(self.subscribers@),
            next_id: self.next_id,
        }
    }
}

impl ChannelHub {
    /// Every channel has a bus and is listed under its name, and the state
    /// is consistent.
    pub closed spec fn wf(&self) -> bool {
        &&& self.channels.wf()
        &&& self.subscribers.wf()
        &&& self.buses@.len() == self.channels@.len()
        &&& hub_consistent(self@)
        &&& forall|i: int|
            0 <= i < self.channels@.len() ==> name_entries(self.by_name).contains_key(
                (#[trigger] self.channels@[i]).name@,
            ) && name_entries(self.by_name)[self.channels@[i].name@] == self.channels@[i].id
        &&& forall|n: Seq<char>| #[trigger]
            name_entries(self.by_name).contains_key(n) ==> has_name(views(self.channels@), n)
    }

    /// A well-formed hub is in a consistent state.
    pub proof fn lemma_consistent(&self)
        requires
            self.wf(),
        ensures
            hub_consistent(self@),
    {
    }

    /// A hub without channels, whose first channel id is 1.
    pub fn new() -> (hub: Self)
        ensures
            hub.wf(),
            hub@.channels.len() == 0,
            hub@.subscribers.len() == 0,
            hub@.next_id == 1,
    {
        let hub = ChannelHub {
            channels: Table::new(),
            by_name: names_new(),
            subscribers: Ledger::new(),
            buses: Vec::new(),
            next_id: 1,
        };
        assert(hub@.channels =~= Seq::empty());
        assert(hub@.subscribers =~= Seq::empty());
        hub
    }

    /// Whether a channel id can still be issued.
    pub fn has_room(&self) -> (r: bool)
        ensures
            r == (self@.next_id < u64::MAX),
    {
        self.next_id < u64::MAX
    }

    /// The id of the channel with the name.
    fn id_of(&self, name: &str) -> (r: Option<u64>)
        requires
            self.wf(),
        ensures
            match r {
                Some(id) => position_of_name(self@.channels, name@) is Some && self@.channels[position_of_name(
                    self@.channels,
                    name@,
                ).unwrap()].id == id && position(self@.channels, id) == position_of_name(
                    self@.channels,
                    name@,
                ),
                None => !has_name(self@.channels, name@),
            },
    {
        let r = names_get(&self.by_name, name);
        proof {
            let cs = views(self.channels@);
            match r {
                Some(id) => {
                    assert(name_entries(self.by_name).contains_key(name@));
                    assert(has_name(cs, name@));
                    let i = position_of_name(cs, name@).unwrap();
                    assert(self.channels@[i].name@ == name@);
                    lemma_position(cs, id, i);
                },
                None => {
                    if has_name(cs, name@) {
                        let i = choose|i: int| 0 <= i < cs.len() && #[trigger] cs[i].name() == name@;
                        assert(self.channels@[i].name@ == name@);
                    }
                },
            }
        }
        r
    }

    /// Adds a channel whose id and name no channel has yet, with a bus of its
    /// own.
    fn install(&mut self, channel: Channel)
        requires
            old(self).wf(),
            position(old(self)@.channels, channel.id) is None,
            !has_name(old(self)@.channels, channel.name@),
            channel.id < old(self)@.next_id,
        ensures
            final(self).wf(),
            final(self)@ == (HubState {
                channels: old(self)@.channels.push(channel@),
                ..old(self)@
            }),
    {
        let ghost before = views(self.channels@);
        proof {
            self.channels.lemma_distinct();
            lemma_views_put(self.channels@, channel);
            lemma_put_keeps_distinct(before, channel@);
            lemma_position_some(before, channel.id);
        }
        let name = channel.name.clone();
        let id: u64 = channel.id;
        let ghost n = self.channels@.len();
        self.buses.push(bus_new(BUS_CAPACITY));
        self.channels.put(channel);
        let _ = names_insert(&mut self.by_name, name, id);
        proof {
            let after = views(self.channels@);
            assert(after == before.push(channel@));
            assert(self.channels@[n as int].name@ == channel.name@);
            assert forall|i: int, j: int|
                0 <= i < after.len() && 0 <= j < after.len() && #[trigger] after[i].name()
                    == #[trigger] after[j].name() implies i == j by {
                if i < n && j == n {
                    assert(before[i].name() == channel.name@);
                }
                if j < n && i == n {
                    assert(before[j].name() == channel.name@);
                }
                if i < n && j < n {
                    assert(before[i].name() == before[j].name());
                }
            }
            assert forall|i: int| 0 <= i < self.channels@.len() implies name_entries(
                self.by_name,
            ).contains_key((#[trigger] self.channels@[i]).name@) && name_entries(
                self.by_name,
            )[self.channels@[i].name@] == self.channels@[i].id by {
                if i < n {
                    assert(after[i] == before[i]);
                    assert(old(self).channels@[i].name@ == before[i].name());
                    assert(before[i].name() != channel.name@);
                }
            }
            assert forall|m: Seq<char>| #[trigger]
                name_entries(self.by_name).contains_key(m) implies has_name(after, m) by {
                if m == channel.name@ {
                    assert(after[n as int].name() == m);
                } else {
                    assert(has_name(before, m));
                    let i = choose|i: int| 0 <= i < before.len() && #[trigger] before[i].name() == m;
                    assert(after[i].name() == m);
                }
            }
        }
    }

    /// Creates a channel, stamped with the clock's reading.
    pub fn create_channel(&mut self, req: CreateChannelRequest) -> (c: Channel)
        requires
            old(self).wf(),
            old(self)@.next_id < u64::MAX,
        ensures
            final(self).wf(),
            exists|t: Timestamp|
                c@ == channel_asked_for(old(self)@, req@, t) && final(self)@
                    == after_create_channel(old(self)@, req@, t),
    {
        let t = now();
        self.create_channel_at(req, t)
    }

    /// Creates a channel at the time `now`, unless a channel has the name:
    /// then that channel is returned as it is and nothing changes.
    pub fn create_channel_at(&mut self, req: CreateChannelRequest, now: Timestamp) -> (c: Channel)
        requires
            old(self).wf(),
            old(self)@.next_id < u64::MAX,
        ensures
            final(self).wf(),
            c@ == channel_asked_for(old(self)@, req@, now),
            final(self)@ == after_create_channel(old(self)@, req@, now),
    {
        proof {
            self.channels.lemma_distinct();
        }
        match self.id_of(req.name.as_str()) {
            Some(id) => {
                proof {
                    lemma_views_position(self.channels@, id);
                }
                if let Some(existing) = self.channels.get(id) {
                    return existing.clone();
                }
            },
            None => {},
        }
        let id: u64 = self.next_id;
        let channel = Channel {
            id,
            name: req.name,
            description: req.description,
            channel_type: req.channel_type,
            created_by: req.created_by,
            created_at: now,
        };
        let out = channel.clone();
        proof {
            lemma_position_some(views(self.channels@), id);
        }
        self.next_id = id + 1;
        self.install(channel);
        out
    }

    /// A copy of the channel `id`.
    pub fn get_channel(&self, id: u64) -> (r: Option<Channel>)
        requires
            self.wf(),
        ensures
            crate::memory_engine::opt_view(r) == found(self@.channels, id),
    {
        proof {
            self.channels.lemma_distinct();
            lemma_views_position(self.channels@, id);
        }
        match self.channels.get(id) {
            Some(c) => Some(c.clone()),
            None => None,
        }
    }

    /// A copy of the channel with the name.
    pub fn get_channel_by_name(&self, name: &str) -> (r: Option<Channel>)
        requires
            self.wf(),
        ensures
            crate::memory_engine::opt_view(r) == found_by_name(self@.channels, name@),
    {
        proof {
            self.channels.lemma_distinct();
        }
        match self.id_of(name) {
            Some(id) => {
                proof {
                    lemma_views_position(self.channels@, id);
                }
                match self.channels.get(id) {
                    Some(c) => Some(c.clone()),
                    None => None,
                }
            },
            None => None,
        }
    }

    /// Copies of all channels, in the order they were created.
    pub fn list_channels(&self) -> (r: Vec<Channel>)
        requires
            self.wf(),
        ensures
            views(r@) == self@.channels,
    {
        self.channels.copy_rows()
    }

    /// Subscribes the agent to the channel `channel_id`: notes the agent as
    /// a subscriber and returns a receiver of the channel's bus. Returns
    /// `None`, and notes nothing, where there is no such channel.
    pub fn subscribe(&mut self, channel_id: u64, agent_id: &str) -> (r: Option<
        Receiver<WsServerMessage>,
    >)
        requires
            old(self).wf(),
        ensures
            final(self).wf(),
            r is Some <==> position(old(self)@.channels, channel_id) is Some,
            final(self)@ == (if position(old(self)@.channels, channel_id) is Some {
                HubState {
                    subscribers: crate::ledger::with_entry(
                        old(self)@.subscribers,
                        channel_id,
                        agent_id@,
                    ),
                    ..old(self)@
                }
            } else {
                old(self)@
            }),
    {
        proof {
            self.channels.lemma_distinct();
            lemma_views_position(self.channels@, channel_id);
        }
        match self.channels.slot(channel_id) {
            Some(i) => {
                let rx = bus_subscribe(&self.buses[i]);
                let who = agent_id.to_owned();
                proof {
                    self.subscribers.lemma_distinct();
                    crate::ledger::lemma_page_views_with_entry(self.subscribers@, channel_id, who);
                }
                self.subscribers.append(channel_id, who);
                Some(rx)
            },
            None => None,
        }
    }

    /// Subscribes the agent to the channel with the name.
    pub fn subscribe_by_name(&mut self, channel_name: &str, agent_id: &str) -> (r: Option<
        Receiver<WsServerMessage>,
    >)
        requires
            old(self).wf(),
        ensures
            final(self).wf(),
            r is Some <==> has_name(old(self)@.channels, channel_name@),
            final(self)@ == (match found_by_name(old(self)@.channels, channel_name@) {
                Some(c) => HubState {
                    subscribers: crate::ledger::with_entry(
                        old(self)@.subscribers,
                        c.id,
                        agent_id@,
                    ),
                    ..old(self)@
                },
                None => old(self)@,
            }),
    {
        match self.id_of(channel_name) {
            Some(id) => self.subscribe(id, agent_id),
            None => None,
        }
    }

    /// Subscribes an agent to the channel with the name at the time `now`,
    /// creating the channel as a public one where it does not exist. An
    /// agent without a name subscribes as "anonymous" and creates as
    /// "ws-client".
    pub fn join_at(&mut self, channel_name: &str, agent_id: &Option<String>, now: Timestamp) -> (r:
        Option<Receiver<WsServerMessage>>)
        requires
            old(self).wf(),
            old(self)@.next_id < u64::MAX,
        ensures
            final(self).wf(),
            r is Some,
            final(self)@ == joined(old(self)@, channel_name@, opt_text(*agent_id), now),
    {
        let created_by = match agent_id {
            Some(a) => a.clone(),
            None => String::from_str("ws-client"),
        };
        let who = match agent_id {
            Some(a) => a.clone(),
            None => String::from_str("anonymous"),
        };
        let req = CreateChannelRequest {
            name: channel_name.to_owned(),
            description: None,
            channel_type: ChannelType::Public,
            created_by,
        };
        let ghost h0 = self@;
        let _ = self.create_channel_at(req, now);
        proof {
            self.lemma_consistent();
            let cs = self@.channels;
            if has_name(h0.channels, channel_name@) {
            } else {
                assert(cs[h0.channels.len() as int].name() == channel_name@);
                crate::directory::lemma_position_of_name(
                    cs,
                    channel_name@,
                    h0.channels.len() as int,
                );
            }
        }
        self.subscribe_by_name(channel_name, who.as_str())
    }

    /// Subscribes an agent to the channel with the name, stamped with the
    /// clock's reading.
    pub fn join(&mut self, channel_name: &str, agent_id: &Option<String>) -> (r: Option<
        Receiver<WsServerMessage>,
    >)
        requires
            old(self).wf(),
            old(self)@.next_id < u64::MAX,
        ensures
            final(self).wf(),
            r is Some,
            exists|t: Timestamp|
                final(self)@ == joined(old(self)@, channel_name@, opt_text(*agent_id), t),
    {
        let t = now();
        self.join_at(channel_name, agent_id, t)
    }

    /// Sends the message on the bus of the channel `channel_id`, if there is
    /// such a channel. The hub stays as it is.
    pub fn broadcast_to_channel(&self, channel_id: u64, message: WsServerMessage)
        requires
            self.wf(),
    {
        match self.channels.slot(channel_id) {
            Some(i) => bus_send(&self.buses[i], message),
            None => {},
        }
    }

    /// Sends the message on the bus of the channel with the name, if there
    /// is such a channel. The hub stays as it is.
    pub fn broadcast_to_channel_by_name(&self, channel_name: &str, message: WsServerMessage)
        requires
            self.wf(),
    {
        match self.id_of(channel_name) {
            Some(id) => self.broadcast_to_channel(id, message),
            None => {},
        }
    }

    /// Copies of the names of the agents that subscribed to the channel, in
    /// the order they did.
    pub fn get_subscribers(&self, channel_id: u64) -> (r: Vec<String>)
        requires
            self.wf(),
        ensures
            texts(r@) == entries_of(self@.subscribers, channel_id),
    {
        proof {
            self.subscribers.lemma_distinct();
            lemma_page_views(self.subscribers@, channel_id);
        }
        match self.subscribers.get(channel_id) {
            Some(list) => {
                let out = copy_texts(list);
                assert(texts(out@) =~= views(list@));
                out
            },
            None => {
                let out: Vec<String> = Vec::new();
                assert(texts(out@) =~= Seq::empty());
                out
            },
        }
    }

    /// Takes in the channels of a snapshot, in order, each with a new bus
    /// and no subscribers. A channel whose id or name is taken is left out.
    pub fn restore_channels(&mut self, channels: &Vec<Channel>)
        requires
            old(self).wf(),
        ensures
            final(self).wf(),
            final(self)@ == with_channels(old(self)@, views(channels@)),
    {
        let ghost cs = views(channels@);
        let mut i: usize = 0;
        while i < channels.len()
            invariant
                self.wf(),
                i <= channels.len(),
                cs == views(channels@),
                self@ == with_channels(old(self)@, cs.take(i as int)),
            decreases channels.len() - i,
        {
            let c = &channels[i];
            proof {
                assert(cs.take(i + 1).drop_last() =~= cs.take(i as int));
                assert(cs.take(i + 1).last() == c@);
                self.channels.lemma_distinct();
                lemma_views_position(self.channels@, c.id);
            }
            if c.id < u64::MAX && self.channels.slot(c.id).is_none() && self.id_of(
                c.name.as_str(),
            ).is_none() {
                if c.id >= self.next_id {
                    self.next_id = c.id + 1;
                }
                self.install(c.clone());
            }
            i += 1;
        }
        assert(cs.take(channels.len() as int) =~= cs);
    }
}

/// The name of the channel of a user's memories.
pub fn user_channel_name(user_id: &str) -> (name: String)
    ensures
        name@ == user_channel(user_id@),
{
    String::from_str("user:").concat(user_id)
}

/// The names of the channels that a change of a memory is published on.
pub fn channels_of_memory(user_id: &Option<String>) -> (names: Vec<String>)
    ensures
        texts(names@) == memory_channels(opt_text(*user_id)),
{
    let mut names: Vec<String> = Vec::new();
    match user_id {
        Some(u) => {
            names.push(user_channel_name(u.as_str()));
        },
        None => {},
    }
    names.push(String::from_str("global"));
    assert(texts(names@) =~= memory_channels(opt_text(*user_id)));
    names
}

/// The message says on `channel` that the memory `m` was added.
pub open spec fn says_added(message: WsServerMessage, channel: Seq<char>, m: MemoryView) -> bool {
    message matches WsServerMessage::MemoryAdded { channel: c, memory } && c@ == channel
        && memory@ == m
}

/// The message says on `channel` that the memory `m` was updated.
pub open spec fn says_updated(message: WsServerMessage, channel: Seq<char>, m: MemoryView) -> bool {
    message matches WsServerMessage::MemoryUpdated { channel: c, memory } && c@ == channel
        && memory@ == m
}

/// The message says on `channel` that the memory `id` was invalidated, and
/// why.
pub open spec fn says_invalidated(
    message: WsServerMessage,
    channel: Seq<char>,
    id: u64,
    reason: Seq<char>,
) -> bool {
    message matches WsServerMessage::MemoryInvalidated { channel: c, memory_id, reason: r }
        && c@ == channel && memory_id == id && r@ == reason
}

/// What is published when a memory is added: on each of its channels, that
/// it was added.
pub fn added_messages(memory: &Memory) -> (out: Vec<(String, WsServerMessage)>)
    ensures
        out@.len() == memory_channels(memory@.user_id).len(),
        forall|i: int|
            0 <= i < out@.len() ==> (#[trigger] out@[i]).0@ == memory_channels(
                memory@.user_id,
            )[i] && says_added(out@[i].1, out@[i].0@, memory@),
{
    let names = channels_of_memory(&memory.user_id);
    let mut out: Vec<(String, WsServerMessage)> = Vec::new();
    let mut i: usize = 0;
    while i < names.len()
        invariant
            i <= names.len(),
            out@.len() == i,
            texts(names@) == memory_channels(memory@.user_id),
            forall|k: int|
                0 <= k < i ==> (#[trigger] out@[k]).0@ == texts(names@)[k] && says_added(
                    out@[k].1,
                    out@[k].0@,
                    memory@,
                ),
        decreases names.len() - i,
    {
        assert(texts(names@)[i as int] == names@[i as int]@);
        let message = WsServerMessage::MemoryAdded {
            channel: names[i].clone(),
            memory: memory.clone(),
        };
        out.push((names[i].clone(), message));
        i += 1;
    }
    assert(texts(names@).len() == names@.len());
    out
}

/// What is published when a memory is updated: on each of its channels,
/// that it was updated.
pub fn updated_messages(memory: &Memory) -> (out: Vec<(String, WsServerMessage)>)
    ensures
        out@.len() == memory_channels(memory@.user_id).len(),
        forall|i: int|
            0 <= i < out@.len() ==> (#[trigger] out@[i]).0@ == memory_channels(
                memory@.user_id,
            )[i] && says_updated(out@[i].1, out@[i].0@, memory@),
{
    let names = channels_of_memory(&memory.user_id);
    let mut out: Vec<(String, WsServerMessage)> = Vec::new();
    let mut i: usize = 0;
    while i < names.len()
        invariant
            i <= names.len(),
            out@.len() == i,
            texts(names@) == memory_channels(memory@.user_id),
            forall|k: int|
                0 <= k < i ==> (#[trigger] out@[k]).0@ == texts(names@)[k] && says_updated(
                    out@[k].1,
                    out@[k].0@,
                    memory@,
                ),
        decreases names.len() - i,
    {
        assert(texts(names@)[i as int] == names@[i as int]@);
        let message = WsServerMessage::MemoryUpdated {
            channel: names[i].clone(),
            memory: memory.clone(),
        };
        out.push((names[i].clone(), message));
        i += 1;
    }
    assert(texts(names@).len() == names@.len());
    out
}

/// What is published when a memory is invalidated: on each of its channels,
/// that it was invalidated, and why.
pub fn invalidated_messages(memory: &Memory, reason: &str) -> (out: Vec<(String, WsServerMessage)>)
    ensures
        out@.len() == memory_channels(memory@.user_id).len(),
        forall|i: int|
            0 <= i < out@.len() ==> (#[trigger] out@[i]).0@ == memory_channels(
                memory@.user_id,
            )[i] && says_invalidated(out@[i].1, out@[i].0@, memory@.id, reason@),
{
    let names = channels_of_memory(&memory.user_id);
    let mut out: Vec<(String, WsServerMessage)> = Vec::new();
    let mut i: usize = 0;
    while i < names.len()
        invariant
            i <= names.len(),
            out@.len() == i,
            texts(names@) == memory_channels(memory@.user_id),
            forall|k: int|
                0 <= k < i ==> (#[trigger] out@[k]).0@ == texts(names@)[k] && says_invalidated(
                    out@[k].1,
                    out@[k].0@,
                    memory@.id,
                    reason@,
                ),
        decreases names.len() - i,
    {
        assert(texts(names@)[i as int] == names@[i as int]@);
        let message = WsServerMessage::MemoryInvalidated {
            channel: names[i].clone(),
            memory_id: memory.id,
            reason: reason.to_owned(),
        };
        out.push((names[i].clone(), message));
        i += 1;
    }
    assert(texts(names@).len() == names@.len());
    out
}

/// Sends each message on the channel it is meant for, in order.
pub fn publish(hub: &ChannelHub, messages: Vec<(String, WsServerMessage)>)
    requires
        hub.wf(),
{
    let mut messages = messages;
    while messages.len() > 0
        invariant
            hub.wf(),
        decreases messages.len(),
    {
        let pair = messages.remove(0);
        hub.broadcast_to_channel_by_name(pair.0.as_str(), pair.1);
    }
}

/// Publishes on each of the memory's channels that the memory was added.
pub fn publish_memory_added(hub: &ChannelHub, memory: &Memory)
    requires
        hub.wf(),
{
    publish(hub, added_messages(memory));
}

/// Publishes on each of the memory's channels that the memory was updated.
pub fn publish_memory_updated(hub: &ChannelHub, memory: &Memory)
    requires
        hub.wf(),
{
    publish(hub, updated_messages(memory));
}

/// Publishes on each of the memory's channels that the memory was
/// invalidated, and why.
pub fn publish_memory_invalidated(hub: &ChannelHub, memory: &Memory, reason: &str)
    requires
        hub.wf(),
{
    publish(hub, invalidated_messages(memory, reason));
}

/// Publishes a message about a task on the channel "tasks".
pub fn publish_task(hub: &ChannelHub, message: WsServerMessage)
    requires
        hub.wf(),
{
    hub.broadcast_to_channel_by_name("tasks", message);
}

} // verus!
