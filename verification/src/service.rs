//! What spans the engine and the channel hub: snapshots of both.

use crate::channels::{with_channels, ChannelHub, HubState};
use crate::clock::{now, Timestamp};
use crate::memory_engine::{after_restore, snapshot_of, EngineState, MemoryEngine};
use crate::persistence::{restorable, Snapshot, SnapshotView};
use vstd::prelude::*;

verus! {

/// The snapshot of an engine and a hub, taken at `now`: that of the engine,
/// with the channels of the hub.
pub open spec fn snapshot_of_all(e: EngineState, h: HubState, now: Timestamp) -> SnapshotView {
    SnapshotView { channels: h.channels, ..snapshot_of(e, now) }
}

/// A snapshot of the engine and the hub, taken at `now`.
pub fn snapshot_all_at(engine: &MemoryEngine, hub: &ChannelHub, now: Timestamp) -> (snap: Snapshot)
    requires
        engine.wf(),
        hub.wf(),
    ensures
        snap@ == snapshot_of_all(engine@, hub@, now),
{
    let mut snap = engine.create_snapshot_at(now);
    snap.channels = hub.list_channels();
    snap
}

/// A snapshot of the engine and the hub, stamped with the clock's reading.
pub fn snapshot_all(engine: &MemoryEngine, hub: &ChannelHub) -> (snap: Snapshot)
    requires
        engine.wf(),
        hub.wf(),
    ensures
        exists|t: Timestamp| snap@ == snapshot_of_all(engine@, hub@, t),
{
    let t = now();
    snapshot_all_at(engine, hub, t)
}

/// Restores a snapshot into the engine and the hub: the engine takes the
/// records, the hub the channels, without subscribers.
pub fn restore_all(engine: &mut MemoryEngine, hub: &mut ChannelHub, snapshot: Snapshot)
    requires
        old(engine).wf(),
        old(hub).wf(),
        restorable(snapshot@),
    ensures
        final(engine).wf(),
        final(hub).wf(),
        final(engine)@ == after_restore(old(engine)@, snapshot@),
        final(hub)@ == with_channels(old(hub)@, snapshot@.channels),
{
    hub.restore_channels(&snapshot.channels);
    engine.restore_from_snapshot(snapshot);
}

} // verus!
