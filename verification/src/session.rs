//! The per-tick step that joins the state machine to the snapshot, and what
//! holds of a whole play session.

use crate::editor_state::{EditorPlayState, PlayRequest, PlayStateMachine, SnapshotAction};
use crate::entity_store::{world_entities, world_transforms};
use crate::snapshot::{
    capture_snapshot, captures, lemma_restore_returns_to_capture, restore_snapshot, restored,
    EditorSnapshot, EntityState,
};
use bevy::ecs::entity::Entity;
use bevy::ecs::world::World;
use bevy::transform::components::Transform;
use vstd::prelude::*;

verus! {

/// The editor between two ticks, as values: the machine's state and slot,
/// the snapshot, and the transforms in the store.
pub struct Session {
    pub state: EditorPlayState,
    pub pending: Option<PlayRequest>,
    pub snapshot: Seq<EntityState>,
    pub store: Map<Entity, Transform>,
}

/// The session that a machine, a snapshot and a world make up.
pub open spec fn session_of(
    machine: PlayStateMachine,
    snapshot: EditorSnapshot,
    world: World,
) -> Session {
    Session {
        state: machine.state(),
        pending: machine.pending(),
        snapshot: snapshot@,
        store: world_transforms(world),
    }
}

/// The state a tick leads to from `session`.
pub open spec fn state_after_tick(session: Session) -> EditorPlayState {
    match session.pending {
        Some(request) => session.state.spec_after(request),
        None => session.state,
    }
}

/// The snapshot work a tick does in `session`.
pub open spec fn action_of_tick(session: Session) -> SnapshotAction {
    match session.pending {
        Some(request) => session.state.spec_action(request),
        None => SnapshotAction::Keep,
    }
}

/// One tick takes `before` to `after`: the pending request is committed and
/// the snapshot is taken, written back or left alone as the transition asks.
pub open spec fn ticks_to(before: Session, after: Session) -> bool {
    &&& after.state == state_after_tick(before)
    &&& after.pending is None
    &&& match action_of_tick(before) {
        SnapshotAction::Keep => after.snapshot == before.snapshot && after.store == before.store,
        SnapshotAction::Capture => captures(after.snapshot, before.store) && after.store
            == before.store,
        SnapshotAction::Restore => after.snapshot == before.snapshot && after.store == restored(
            before.store,
            before.snapshot,
        ),
    }
}

/// Commits the pending request and does the snapshot work that belongs to
/// the transition: a capture on entering `Playing` from `Stopped`, a restore
/// on returning to `Stopped`, nothing otherwise. Returns which it was.
/// No entity is spawned or despawned.
pub fn apply_transition(
    machine: &mut PlayStateMachine,
    snapshot: &mut EditorSnapshot,
    world: &mut World,
) -> (action: SnapshotAction)
    ensures
        ticks_to(
            session_of(*old(machine), *old(snapshot), *old(world)),
            session_of(*final(machine), *final(snapshot), *final(world)),
        ),
        action == action_of_tick(session_of(*old(machine), *old(snapshot), *old(world))),
        world_entities(*final(world)) == world_entities(*old(world)),
{
    let action = machine.commit();
    match action {
        SnapshotAction::Keep => {},
        SnapshotAction::Capture => capture_snapshot(snapshot, world),
        SnapshotAction::Restore => restore_snapshot(snapshot, world),
    }
    action
}

/// One frame takes `earlier` to `later`: gameplay and the editor change the
/// store and fill the slot as they like, then the tick runs. State and
/// snapshot are the tick's alone.
pub open spec fn frame(earlier: Session, later: Session) -> bool {
    exists|store: Map<Entity, Transform>, pending: Option<PlayRequest>|
        ticks_to(
            Session { state: earlier.state, pending, snapshot: earlier.snapshot, store },
            later,
        )
}

/// `trace` is a run of the editor, frame after frame.
pub open spec fn is_run(trace: Seq<Session>) -> bool {
    forall|k: int| 0 <= k < trace.len() - 1 ==> frame(#[trigger] trace[k], trace[k + 1])
}

/// While a play session lasts, the snapshot is the one taken at its start.
proof fn lemma_snapshot_held(trace: Seq<Session>, play: int, at: int)
    requires
        is_run(trace),
        0 <= play < at < trace.len(),
        trace[play].state == EditorPlayState::Stopped,
        forall|k: int| play < k <= at ==> (#[trigger] trace[k]).state != EditorPlayState::Stopped,
    ensures
        trace[at].snapshot == trace[play + 1].snapshot,
        captures(trace[play + 1].snapshot, trace[play + 1].store),
    decreases at - play,
{
    if at == play + 1 {
        assert(frame(trace[play], trace[play + 1]));
    } else {
        lemma_snapshot_held(trace, play, at - 1);
        assert(frame(trace[at - 1], trace[at - 1 + 1]));
        assert(trace[at - 1].state != EditorPlayState::Stopped);
        assert(trace[at].state != EditorPlayState::Stopped);
    }
}

/// Stopping returns every surviving entity to where it was when play began.
///
/// Take any run of the editor and any play session in it: frame `play`
/// leaves `Stopped`, the frames up to `stop` stay out of it, whatever is
/// requested and however the store changes meanwhile, and frame `stop`
/// returns to `Stopped`. Then each entity that the store holds after the
/// stop and held when the session began has the transform it had then.
/// Earlier sessions of the run have no part in it.
pub proof fn lemma_play_session_round_trip(trace: Seq<Session>, play: int, stop: int)
    requires
        is_run(trace),
        0 <= play < stop < trace.len() - 1,
        trace[play].state == EditorPlayState::Stopped,
        forall|k: int| play < k <= stop ==> (#[trigger] trace[k]).state != EditorPlayState::Stopped,
        trace[stop + 1].state == EditorPlayState::Stopped,
    ensures
        forall|entity: Entity|
            trace[stop + 1].store.contains_key(entity) && trace[play + 1].store.contains_key(entity)
                ==> #[trigger] trace[stop + 1].store[entity] == trace[play + 1].store[entity],
{
    lemma_snapshot_held(trace, play, stop);
    assert(frame(trace[stop], trace[stop + 1]));
    let (store, pending) = choose|store: Map<Entity, Transform>, pending: Option<PlayRequest>|
        ticks_to(
            Session { state: trace[stop].state, pending, snapshot: trace[stop].snapshot, store },
            trace[stop + 1],
        );
    lemma_restore_returns_to_capture(trace[play + 1].store, trace[stop].snapshot, store);
}

} // verus!
