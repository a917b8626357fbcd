//! Snapshot of entity transforms, taken when play starts and written back
//! when it stops.

use crate::entity_store::{
    enumerates, transform_entries, world_entities, world_transforms, write_transform,
};
use bevy::ecs::entity::Entity;
use bevy::ecs::world::World;
use bevy::math::Vec2;
use bevy::transform::components::Transform;
use vstd::prelude::*;

verus! {

/// State of a single entity for snapshot/restore.
#[derive(Clone, Copy)]
pub struct EntityState {
    /// The entity this state belongs to.
    pub entity: Entity,
    /// The entity's transform at snapshot time.
    pub transform: Transform,
    /// Optional velocity (as Vec2) if the entity had one.
    pub velocity: Option<Vec2>,
}

/// Snapshot of entity states for restoring after stopping playback.
pub struct EditorSnapshot {
    /// Stored entity transforms and velocities for restoration.
    pub entity_states: Vec<EntityState>,
}

impl View for EditorSnapshot {
    type V = Seq<EntityState>;

    open spec fn view(&self) -> Seq<EntityState> {
        self.entity_states@
    }
}

impl Default for EditorSnapshot {
    fn default() -> (snapshot: Self)
        ensures
            snapshot@ == Seq::<EntityState>::empty(),
    {
        EditorSnapshot { entity_states: Vec::new() }
    }
}

/// `states` is a snapshot of `store`: one state per entity of the store, each
/// with the entity's transform there, none twice, none with a velocity.
pub open spec fn captures(states: Seq<EntityState>, store: Map<Entity, Transform>) -> bool {
    &&& enumerates(states.map_values(|state: EntityState| (state.entity, state.transform)), store)
    &&& forall|i: int| 0 <= i < states.len() ==> (#[trigger] states[i]).velocity is None
}

/// The transform that the last state for `entity` in `states` holds, if there is one.
pub open spec fn last_captured(states: Seq<EntityState>, entity: Entity) -> Option<Transform>
    decreases states.len(),
{
    if states.len() == 0 {
        None
    } else if states.last().entity == entity {
        Some(states.last().transform)
    } else {
        last_captured(states.drop_last(), entity)
    }
}

/// The store after `states` has been written back to it: the same entities,
/// each with its captured transform if it has one, else with the one it had.
pub open spec fn restored(store: Map<Entity, Transform>, states: Seq<EntityState>) -> Map<
    Entity,
    Transform,
> {
    Map::new(
        |entity: Entity| store.contains_key(entity),
        |entity: Entity|
            match last_captured(states, entity) {
                Some(transform) => transform,
                None => store[entity],
            },
    )
}

/// Writing back one more state is one guarded write.
proof fn lemma_restored_push(store: Map<Entity, Transform>, states: Seq<EntityState>, next: EntityState)
    ensures
        restored(store, states.push(next)) == if store.contains_key(next.entity) {
            restored(store, states).insert(next.entity, next.transform)
        } else {
            restored(store, states)
        },
{
    let longer = states.push(next);
    assert(longer.drop_last() =~= states);
    assert(longer.last() == next);
    assert forall|entity: Entity| #[trigger]
        last_captured(longer, entity) == if entity == next.entity {
            Some(next.transform)
        } else {
            last_captured(states, entity)
        } by {}
    if store.contains_key(next.entity) {
        assert(restored(store, longer) =~= restored(store, states).insert(
            next.entity,
            next.transform,
        ));
    } else {
        assert(restored(store, longer) =~= restored(store, states));
    }
}

/// Captures entity states when entering play mode.
///
/// Whatever the snapshot held is discarded. Afterwards it holds one state for
/// each entity that has a transform, with that transform; the store itself is
/// left as it was.
pub fn capture_snapshot(snapshot: &mut EditorSnapshot, world: &mut World)
    ensures
        captures(final(snapshot)@, world_transforms(*old(world))),
        world_transforms(*old(world)).dom().finite(),
        final(snapshot)@.len() == world_transforms(*old(world)).dom().len(),
        forall|i: int|
            0 <= i < final(snapshot)@.len() ==> world_entities(*old(world)).contains(
                (#[trigger] final(snapshot)@[i]).entity,
            ),
        world_transforms(*final(world)) == world_transforms(*old(world)),
        world_entities(*final(world)) == world_entities(*old(world)),
{
    snapshot.entity_states.clear();
    let entries = transform_entries(world);
    let mut i: usize = 0;
    while i < entries.len()
        invariant
            i <= entries.len(),
            snapshot.entity_states@.len() == i,
            forall|k: int|
                0 <= k < i ==> (#[trigger] snapshot.entity_states@[k]) == (EntityState {
                    entity: entries@[k].0,
                    transform: entries@[k].1,
                    velocity: None,
                }),
        decreases entries.len() - i,
    {
        let (entity, transform) = entries[i];
        snapshot.entity_states.push(EntityState { entity, transform, velocity: None });
        i += 1;
    }
    proof {
        let store = world_transforms(*old(world));
        assert(snapshot@.map_values(|state: EntityState| (state.entity, state.transform))
            =~= entries@);
        lemma_enumerated_store_is_finite(entries@, store);
    }
}

/// Restores entity states when returning to stopped mode.
///
/// Each state is written to its entity if the store still has that entity
/// with a transform, and skipped if not. No entity is created or removed.
pub fn restore_snapshot(snapshot: &EditorSnapshot, world: &mut World)
    ensures
        world_transforms(*final(world)) == restored(world_transforms(*old(world)), snapshot@),
        world_entities(*final(world)) == world_entities(*old(world)),
{
    let mut i: usize = 0;
    proof {
        assert(snapshot@.take(0) =~= Seq::<EntityState>::empty());
        assert(restored(world_transforms(*world), Seq::<EntityState>::empty()) =~= world_transforms(
            *world,
        ));
    }
    while i < snapshot.entity_states.len()
        invariant
            i <= snapshot.entity_states.len(),
            world_transforms(*world) == restored(
                world_transforms(*old(world)),
                snapshot@.take(i as int),
            ),
            world_entities(*world) == world_entities(*old(world)),
        decreases snapshot.entity_states.len() - i,
    {
        let state = &snapshot.entity_states[i];
        proof {
            lemma_restored_push(world_transforms(*old(world)), snapshot@.take(i as int), *state);
            assert(snapshot@.take(i as int).push(*state) =~= snapshot@.take(i + 1));
        }
        write_transform(world, state.entity, state.transform);
        i += 1;
    }
    proof {
        assert(snapshot@.take(i as int) =~= snapshot@);
    }
}

/// Where no state of `states` names `entity`, nothing is captured for it.
proof fn lemma_last_captured_absent(states: Seq<EntityState>, entity: Entity)
    requires
        forall|i: int| 0 <= i < states.len() ==> (#[trigger] states[i]).entity != entity,
    ensures
        last_captured(states, entity) is None,
    decreases states.len(),
{
    if states.len() > 0 {
        assert(states.last().entity != entity);
        assert forall|i: int| 0 <= i < states.drop_last().len() implies (#[trigger] states.drop_last()[i]).entity
            != entity by {
            assert(states.drop_last()[i] == states[i]);
        }
        lemma_last_captured_absent(states.drop_last(), entity);
    }
}

/// Where state `at` names `entity` and no later state does, its transform is the captured one.
proof fn lemma_last_captured_found(states: Seq<EntityState>, entity: Entity, at: int)
    requires
        0 <= at < states.len(),
        states[at].entity == entity,
        forall|i: int| at < i < states.len() ==> (#[trigger] states[i]).entity != entity,
    ensures
        last_captured(states, entity) == Some(states[at].transform),
    decreases states.len(),
{
    if at < states.len() - 1 {
        assert(states.last().entity != entity);
        assert forall|i: int| at < i < states.drop_last().len() implies (#[trigger] states.drop_last()[i]).entity
            != entity by {
            assert(states.drop_last()[i] == states[i]);
        }
        assert(states.drop_last()[at] == states[at]);
        lemma_last_captured_found(states.drop_last(), entity, at);
    }
}

/// A snapshot of a store holds, for each entity, exactly what the store held.
pub proof fn lemma_capture_records_store(
    states: Seq<EntityState>,
    store: Map<Entity, Transform>,
    entity: Entity,
)
    requires
        captures(states, store),
    ensures
        last_captured(states, entity) == if store.contains_key(entity) {
            Some(store[entity])
        } else {
            None::<Transform>
        },
{
    let entries = states.map_values(|state: EntityState| (state.entity, state.transform));
    if store.contains_key(entity) {
        let at = choose|i: int| 0 <= i < entries.len() && (#[trigger] entries[i]).0 == entity;
        assert(store.contains_pair(entries[at].0, entries[at].1));
        assert forall|i: int| at < i < states.len() implies (#[trigger] states[i]).entity
            != entity by {
            assert(entries[at].0 != entries[i].0);
        }
        lemma_last_captured_found(states, entity, at);
    } else {
        assert forall|i: int| 0 <= i < states.len() implies (#[trigger] states[i]).entity
            != entity by {
            assert(store.contains_pair(entries[i].0, entries[i].1));
        }
        lemma_last_captured_absent(states, entity);
    }
}

/// A capture yields one state per entity that has a transform.
///
/// With `n` such entities in the store the snapshot has `n` states, and the
/// state for an entity holds the transform the store has for it.
pub proof fn lemma_capture_counts_entities(states: Seq<EntityState>, store: Map<Entity, Transform>)
    requires
        captures(states, store),
    ensures
        store.dom().finite(),
        states.len() == store.dom().len(),
        forall|i: int|
            0 <= i < states.len() ==> store.contains_pair(
                (#[trigger] states[i]).entity,
                states[i].transform,
            ),
{
    let entries = states.map_values(|state: EntityState| (state.entity, state.transform));
    lemma_enumerated_store_is_finite(entries, store);
    assert forall|i: int| 0 <= i < states.len() implies store.contains_pair(
        (#[trigger] states[i]).entity,
        states[i].transform,
    ) by {
        assert(store.contains_pair(entries[i].0, entries[i].1));
    }
}

/// Stopping undoes what play did to the transforms.
///
/// Take a snapshot of the store `at_play`, let the store change in any way
/// into `at_stop`, and write the snapshot back. Every entity that is in both
/// stores then has the transform it had at play. The store has the same
/// entities as `at_stop`, and one that appeared after the capture keeps its
/// transform.
pub proof fn lemma_restore_returns_to_capture(
    at_play: Map<Entity, Transform>,
    states: Seq<EntityState>,
    at_stop: Map<Entity, Transform>,
)
    requires
        captures(states, at_play),
    ensures
        restored(at_stop, states).dom() == at_stop.dom(),
        forall|entity: Entity|
            at_stop.contains_key(entity) && at_play.contains_key(entity) ==> #[trigger] restored(
                at_stop,
                states,
            )[entity] == at_play[entity],
        forall|entity: Entity|
            at_stop.contains_key(entity) && !at_play.contains_key(entity) ==> #[trigger] restored(
                at_stop,
                states,
            )[entity] == at_stop[entity],
{
    assert(restored(at_stop, states).dom() =~= at_stop.dom());
    assert forall|entity: Entity| at_stop.contains_key(entity) implies #[trigger] restored(
        at_stop,
        states,
    )[entity] == if at_play.contains_key(entity) {
        at_play[entity]
    } else {
        at_stop[entity]
    } by {
        lemma_capture_records_store(states, at_play, entity);
    }
}

/// An entity that left the store during play is passed over.
///
/// Let `removed` be captured at play and gone at stop. Writing the snapshot
/// back does not bring it back, and every other captured entity that is still
/// there gets its transform from play.
pub proof fn lemma_restore_skips_removed_entity(
    at_play: Map<Entity, Transform>,
    states: Seq<EntityState>,
    at_stop: Map<Entity, Transform>,
    removed: Entity,
)
    requires
        captures(states, at_play),
        at_play.contains_key(removed),
        !at_stop.contains_key(removed),
    ensures
        !restored(at_stop, states).contains_key(removed),
        forall|entity: Entity|
            at_stop.contains_key(entity) && at_play.contains_key(entity) ==> restored(
                at_stop,
                states,
            ).contains_key(entity) && #[trigger] restored(at_stop, states)[entity]
                == at_play[entity],
{
    lemma_restore_returns_to_capture(at_play, states, at_stop);
}

/// Writing a snapshot back twice gives what writing it back once gives.
pub proof fn lemma_restore_is_idempotent(store: Map<Entity, Transform>, states: Seq<EntityState>)
    ensures
        restored(restored(store, states), states) == restored(store, states),
{
    assert(restored(restored(store, states), states) =~= restored(store, states));
}

/// A restore depends on the store that was captured, not on how the
/// snapshot came about: two snapshots of one store write back the same
/// transforms, whatever either held before and in whatever order they list
/// the entities.
pub proof fn lemma_restore_depends_on_captured_store(
    captured: Map<Entity, Transform>,
    first: Seq<EntityState>,
    second: Seq<EntityState>,
    store: Map<Entity, Transform>,
)
    requires
        captures(first, captured),
        captures(second, captured),
    ensures
        restored(store, first) == restored(store, second),
{
    assert forall|entity: Entity| last_captured(first, entity) == last_captured(
        second,
        entity,
    ) by {
        lemma_capture_records_store(first, captured, entity);
        lemma_capture_records_store(second, captured, entity);
    }
    assert(restored(store, first) =~= restored(store, second));
}

/// A store that a sequence enumerates has as many entities as the sequence has entries.
proof fn lemma_enumerated_store_is_finite(
    entries: Seq<(Entity, Transform)>,
    store: Map<Entity, Transform>,
)
    requires
        enumerates(entries, store),
    ensures
        store.dom().finite(),
        store.dom().len() == entries.len(),
    decreases entries.len(),
{
    if entries.len() == 0 {
        assert(store.dom() =~= Set::<Entity>::empty());
    } else {
        let last = entries.last();
        let rest = entries.drop_last();
        let smaller = store.remove(last.0);
        assert(enumerates(rest, smaller)) by {
            assert forall|i: int| 0 <= i < rest.len() implies smaller.contains_pair(
                #[trigger] rest[i].0,
                rest[i].1,
            ) by {
                assert(rest[i] == entries[i]);
                assert(entries[i].0 != entries[entries.len() - 1].0);
            }
            assert forall|entity: Entity| #[trigger] smaller.contains_key(entity) implies exists|
                i: int,
            |
                0 <= i < rest.len() && (#[trigger] rest[i]).0 == entity by {
                let i = choose|i: int| 0 <= i < entries.len() && (#[trigger] entries[i]).0 == entity;
                assert(rest[i] == entries[i]);
            }
        }
        lemma_enumerated_store_is_finite(rest, smaller);
        assert(store.contains_key(last.0)) by {
            assert(store.contains_pair(entries[entries.len() - 1].0, entries[entries.len() - 1].1));
        }
        assert(store.dom() =~= smaller.dom().insert(last.0));
    }
}

} // verus!
