//! The engine's entity store, as far as the editor reads and writes it.
//!
//! The store belongs to Bevy. Verified code sees it as a set of entities and
//! a map from entities to transforms, and reaches it through the functions
//! at the end of this file, whose contracts are assumed, not proved.

use bevy::ecs::entity::Entity;
use bevy::ecs::world::World;
use bevy::transform::components::Transform;
use vstd::prelude::*;

verus! {

/// Bevy's `World`, the store itself. Nothing inside it is visible here.
#[verifier::external_type_specification]
#[verifier::external_body]
pub struct ExWorld(bevy::ecs::world::World);

/// Bevy's `Entity`, the key of an entity: an index and a generation. It is
/// carried and compared, never taken apart.
#[verifier::external_type_specification]
#[verifier::external_body]
pub struct ExEntity(bevy::ecs::entity::Entity);

/// Bevy's `Transform`: translation, rotation and scale. It is copied as a
/// whole, never taken apart.
#[verifier::external_type_specification]
#[verifier::external_body]
pub struct ExTransform(bevy::transform::components::Transform);

/// Bevy's `Vec2`, the type of a captured velocity. It is only carried.
#[verifier::external_type_specification]
#[verifier::external_body]
pub struct ExVec2(bevy::math::Vec2);

/// The transform of every entity of `world` that carries one.
pub uninterp spec fn world_transforms(world: World) -> Map<Entity, Transform>;

/// The entities of `world`: those spawned and not yet despawned.
pub uninterp spec fn world_entities(world: World) -> Set<Entity>;

/// `entries` names every key of `store` exactly once, each with its value.
pub open spec fn enumerates(entries: Seq<(Entity, Transform)>, store: Map<Entity, Transform>) -> bool {
    &&& forall|i: int|
        0 <= i < entries.len() ==> store.contains_pair(#[trigger] entries[i].0, entries[i].1)
    &&& forall|i: int, j: int|
        0 <= i < j < entries.len() ==> (#[trigger] entries[i]).0 != (#[trigger] entries[j]).0
    &&& forall|entity: Entity| #[trigger]
        store.contains_key(entity) ==> exists|i: int|
            0 <= i < entries.len() && (#[trigger] entries[i]).0 == entity
}

/// Runs `World::query` for `(Entity, &Transform)` and copies out what its
/// iterator yields. Bevy yields each entity that has a `Transform` once, with
/// that transform, in an order it does not promise. Each of them is an
/// entity of the world. The query spawns and despawns nothing and leaves
/// every transform as it was.
#[verifier::external_body]
pub(crate) fn transform_entries(world: &mut World) -> (entries: Vec<(Entity, Transform)>)
    ensures
        enumerates(entries@, world_transforms(*old(world))),
        forall|i: int|
            0 <= i < entries@.len() ==> world_entities(*old(world)).contains(
                (#[trigger] entries@[i]).0,
            ),
        world_transforms(*final(world)) == world_transforms(*old(world)),
        world_entities(*final(world)) == world_entities(*old(world)),
{
    let mut entries = Vec::new();
    let mut query = world.query::<(Entity, &Transform)>();
    for (entity, transform) in query.iter(world) {
        entries.push((entity, *transform));
    }
    entries
}

/// Writes through `World::get_mut::<Transform>`. Bevy hands out the slot only
/// if `entity` is an entity of the world and has a `Transform`; then that one
/// transform is replaced and `true` comes back. Otherwise nothing is written.
/// Either way no entity is spawned or despawned.
#[verifier::external_body]
pub(crate) fn write_transform(world: &mut World, entity: Entity, transform: Transform) -> (written:
    bool)
    ensures
        written == world_transforms(*old(world)).contains_key(entity),
        world_transforms(*final(world)) == if written {
            world_transforms(*old(world)).insert(entity, transform)
        } else {
            world_transforms(*old(world))
        },
        world_entities(*final(world)) == world_entities(*old(world)),
{
    match world.get_mut::<Transform>(entity) {
        Some(mut slot) => {
            *slot = transform;
            true
        },
        None => false,
    }
}

/// Compares with `Entity`'s own `==`, which holds exactly when index and
/// generation agree, that is, for one and the same entity.
#[verifier::external_body]
pub(crate) fn same_entity(left: Entity, right: Entity) -> (same: bool)
    ensures
        same == (left == right),
{
    left == right
}

} // verus!
