//! Naming in the scene hierarchy: numbers for new entities, and the
//! component that gives an unnamed entity its display name.

use crate::text::same_text;
use vstd::prelude::*;

verus! {

/// Counter for generating unique entity names.
pub struct EntityCounter(pub u32);

impl Default for EntityCounter {
    fn default() -> (counter: Self)
        ensures
            counter.0 == 0,
    {
        EntityCounter(0)
    }
}

impl EntityCounter {
    /// Counts one entity more and returns its number. The first is 1.
    pub fn next_number(&mut self) -> (number: u32)
        requires
            old(self).0 < u32::MAX,
        ensures
            number == old(self).0 + 1,
            final(self).0 == number,
    {
        self.0 += 1;
        self.0
    }
}

/// A component that nearly every entity has, and that says nothing about
/// what the entity is.
pub open spec fn is_plain_component(name: Seq<char>) -> bool {
    ||| name == "bevy_transform::components::transform::Transform"@
    ||| name == "bevy_transform::components::global_transform::GlobalTransform"@
    ||| name == "bevy_sprite::sprite::Sprite"@
    ||| name == "bevy_render::view::visibility::Visibility"@
    ||| name == "bevy_render::view::visibility::InheritedVisibility"@
    ||| name == "bevy_render::view::visibility::ViewVisibility"@
}

/// Whether `name` is one of the components that do not identify an entity.
pub fn plain_component(name: &str) -> (plain: bool)
    ensures
        plain == is_plain_component(name@),
{
    same_text(name, "bevy_transform::components::transform::Transform") || same_text(
        name,
        "bevy_transform::components::global_transform::GlobalTransform",
    ) || same_text(name, "bevy_sprite::sprite::Sprite") || same_text(
        name,
        "bevy_render::view::visibility::Visibility",
    ) || same_text(name, "bevy_render::view::visibility::InheritedVisibility") || same_text(
        name,
        "bevy_render::view::visibility::ViewVisibility",
    )
}

/// Finds the component an unnamed entity is named after: the first of its
/// components, in the order given, that is not a plain one. `None` where
/// all are plain.
pub fn identifying_component(names: &Vec<String>) -> (found: Option<usize>)
    ensures
        match found {
            Some(at) => {
                &&& at < names@.len()
                &&& !is_plain_component(names@[at as int]@)
                &&& forall|k: int| 0 <= k < at ==> is_plain_component(#[trigger] names@[k]@)
            },
            None => forall|k: int| 0 <= k < names@.len() ==> is_plain_component(#[trigger] names@[k]@),
        },
{
    let mut i: usize = 0;
    while i < names.len()
        invariant
            i <= names.len(),
            forall|k: int| 0 <= k < i ==> is_plain_component(#[trigger] names@[k]@),
        decreases names.len() - i,
    {
        if !plain_component(names[i].as_str()) {
            return Some(i);
        }
        i += 1;
    }
    None
}

} // verus!
