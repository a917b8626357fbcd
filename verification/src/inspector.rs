//! Which editor the inspector shows for a component, decided by the
//! component's type name.

use crate::text::{contains, contains_text, last_segment, last_segment_of};
use vstd::prelude::*;

verus! {

/// The inspector's editors.
#[derive(Debug, Clone, Copy, PartialEq, Eq, Structural)]
pub enum ComponentEditor {
    /// Position, rotation and scale fields.
    Transform,
    /// Playback controls and the frame list.
    SpriteAnimation,
    /// Colour and size fields.
    Sprite,
    /// Path field with a preview.
    AssetPath,
    /// Read-out of a velocity.
    Velocity,
    /// A fixed line for the 2D camera.
    Camera,
    /// Read-out of the entity's name.
    Name,
    /// Only the type's short name is shown.
    ReadOnly,
}

/// The name of a transform component, but not of a global transform.
pub open spec fn names_transform(name: Seq<char>) -> bool {
    contains_text(name, "Transform"@) && !contains_text(name, "GlobalTransform"@)
}

/// The name of a name component, but not of a type path.
pub open spec fn names_name(name: Seq<char>) -> bool {
    contains_text(name, "Name"@) && !contains_text(name, "TypePath"@)
}

/// The editor for a component type name: the first of the editors, in the
/// order given here, whose word the name holds.
pub open spec fn spec_component_editor(name: Seq<char>) -> ComponentEditor {
    if names_transform(name) {
        ComponentEditor::Transform
    } else if contains_text(name, "SpriteAnimation"@) {
        ComponentEditor::SpriteAnimation
    } else if contains_text(name, "Sprite"@) {
        ComponentEditor::Sprite
    } else if contains_text(name, "AssetPath"@) {
        ComponentEditor::AssetPath
    } else if contains_text(name, "Velocity"@) {
        ComponentEditor::Velocity
    } else if contains_text(name, "Camera2d"@) {
        ComponentEditor::Camera
    } else if names_name(name) {
        ComponentEditor::Name
    } else {
        ComponentEditor::ReadOnly
    }
}

/// Whether a component stands open when the inspector first shows it.
pub open spec fn spec_is_common_component(name: Seq<char>) -> bool {
    ||| names_transform(name)
    ||| contains_text(name, "Sprite"@) && !contains_text(name, "SpriteAnimation"@)
    ||| contains_text(name, "Velocity"@)
    ||| names_name(name)
    ||| contains_text(name, "AssetPath"@)
    ||| contains_text(name, "SpriteAnimation"@)
}

/// Picks the editor for a component by its type name.
pub fn component_editor(name: &str) -> (editor: ComponentEditor)
    ensures
        editor == spec_component_editor(name@),
{
    if contains(name, "Transform") && !contains(name, "GlobalTransform") {
        ComponentEditor::Transform
    } else if contains(name, "SpriteAnimation") {
        ComponentEditor::SpriteAnimation
    } else if contains(name, "Sprite") {
        ComponentEditor::Sprite
    } else if contains(name, "AssetPath") {
        ComponentEditor::AssetPath
    } else if contains(name, "Velocity") {
        ComponentEditor::Velocity
    } else if contains(name, "Camera2d") {
        ComponentEditor::Camera
    } else if contains(name, "Name") && !contains(name, "TypePath") {
        ComponentEditor::Name
    } else {
        ComponentEditor::ReadOnly
    }
}

/// Checks if a component should be expanded by default.
pub fn is_common_component(name: &str) -> (common: bool)
    ensures
        common == spec_is_common_component(name@),
{
    (contains(name, "Transform") && !contains(name, "GlobalTransform")) || (contains(
        name,
        "Sprite",
    ) && !contains(name, "SpriteAnimation")) || contains(name, "Velocity") || (contains(
        name,
        "Name",
    ) && !contains(name, "TypePath")) || contains(name, "AssetPath") || contains(
        name,
        "SpriteAnimation",
    )
}

/// The last segment of a type path: what follows its last `::`.
pub open spec fn short_name(name: Seq<char>) -> Seq<char> {
    last_segment(name, seq![':', ':'])
}

/// Extracts the short name from a full type path.
pub fn short_type_name(name: &str) -> (short: &str)
    ensures
        short@ == short_name(name@),
{
    proof {
        reveal_strlit("::");
        assert("::"@ =~= seq![':', ':']);
    }
    last_segment_of(name, "::")
}

} // verus!
