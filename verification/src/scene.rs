//! Scene bookkeeping: which file the scene came from, whether it has
//! unsaved changes, and which entities belong in a scene file.

use std::path::PathBuf;
use vstd::prelude::*;

verus! {

/// std's `PathBuf`. A path is stored and handed back, never looked into.
#[verifier::external_type_specification]
#[verifier::external_body]
pub struct ExPathBuf(std::path::PathBuf);

/// Manages the current scene state.
pub struct SceneManager {
    /// Path to the currently loaded scene file, if any.
    pub current_scene_path: Option<PathBuf>,
    /// Whether the scene has unsaved changes.
    pub dirty: bool,
}

impl Default for SceneManager {
    fn default() -> (manager: Self)
        ensures
            manager.current_scene_path is None,
            !manager.dirty,
    {
        SceneManager { current_scene_path: None, dirty: false }
    }
}

impl SceneManager {
    /// Marks the scene as having unsaved changes.
    pub fn mark_dirty(&mut self)
        ensures
            final(self).dirty,
            final(self).current_scene_path == old(self).current_scene_path,
    {
        self.dirty = true;
    }

    /// Clears the dirty flag (called after save).
    pub fn mark_clean(&mut self)
        ensures
            !final(self).dirty,
            final(self).current_scene_path == old(self).current_scene_path,
    {
        self.dirty = false;
    }
}

/// Checks if an entity should be included in scene serialization.
///
/// Cameras are runtime only, and an entity without a transform is one of the
/// engine's own; neither is written to a scene file.
pub fn should_serialize_entity(is_camera: bool, has_transform: bool) -> (included: bool)
    ensures
        included == (!is_camera && has_transform),
{
    if is_camera {
        return false;
    }
    if !has_transform {
        return false;
    }
    true
}

} // verus!
