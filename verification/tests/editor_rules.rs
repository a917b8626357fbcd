use bevy::prelude::{Entity, World};
use sandbox_engine::animation::{advance_frame, frame_after_delete, FrameStep};
use sandbox_engine::file_menu::FileMenuState;
use sandbox_engine::hierarchy::{identifying_component, plain_component, EntityCounter};
use sandbox_engine::inspector::{component_editor, is_common_component, short_type_name, ComponentEditor};
use sandbox_engine::scene::{should_serialize_entity, SceneManager};
use sandbox_engine::selection::{sync_selection_marker, EditorSelection};
use std::path::PathBuf;

#[test]
fn advance_moves_to_the_next_frame() {
    assert_eq!(advance_frame(0, 4, true), FrameStep { current_frame: 1, playing: true });
    assert_eq!(advance_frame(2, 4, false), FrameStep { current_frame: 3, playing: true });
}

#[test]
fn advance_wraps_when_looping() {
    assert_eq!(advance_frame(3, 4, true), FrameStep { current_frame: 0, playing: true });
    assert_eq!(advance_frame(0, 1, true), FrameStep { current_frame: 0, playing: true });
}

#[test]
fn advance_holds_the_last_frame_when_not_looping() {
    assert_eq!(advance_frame(3, 4, false), FrameStep { current_frame: 3, playing: false });
    assert_eq!(advance_frame(0, 1, false), FrameStep { current_frame: 0, playing: false });
}

#[test]
fn delete_pulls_the_current_frame_back() {
    assert_eq!(frame_after_delete(3, 3), 2);
    assert_eq!(frame_after_delete(5, 3), 2);
    assert_eq!(frame_after_delete(1, 3), 1);
    assert_eq!(frame_after_delete(0, 1), 0);
    assert_eq!(frame_after_delete(0, 0), 0);
    assert_eq!(frame_after_delete(2, 0), 2);
}

#[test]
fn scene_manager_starts_clean_without_path() {
    let manager = SceneManager::default();
    assert!(manager.current_scene_path.is_none());
    assert!(!manager.dirty);
}

#[test]
fn mark_dirty_and_clean_flip_only_the_flag() {
    let mut manager = SceneManager::default();
    manager.current_scene_path = Some(PathBuf::from("assets/scenes/a.scn.ron"));
    manager.mark_dirty();
    assert!(manager.dirty);
    assert_eq!(manager.current_scene_path, Some(PathBuf::from("assets/scenes/a.scn.ron")));
    manager.mark_dirty();
    assert!(manager.dirty);
    manager.mark_clean();
    assert!(!manager.dirty);
    assert_eq!(manager.current_scene_path, Some(PathBuf::from("assets/scenes/a.scn.ron")));
    manager.mark_clean();
    assert!(!manager.dirty);
}

#[test]
fn only_transformed_non_cameras_are_serialized() {
    assert!(should_serialize_entity(false, true));
    assert!(!should_serialize_entity(true, true));
    assert!(!should_serialize_entity(false, false));
    assert!(!should_serialize_entity(true, false));
}

#[test]
fn file_menu_shows_one_message_at_a_time() {
    let mut state = FileMenuState::default();
    assert!(state.error_message.is_none());
    assert!(state.success_message.is_none());
    state.set_success_message("Saved: a.scn.ron");
    assert_eq!(state.success_message.as_deref(), Some("Saved: a.scn.ron"));
    assert!(state.error_message.is_none());
    state.set_error_message("Failed to save: disk full");
    assert_eq!(state.error_message.as_deref(), Some("Failed to save: disk full"));
    assert!(state.success_message.is_none());
    state.set_success_message("Created new scene");
    assert_eq!(state.success_message.as_deref(), Some("Created new scene"));
    assert!(state.error_message.is_none());
}

#[test]
fn entity_counter_counts_from_one() {
    let mut counter = EntityCounter::default();
    assert_eq!(counter.0, 0);
    assert_eq!(counter.next_number(), 1);
    assert_eq!(counter.next_number(), 2);
    assert_eq!(counter.0, 2);
    let mut counter = EntityCounter(u32::MAX - 1);
    assert_eq!(counter.next_number(), u32::MAX);
}

#[test]
fn plain_components_are_the_six_listed() {
    for name in [
        "bevy_transform::components::transform::Transform",
        "bevy_transform::components::global_transform::GlobalTransform",
        "bevy_sprite::sprite::Sprite",
        "bevy_render::view::visibility::Visibility",
        "bevy_render::view::visibility::InheritedVisibility",
        "bevy_render::view::visibility::ViewVisibility",
    ] {
        assert!(plain_component(name), "{}", name);
    }
    for name in ["", "Transform", "bevy_sprite::sprite::Sprite2", "spaceminer::Ship", "bevy_core::name::Name"] {
        assert!(!plain_component(name), "{}", name);
    }
}

#[test]
fn identifying_component_is_the_first_that_is_not_plain() {
    let names = vec![
        "bevy_transform::components::transform::Transform".to_string(),
        "bevy_sprite::sprite::Sprite".to_string(),
        "spaceminer::Ship".to_string(),
        "spaceminer::Velocity".to_string(),
    ];
    assert_eq!(identifying_component(&names), Some(2));
    assert_eq!(identifying_component(&names[..2].to_vec()), None);
    assert_eq!(identifying_component(&vec![]), None);
    assert_eq!(identifying_component(&vec!["x::Y".to_string()]), Some(0));
}

#[test]
fn short_type_name_is_the_last_path_segment() {
    assert_eq!(short_type_name("bevy_transform::components::transform::Transform"), "Transform");
    assert_eq!(short_type_name("Ship"), "Ship");
    assert_eq!(short_type_name("a::b::"), "");
    assert_eq!(short_type_name(""), "");
    assert_eq!(short_type_name("core::option::Option<alloc::string::String>"), "String>");
}

#[test]
fn component_editor_goes_by_the_type_name() {
    let cases = [
        ("bevy_transform::components::transform::Transform", ComponentEditor::Transform),
        ("bevy_transform::components::global_transform::GlobalTransform", ComponentEditor::ReadOnly),
        ("sandbox_engine::assets::SpriteAnimation", ComponentEditor::SpriteAnimation),
        ("bevy_sprite::sprite::Sprite", ComponentEditor::Sprite),
        ("sandbox_engine::assets::AssetPath", ComponentEditor::AssetPath),
        ("spaceminer::Velocity", ComponentEditor::Velocity),
        ("bevy_core_pipeline::core_2d::camera_2d::Camera2d", ComponentEditor::Camera),
        ("bevy_core::name::Name", ComponentEditor::Name),
        ("bevy_render::view::visibility::Visibility", ComponentEditor::ReadOnly),
        ("", ComponentEditor::ReadOnly),
    ];
    for (name, editor) in cases {
        assert_eq!(component_editor(name), editor, "{}", name);
    }
}

#[test]
fn component_editor_takes_the_first_word_that_matches() {
    assert_eq!(component_editor("game::TransformSprite"), ComponentEditor::Transform);
    assert_eq!(component_editor("game::SpriteVelocity"), ComponentEditor::Sprite);
    assert_eq!(component_editor("game::VelocityName"), ComponentEditor::Velocity);
    assert_eq!(component_editor("game::NameOfTypePath"), ComponentEditor::ReadOnly);
    assert_eq!(component_editor("game::GlobalTransformSprite"), ComponentEditor::Sprite);
    assert_eq!(component_editor("game::Camera2dName"), ComponentEditor::Camera);
}

#[test]
fn common_components_stand_open() {
    for name in [
        "bevy_transform::components::transform::Transform",
        "bevy_sprite::sprite::Sprite",
        "sandbox_engine::assets::SpriteAnimation",
        "spaceminer::Velocity",
        "bevy_core::name::Name",
        "sandbox_engine::assets::AssetPath",
        "game::GlobalTransformVelocity",
    ] {
        assert!(is_common_component(name), "{}", name);
    }
    for name in [
        "bevy_transform::components::global_transform::GlobalTransform",
        "bevy_core_pipeline::core_2d::camera_2d::Camera2d",
        "bevy_render::view::visibility::Visibility",
        "game::NameTypePath",
        "",
    ] {
        assert!(!is_common_component(name), "{}", name);
    }
}

fn three_entities() -> (Entity, Entity, Entity) {
    let mut world = World::new();
    let a = world.spawn_empty().id();
    let b = world.spawn_empty().id();
    let c = world.spawn_empty().id();
    (a, b, c)
}

#[test]
fn default_selection_is_empty() {
    assert!(EditorSelection::default().selected_entity.is_none());
}

#[test]
fn marker_moves_to_the_selected_entity() {
    let (a, b, _) = three_entities();
    let selection = EditorSelection { selected_entity: Some(b) };
    let changes = sync_selection_marker(&selection, &vec![a]);
    assert_eq!(changes.remove, vec![a]);
    assert_eq!(changes.insert, Some(b));
}

#[test]
fn marker_stays_where_it_is_right() {
    let (a, b, c) = three_entities();
    let selection = EditorSelection { selected_entity: Some(b) };
    let changes = sync_selection_marker(&selection, &vec![a, b, c]);
    assert_eq!(changes.remove, vec![a, c]);
    assert_eq!(changes.insert, None);
    let changes = sync_selection_marker(&selection, &vec![b]);
    assert!(changes.remove.is_empty());
    assert_eq!(changes.insert, None);
}

#[test]
fn markers_go_when_nothing_is_selected() {
    let (a, b, _) = three_entities();
    let selection = EditorSelection { selected_entity: None };
    let changes = sync_selection_marker(&selection, &vec![b, a]);
    assert_eq!(changes.remove, vec![b, a]);
    assert_eq!(changes.insert, None);
    let changes = sync_selection_marker(&selection, &vec![]);
    assert!(changes.remove.is_empty());
    assert_eq!(changes.insert, None);
}

#[test]
fn first_selection_gets_the_marker() {
    let (a, _, _) = three_entities();
    let selection = EditorSelection { selected_entity: Some(a) };
    let changes = sync_selection_marker(&selection, &vec![]);
    assert!(changes.remove.is_empty());
    assert_eq!(changes.insert, Some(a));
}

#[test]
fn marker_tells_generations_apart() {
    let mut world = World::new();
    let old = world.spawn_empty().id();
    world.despawn(old);
    let new = world.spawn_empty().id();
    assert_eq!(old.index(), new.index());
    let selection = EditorSelection { selected_entity: Some(new) };
    let changes = sync_selection_marker(&selection, &vec![old]);
    assert_eq!(changes.remove, vec![old]);
    assert_eq!(changes.insert, Some(new));
}
