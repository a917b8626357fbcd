//! The rules of a small 2D editor built on Bevy, with proofs.
//!
//! The heart is the play-state machine: the editor is `Stopped`, `Playing`
//! or `Paused`; entering play takes a snapshot of every transform in the
//! scene and stopping writes it back. [`editor_state`] holds the machine,
//! [`snapshot`] the capture and restore, [`session`] the per-tick step that
//! joins the two and the laws of a whole play session, and [`entity_store`]
//! the view of Bevy's world that all of it rests on.
//!
//! Around it stand the editor's smaller rules: the asset tree
//! ([`assets`], [`asset_listing`]), frame stepping ([`animation`]), the
//! selection marker ([`selection`]), names in the hierarchy
//! ([`hierarchy`]), the inspector's choice of editor ([`inspector`]), scene
//! bookkeeping ([`scene`]), the file menu's status line ([`file_menu`]) and
//! the text search they share ([`text`]).
//!
//! Drawing, windows, files and the engine's schedule are not in here.

pub mod animation;
pub mod asset_listing;
pub mod assets;
pub mod editor_state;
pub mod entity_store;
pub mod file_menu;
pub mod hierarchy;
pub mod inspector;
pub mod scene;
pub mod selection;
pub mod session;
pub mod snapshot;
pub mod text;
