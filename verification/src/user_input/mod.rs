//! What the user asks of the scene.

pub mod actions;
pub mod add_to_scene_actions;
pub mod emitter_actions;
