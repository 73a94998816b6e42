//! Operations on the scene as a whole.

pub mod action_utils;
pub mod object_utils;
