//! The objects of a scene: circles, rays, emitters and absorbers.

pub mod absorber;
pub mod behavior;
pub mod circle;
pub mod emitters;
pub mod occlusion;
pub mod ray;
pub mod utils;
