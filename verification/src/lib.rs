//! A two-dimensional light scene: emitters cast rays, absorbers cut them short.
//!
//! All geometry is computed in fixed-point integers (see [`fixed`]). The
//! functions of the crate are verified against their contracts; the one call
//! into the rendering crate, which builds a colour from its four channels,
//! is taken on trust (see [`color`]).

pub mod color;
pub mod fixed;
pub mod globals;
pub mod trig;
pub mod objects;
pub mod scene;
pub mod helpers;
pub mod user_input;
