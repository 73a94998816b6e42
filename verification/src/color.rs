//! Colours.
//!
//! The scene stores the colour of each circle and ray and hands it on to
//! whoever draws; it never looks inside one.

use vstd::prelude::*;
use macroquad::color::Color;

verus! {

#[verifier::external_type_specification]
#[verifier::external_body]
pub struct ExColor(macroquad::color::Color);

/// The colour that `macroquad::color::Color::from_rgba` builds from four
/// channel values between 0 and 255.
pub uninterp spec fn rgba_color(r: u8, g: u8, b: u8, a: u8) -> Color;

/// Calls `macroquad::color::Color::from_rgba`, which divides each channel by
/// 255 and stores the four quotients. The contract claims only that the
/// result is a function of the four channels.
#[verifier::external_body]
pub(crate) fn color_from_rgba(r: u8, g: u8, b: u8, a: u8) -> (c: Color)
    ensures
        c == rgba_color(r, g, b, a),
{
    Color::from_rgba(r, g, b, a)
}

/// The background of the window: opaque black.
pub fn window_bg_color() -> (c: Color)
    ensures
        c == rgba_color(0, 0, 0, 255),
{
    color_from_rgba(0, 0, 0, 255)
}

/// Cornflower blue.
pub fn cornflower_blue() -> (c: Color)
    ensures
        c == rgba_color(99, 148, 235, 255),
{
    color_from_rgba(99, 148, 235, 255)
}

/// The fill of a newly created circle.
pub open spec fn circle_fill() -> Color {
    rgba_color(99, 148, 235, 255)
}

/// The fill of a newly created circle.
pub fn objd_circle_fill() -> (c: Color)
    ensures
        c == circle_fill(),
{
    cornflower_blue()
}

/// The colour of a newly cast ray: a medium grey.
pub open spec fn ray_color() -> Color {
    rgba_color(128, 128, 128, 255)
}

/// The colour of a newly cast ray.
pub fn objd_ray_color() -> (c: Color)
    ensures
        c == ray_color(),
{
    color_from_rgba(128, 128, 128, 255)
}

} // verus!
