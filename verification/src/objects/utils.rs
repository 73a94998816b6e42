//! From a direction and a length to a pair of points.

pub use crate::helpers::object_utils::linspace;
use vstd::prelude::*;
use crate::fixed::{COORD_LIMIT, scale, scale_exec, within};
use crate::trig::{cos_sin, cos_spec, sin_spec};

verus! {

/// The segment that starts at `start_point` and runs a length of
/// `magnitude.0` towards the angle `theta`: the two coordinates of its start,
/// then the two coordinates of its end. The second component of `magnitude`
/// is not used. The start lies within 16384 pixels of the origin on each
/// axis, and the length is at most 16384 pixels.
pub fn vec_to_coords(theta: i64, magnitude: (i64, i64), start_point: (i64, i64)) -> (r: (
    i64,
    i64,
    i64,
    i64,
))
    requires
        within(magnitude.0 as int, COORD_LIMIT as int),
        within(start_point.0 as int, COORD_LIMIT as int),
        within(start_point.1 as int, COORD_LIMIT as int),
    ensures
        r.0 == start_point.0,
        r.1 == start_point.1,
        r.2 == start_point.0 + scale(cos_spec(theta as int), magnitude.0 as int),
        r.3 == start_point.1 + scale(sin_spec(theta as int), magnitude.0 as int),
{
    let (c, s) = cos_sin(theta);
    (
        start_point.0,
        start_point.1,
        start_point.0 + scale_exec(c, magnitude.0),
        start_point.1 + scale_exec(s, magnitude.0),
    )
}

} // verus!
