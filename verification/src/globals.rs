//! Configuration of the scene: limits, defaults and the extent of the canvas.

use vstd::prelude::*;
use crate::fixed::EXTENT_LIMIT;

verus! {

/// The height of the window when it opens, in pixels.
pub const WINDOW_HEIGHT: i32 = 800;

/// The width of the window when it opens, in pixels.
pub const WINDOW_WIDTH: i32 = 600;

/// The largest number of objects that a scene holds.
pub const OBJC_MAX_OBJ_COUNT: usize = 100;

/// The number of rays above which an emitter is reported as overloaded.
pub const OBJC_MAX_RAY_COUNT: i32 = 100;

/// The smallest number of rays that an emitter can be reduced to.
pub const OBJC_MIN_RAY_COUNT: i32 = 3;

/// How far outside an object the pointer still selects it: 5 pixels.
pub const OBJC_MOUSE_EPSILON: i64 = 327680;

/// The radius of a newly created object: 50 pixels.
pub const OBJD_CIRCLE_RADIUS: i64 = 3276800;

/// The thickness of a ray: 1 pixel.
pub const OBJD_RAY_WIDTH: i64 = 65536;

/// The number of rays of a newly created emitter.
pub const OBJD_RAY_COUNT: i32 = 32;

/// The diameter of a newly created collimated beam: twice the default radius.
pub const OBJD_COLLIMATED_BEAM_DIAMETER: i64 = 6553600;

/// The orientation of a newly created collimated emitter.
pub const OBJD_COLLIMATED_ORIENTATION: i64 = 0;

/// The opening angle of a newly created spotlight: a sixth of a turn.
pub const OBJD_SPOTLIGHT_BEAM_ANGLE: i64 = 68629;

/// The orientation of a newly created spotlight.
pub const OBJD_SPOTLIGHT_ORIENTATION: i64 = 0;

/// The step by which a key press enlarges or reduces an object: 5 pixels.
pub const OBJD_ENLARGE_REDUCE_FACTOR: i64 = 327680;

/// The step by which a key press widens or narrows a collimated beam:
/// 1 pixel.
pub const KEYB_EMM_SEC_COLL_WIDTH_DELTA: i64 = 65536;

/// The step by which a key press opens or closes the cone of a spotlight:
/// about one degree.
pub const KEYB_EMM_SEC_SPOT_ANGLE_DELTA: i64 = 1144;

/// The radius below which an emitter is not reduced: 30 pixels.
pub const OBJD_EMITTER_MIN_RADIUS: i64 = 1966080;

/// The width and height of the canvas, which bound the length of a ray.
#[derive(Clone, Copy, Debug)]
pub struct Extent {
    pub width: i64,
    pub height: i64,
}

impl Extent {
    /// Neither side is negative or longer than `EXTENT_LIMIT`, which is 8192
    /// pixels.
    pub open spec fn wf(&self) -> bool {
        &&& 0 <= self.width <= EXTENT_LIMIT
        &&& 0 <= self.height <= EXTENT_LIMIT
    }

    /// An extent of the given width and height.
    pub fn new(width: i64, height: i64) -> (r: Extent)
        ensures
            r.width == width,
            r.height == height,
    {
        Extent { width, height }
    }

    /// Whether the extent is one that the ray generators accept.
    pub fn is_valid(&self) -> (r: bool)
        ensures
            r == self.wf(),
    {
        0 <= self.width && self.width <= EXTENT_LIMIT && 0 <= self.height && self.height
            <= EXTENT_LIMIT
    }
}

} // verus!
