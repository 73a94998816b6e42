//! The circle: the position, size and colour of every object of a scene.

use vstd::prelude::*;
use macroquad::color::Color;
use crate::fixed::{POS_LIMIT, RADIUS_LIMIT, within};
use crate::globals::Extent;
use crate::helpers::object_utils::add_object_to_collection;
use crate::objects::behavior::{
    DrawCommand, Drawable, Movable, ObjectView, RaytracerObjects, VariableSize, resize, resized,
};
use crate::globals::OBJC_MAX_OBJ_COUNT;
use crate::scene::{Scene, SceneError};

verus! {

/// A circle of the scene.
#[derive(Clone, Copy, Debug, PartialEq)]
pub struct ObjectCircle {
    /// The horizontal coordinate of the centre.
    pub pos_x: i64,
    /// The vertical coordinate of the centre.
    pub pos_y: i64,
    /// The colour that the circle is filled with.
    pub color_fill: Color,
    /// The radius.
    pub radius: i64,
}

/// A circle as contracts see it.
pub struct CircleView {
    pub x: int,
    pub y: int,
    pub radius: int,
    pub color: Color,
}

impl CircleView {
    /// The centre lies within `POS_LIMIT` of the origin on each axis, which
    /// is 4096 pixels, and the radius between zero and `RADIUS_LIMIT`, which
    /// is 16384 pixels.
    pub open spec fn wf(self) -> bool {
        &&& within(self.x, POS_LIMIT as int)
        &&& within(self.y, POS_LIMIT as int)
        &&& 0 <= self.radius <= RADIUS_LIMIT
    }

    /// The same circle at another place.
    pub open spec fn moved(self, x: int, y: int) -> CircleView {
        CircleView { x, y, ..self }
    }

    /// The same circle with another radius.
    pub open spec fn with_radius(self, radius: int) -> CircleView {
        CircleView { radius, ..self }
    }
}

impl View for ObjectCircle {
    type V = CircleView;

    open spec fn view(&self) -> CircleView {
        CircleView {
            x: self.pos_x as int,
            y: self.pos_y as int,
            radius: self.radius as int,
            color: self.color_fill,
        }
    }
}

impl ObjectCircle {
    /// The circle is one that the scene accepts.
    pub open spec fn wf(&self) -> bool {
        self@.wf()
    }

    /// A circle with the given centre, colour and radius.
    pub fn new(pos_x: i64, pos_y: i64, color_fill: Color, radius: i64) -> (r: ObjectCircle)
        ensures
            r@ == (CircleView { x: pos_x as int, y: pos_y as int, radius: radius as int, color: color_fill }),
    {
        ObjectCircle { pos_x, pos_y, color_fill, radius }
    }

    /// Makes a circle with the given centre, colour and radius, appends it to
    /// the scene as a plain circle, and hands back a copy. A full scene
    /// refuses the circle. The centre lies within 4096 pixels of the origin
    /// on each axis, and the radius is at most 16384 pixels.
    pub fn new_and_add(
        scene: &mut Scene,
        pos_x: i64,
        pos_y: i64,
        color_fill: Color,
        radius: i64,
    ) -> (r: Result<ObjectCircle, SceneError>)
        requires
            old(scene).wf(),
            within(pos_x as int, POS_LIMIT as int),
            within(pos_y as int, POS_LIMIT as int),
            0 <= radius <= RADIUS_LIMIT,
        ensures
            final(scene).wf(),
            r is Ok <==> old(scene)@.len() < OBJC_MAX_OBJ_COUNT,
            r matches Ok(circle) ==> {
                &&& circle@ == (CircleView {
                    x: pos_x as int,
                    y: pos_y as int,
                    radius: radius as int,
                    color: color_fill,
                })
                &&& final(scene)@ == old(scene)@.push(ObjectView::Circle(circle@))
            },
            r matches Err(e) ==> e == SceneError::CapacityExceeded && final(scene)@ == old(scene)@,
    {
        let new_circle = ObjectCircle::new(pos_x, pos_y, color_fill, radius);
        match add_object_to_collection(scene, RaytracerObjects::ObjectCircle(new_circle)) {
            Ok(()) => Ok(new_circle),
            Err(e) => Err(e),
        }
    }

    /// Whether the circle is one that the scene accepts.
    pub fn is_valid(&self) -> (r: bool)
        ensures
            r == self.wf(),
    {
        -POS_LIMIT <= self.pos_x && self.pos_x <= POS_LIMIT && -POS_LIMIT <= self.pos_y
            && self.pos_y <= POS_LIMIT && 0 <= self.radius && self.radius <= RADIUS_LIMIT
    }

    /// The shape that draws the circle.
    pub open spec fn shape(&self) -> DrawCommand {
        DrawCommand::Circle {
            x: self.pos_x,
            y: self.pos_y,
            radius: self.radius,
            color: self.color_fill,
        }
    }
}

impl Drawable for ObjectCircle {
    open spec fn shapes(&self) -> Seq<DrawCommand> {
        seq![self.shape()]
    }

    fn draw_object(&self) -> (r: Vec<DrawCommand>) {
        let mut out: Vec<DrawCommand> = Vec::new();
        out.push(
            DrawCommand::Circle {
                x: self.pos_x,
                y: self.pos_y,
                radius: self.radius,
                color: self.color_fill,
            },
        );
        assert(out@ =~= seq![self.shape()]);
        out
    }
}

impl Movable for ObjectCircle {
    open spec fn movable(&self) -> bool {
        self.wf()
    }

    open spec fn position(&self) -> (int, int) {
        (self.pos_x as int, self.pos_y as int)
    }

    fn move_object(&mut self, pos_x: i64, pos_y: i64, extent: &Extent)
        ensures
            final(self)@ == old(self)@.moved(pos_x as int, pos_y as int),
    {
        self.pos_x = pos_x;
        self.pos_y = pos_y;
    }
}

impl VariableSize for ObjectCircle {
    open spec fn sized(&self) -> bool {
        self.wf()
    }

    open spec fn size(&self) -> int {
        self.radius as int
    }

    open spec fn min_size(&self) -> int {
        0
    }

    fn change_radius(&mut self, factor: i64)
        ensures
            final(self)@ == old(self)@.with_radius(resized(old(self)@.radius, factor as int, 0)),
    {
        self.radius = resize(self.radius, factor, 0);
    }

    fn get_radius(&self) -> (r: i64) {
        self.radius
    }
}

} // verus!
