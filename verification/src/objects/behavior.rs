//! What the objects of a scene have in common: they can be drawn, moved and
//! resized.

use vstd::prelude::*;
use macroquad::color::Color;
use crate::fixed::{POS_LIMIT, RADIUS_LIMIT, within};
use crate::globals::Extent;
use crate::objects::absorber::Absorbers;
use crate::objects::circle::{CircleView, ObjectCircle};
use crate::objects::emitters::{EmitterView, Emitters};

verus! {

/// One shape for the renderer to draw.
#[derive(Clone, Copy, Debug, PartialEq)]
pub enum DrawCommand {
    /// A filled circle.
    Circle { x: i64, y: i64, radius: i64, color: Color },
    /// A straight line.
    Line { x1: i64, y1: i64, x2: i64, y2: i64, thickness: i64, color: Color },
}

/// An object that can be drawn.
pub trait Drawable {
    /// The shapes that make up the object, in the order in which they are
    /// drawn.
    spec fn shapes(&self) -> Seq<DrawCommand>;

    /// Lists the shapes that make up the object.
    fn draw_object(&self) -> (r: Vec<DrawCommand>)
        ensures
            r@ == self.shapes(),
    ;
}

/// An object that can be moved.
pub trait Movable {
    /// The object is well formed.
    spec fn movable(&self) -> bool;

    /// The centre of the object.
    spec fn position(&self) -> (int, int);

    /// Moves the centre of the object to `(pos_x, pos_y)`. An object that
    /// casts rays casts them anew from there, over a canvas of size `extent`.
    /// The new centre lies within 4096 pixels of the origin on each axis,
    /// and the canvas is at most 8192 pixels wide and high.
    fn move_object(&mut self, pos_x: i64, pos_y: i64, extent: &Extent)
        requires
            old(self).movable(),
            within(pos_x as int, POS_LIMIT as int),
            within(pos_y as int, POS_LIMIT as int),
            extent.wf(),
        ensures
            final(self).movable(),
            final(self).position() == (pos_x as int, pos_y as int),
    ;
}

/// The new radius of an object of radius `radius` that is resized by
/// `factor`. Enlarging adds the factor. Reducing adds it too, but never
/// takes the radius below `floor`; a radius that is below the floor already
/// is not reduced at all.
pub open spec fn resized(radius: int, factor: int, floor: int) -> int {
    if factor >= 0 {
        radius + factor
    } else if radius <= floor {
        radius
    } else if radius + factor < floor {
        floor
    } else {
        radius + factor
    }
}

/// Computes `resized(radius, factor, floor)`, for a radius that stays
/// within `RADIUS_LIMIT`, which is 16384 pixels.
pub fn resize(radius: i64, factor: i64, floor: i64) -> (r: i64)
    requires
        0 <= floor <= RADIUS_LIMIT,
        0 <= radius <= RADIUS_LIMIT,
        radius + factor <= RADIUS_LIMIT,
    ensures
        r == resized(radius as int, factor as int, floor as int),
        0 <= r <= RADIUS_LIMIT,
{
    let sum: i128 = radius as i128 + factor as i128;
    if factor >= 0 {
        sum as i64
    } else if radius <= floor {
        radius
    } else if sum < floor as i128 {
        floor
    } else {
        sum as i64
    }
}

/// An object with a radius that can be changed.
pub trait VariableSize {
    /// The object is well formed.
    spec fn sized(&self) -> bool;

    /// The radius of the object.
    spec fn size(&self) -> int;

    /// The radius below which the object is never reduced.
    spec fn min_size(&self) -> int;

    /// Adds `factor` to the radius. Reducing does not take the radius below
    /// the minimum. The new radius is at most `RADIUS_LIMIT`, which is 16384
    /// pixels.
    fn change_radius(&mut self, factor: i64)
        requires
            old(self).sized(),
            old(self).size() + factor <= RADIUS_LIMIT,
        ensures
            final(self).sized(),
            final(self).min_size() == old(self).min_size(),
            final(self).size() == resized(old(self).size(), factor as int, old(self).min_size()),
    ;

    /// The radius of the object.
    fn get_radius(&self) -> (r: i64)
        ensures
            r == self.size(),
    ;
}


/// Any object of a scene.
#[derive(Clone, Debug)]
pub enum RaytracerObjects {
    /// A plain circle, which neither casts nor stops rays.
    ObjectCircle(ObjectCircle),
    /// An emitter, which casts rays.
    Emitters(Emitters),
    /// An absorber, which stops rays.
    Absorbers(Absorbers),
}

/// An object of a scene as contracts see it.
pub enum ObjectView {
    Circle(CircleView),
    Emitter(EmitterView),
    Absorber(CircleView),
}

impl ObjectView {
    /// The object is well formed.
    pub open spec fn wf(self) -> bool {
        match self {
            ObjectView::Circle(c) => c.wf(),
            ObjectView::Emitter(e) => e.wf(),
            ObjectView::Absorber(c) => c.wf(),
        }
    }

    /// The circle that places and draws the object.
    pub open spec fn base(self) -> CircleView {
        match self {
            ObjectView::Circle(c) => c,
            ObjectView::Emitter(e) => e.base,
            ObjectView::Absorber(c) => c,
        }
    }

    /// The same object with another circle.
    pub open spec fn with_base(self, base: CircleView) -> ObjectView {
        match self {
            ObjectView::Circle(_) => ObjectView::Circle(base),
            ObjectView::Emitter(e) => ObjectView::Emitter(e.with_base(base)),
            ObjectView::Absorber(_) => ObjectView::Absorber(base),
        }
    }

    /// The radius below which the object is never reduced.
    pub open spec fn min_radius(self) -> int {
        match self {
            ObjectView::Emitter(_) => crate::globals::OBJD_EMITTER_MIN_RADIUS as int,
            _ => 0,
        }
    }
}

impl View for RaytracerObjects {
    type V = ObjectView;

    open spec fn view(&self) -> ObjectView {
        match self {
            RaytracerObjects::ObjectCircle(c) => ObjectView::Circle(c@),
            RaytracerObjects::Emitters(e) => ObjectView::Emitter(e@),
            RaytracerObjects::Absorbers(a) => ObjectView::Absorber(a@),
        }
    }
}

impl RaytracerObjects {
    /// The object is one that the scene accepts.
    pub open spec fn wf(&self) -> bool {
        self@.wf()
    }

    /// The circle that places and draws the object.
    pub fn base(&self) -> (r: &ObjectCircle)
        ensures
            r@ == self@.base(),
    {
        match self {
            RaytracerObjects::ObjectCircle(object) => object,
            RaytracerObjects::Emitters(emitter) => emitter.base(),
            RaytracerObjects::Absorbers(absorber) => absorber.base(),
        }
    }

    /// A copy of the object.
    pub fn duplicate(&self) -> (r: RaytracerObjects)
        ensures
            r@ == self@,
    {
        match self {
            RaytracerObjects::ObjectCircle(object) => RaytracerObjects::ObjectCircle(*object),
            RaytracerObjects::Emitters(emitter) => RaytracerObjects::Emitters(emitter.duplicate()),
            RaytracerObjects::Absorbers(absorber) => RaytracerObjects::Absorbers(*absorber),
        }
    }

    /// Whether the object is one that the scene accepts.
    pub fn is_valid(&self) -> (r: bool)
        ensures
            r == self.wf(),
    {
        match self {
            RaytracerObjects::ObjectCircle(object) => object.is_valid(),
            RaytracerObjects::Emitters(emitter) => emitter.is_valid(),
            RaytracerObjects::Absorbers(absorber) => absorber.base().is_valid(),
        }
    }

    /// The centre of the object.
    pub fn get_pos(&self) -> (r: (i64, i64))
        ensures
            r.0 == self@.base().x,
            r.1 == self@.base().y,
    {
        let base = self.base();
        (base.pos_x, base.pos_y)
    }
}

impl Drawable for RaytracerObjects {
    open spec fn shapes(&self) -> Seq<DrawCommand> {
        match self {
            RaytracerObjects::ObjectCircle(o) => o.shapes(),
            RaytracerObjects::Emitters(o) => o.shapes(),
            RaytracerObjects::Absorbers(o) => o.shapes(),
        }
    }

    fn draw_object(&self) -> (r: Vec<DrawCommand>) {
        match self {
            RaytracerObjects::ObjectCircle(o) => o.draw_object(),
            RaytracerObjects::Emitters(o) => o.draw_object(),
            RaytracerObjects::Absorbers(o) => o.draw_object(),
        }
    }
}

impl Movable for RaytracerObjects {
    open spec fn movable(&self) -> bool {
        self.wf()
    }

    open spec fn position(&self) -> (int, int) {
        (self@.base().x, self@.base().y)
    }

    /// Moves the object. An emitter casts its rays anew from the new centre.
    fn move_object(&mut self, pos_x: i64, pos_y: i64, extent: &Extent)
        ensures
            final(self)@ == (match old(self)@ {
                ObjectView::Emitter(e) => ObjectView::Emitter(
                    e.with_base(e.base.moved(pos_x as int, pos_y as int)).recast(
                        e.cast_count(),
                        *extent,
                    ),
                ),
                other => other.with_base(other.base().moved(pos_x as int, pos_y as int)),
            }),
    {
        match self {
            RaytracerObjects::ObjectCircle(o) => o.move_object(pos_x, pos_y, extent),
            RaytracerObjects::Emitters(o) => o.move_object(pos_x, pos_y, extent),
            RaytracerObjects::Absorbers(o) => o.move_object(pos_x, pos_y, extent),
        }
    }
}

impl VariableSize for RaytracerObjects {
    open spec fn sized(&self) -> bool {
        self.wf()
    }

    open spec fn size(&self) -> int {
        self@.base().radius
    }

    open spec fn min_size(&self) -> int {
        self@.min_radius()
    }

    fn change_radius(&mut self, factor: i64)
        ensures
            final(self)@ == old(self)@.with_base(
                old(self)@.base().with_radius(
                    resized(old(self)@.base().radius, factor as int, old(self)@.min_radius()),
                ),
            ),
    {
        match self {
            RaytracerObjects::ObjectCircle(o) => o.change_radius(factor),
            RaytracerObjects::Emitters(o) => o.change_radius(factor),
            RaytracerObjects::Absorbers(o) => o.change_radius(factor),
        }
    }

    fn get_radius(&self) -> (r: i64) {
        self.base().radius
    }
}

} // verus!
