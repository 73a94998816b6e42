//! Absorbers: objects that stop the rays that strike them.

use vstd::prelude::*;
use crate::globals::Extent;
use crate::objects::behavior::{
    DrawCommand, Drawable, Movable, VariableSize, resize, resized,
};
use crate::objects::circle::{CircleView, ObjectCircle};

verus! {

/// An absorber that stops every ray that strikes its disk.
#[derive(Clone, Copy, Debug, PartialEq)]
pub struct AbsorberPerfect {
    /// The disk of the absorber.
    pub base_object: ObjectCircle,
}

/// An absorber of any kind.
#[derive(Clone, Copy, Debug, PartialEq)]
pub enum Absorbers {
    /// An absorber that stops every ray.
    AbsorberPerfect(AbsorberPerfect),
}

impl AbsorberPerfect {
    /// A perfect absorber with the given disk.
    pub fn new(base_object: ObjectCircle) -> (r: AbsorberPerfect)
        ensures
            r.base_object == base_object,
    {
        AbsorberPerfect { base_object }
    }
}

impl View for Absorbers {
    type V = CircleView;

    /// An absorber is seen as its disk.
    open spec fn view(&self) -> CircleView {
        match self {
            Absorbers::AbsorberPerfect(o) => o.base_object@,
        }
    }
}

impl Absorbers {
    /// The absorber is one that the scene accepts.
    pub open spec fn wf(&self) -> bool {
        self@.wf()
    }

    /// The disk of the absorber.
    pub fn base(&self) -> (r: &ObjectCircle)
        ensures
            r@ == self@,
    {
        match self {
            Absorbers::AbsorberPerfect(o) => &o.base_object,
        }
    }
}

impl Drawable for Absorbers {
    open spec fn shapes(&self) -> Seq<DrawCommand> {
        match self {
            Absorbers::AbsorberPerfect(o) => o.base_object.shapes(),
        }
    }

    fn draw_object(&self) -> (r: Vec<DrawCommand>) {
        match self {
            Absorbers::AbsorberPerfect(obj) => obj.base_object.draw_object(),
        }
    }
}

impl Movable for Absorbers {
    open spec fn movable(&self) -> bool {
        self.wf()
    }

    open spec fn position(&self) -> (int, int) {
        (self@.x, self@.y)
    }

    fn move_object(&mut self, pos_x: i64, pos_y: i64, extent: &Extent)
        ensures
            final(self)@ == old(self)@.moved(pos_x as int, pos_y as int),
    {
        match self {
            Absorbers::AbsorberPerfect(obj) => obj.base_object.move_object(pos_x, pos_y, extent),
        }
    }
}

impl VariableSize for Absorbers {
    open spec fn sized(&self) -> bool {
        self.wf()
    }

    open spec fn size(&self) -> int {
        self@.radius
    }

    open spec fn min_size(&self) -> int {
        0
    }

    fn change_radius(&mut self, factor: i64)
        ensures
            final(self)@ == old(self)@.with_radius(resized(old(self)@.radius, factor as int, 0)),
    {
        match self {
            Absorbers::AbsorberPerfect(obj) => {
                obj.base_object.radius = resize(obj.base_object.radius, factor, 0);
            },
        }
    }

    fn get_radius(&self) -> (r: i64) {
        match self {
            Absorbers::AbsorberPerfect(obj) => obj.base_object.radius,
        }
    }
}

} // verus!
