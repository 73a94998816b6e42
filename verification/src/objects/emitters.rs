//! Emitters: objects that cast rays.
//!
//! An emitter is a circle, a beam pattern and the rays that the pattern
//! casts from the circle's centre. The rays are derived data: every method
//! that changes the position, the pattern or the number of rays casts all of
//! them anew, so that a ray cut short by an absorber is whole again. The
//! radius is no input of the rays, and a change of it leaves them alone.

use vstd::prelude::*;
use crate::fixed::{ANGLE_LIMIT, DIAMETER_LIMIT, POS_LIMIT, RADIUS_LIMIT, RAY_LIMIT, floor_div, within};
use crate::globals::{
    Extent, OBJC_MAX_RAY_COUNT, OBJC_MIN_RAY_COUNT, OBJD_EMITTER_MIN_RADIUS, OBJD_RAY_COUNT,
};
use crate::objects::behavior::{
    DrawCommand, Drawable, Movable, VariableSize, resize, resized,
};
use crate::objects::circle::{CircleView, ObjectCircle};
use crate::objects::ray::{
    ObjectRay, RayView, collimated_rays, duplicate_rays, init_collimated_rays, init_isotropic_rays,
    init_spotlight_rays, isotropic_rays, rays_valid, rays_view, rays_wf, spotlight_rays,
};
use crate::trig::FULL_TURN;

verus! {

/// An emitter that casts rays in all directions.
#[derive(Clone, Debug)]
pub struct EmitterIsotropic {
    /// The circle that places and draws the emitter.
    pub base_object: ObjectCircle,
    /// The rays that the emitter casts.
    pub rays: Vec<ObjectRay>,
}

/// An emitter that casts parallel rays.
#[derive(Clone, Debug)]
pub struct EmitterCollimated {
    /// The circle and the rays of the emitter.
    pub base_emitter: EmitterIsotropic,
    /// The direction angle of the rays.
    pub orientation: i64,
    /// The width of the beam, across its direction.
    pub collimated_beam_diameter: i64,
}

/// An emitter that casts a cone of rays.
#[derive(Clone, Debug)]
pub struct EmitterSpotlight {
    /// The circle and the rays of the emitter.
    pub base_emitter: EmitterIsotropic,
    /// The direction angle of the middle of the cone.
    pub orientation: i64,
    /// The opening angle of the cone.
    pub spotlight_beam_angle: i64,
}

/// An emitter of any of the three patterns.
#[derive(Clone, Debug)]
pub enum Emitters {
    /// Rays in all directions.
    EmitterIsotropic(EmitterIsotropic),
    /// Parallel rays.
    EmitterCollimated(EmitterCollimated),
    /// A cone of rays.
    EmitterSpotlight(EmitterSpotlight),
}

/// The pattern in which an emitter casts its rays, as contracts see it.
pub enum BeamView {
    Isotropic,
    Collimated { orientation: int, diameter: int },
    Spotlight { orientation: int, angle: int },
}

impl BeamView {
    /// The parameters of the pattern are ones that the ray generators take.
    pub open spec fn wf(self) -> bool {
        match self {
            BeamView::Isotropic => true,
            // An orientation within 65536 radians of zero, a diameter of at
            // most 4096 pixels.
            BeamView::Collimated { orientation, diameter } => {
                &&& within(orientation, ANGLE_LIMIT as int)
                &&& 0 <= diameter <= DIAMETER_LIMIT
            },
            BeamView::Spotlight { orientation, angle } => {
                &&& within(orientation, ANGLE_LIMIT as int)
                &&& within(angle, ANGLE_LIMIT as int)
            },
        }
    }

    /// The same pattern with `delta` added to the diameter of a collimated
    /// beam or to the opening angle of a spotlight.
    pub open spec fn widened(self, delta: int) -> BeamView {
        match self {
            BeamView::Isotropic => BeamView::Isotropic,
            BeamView::Collimated { orientation, diameter } => BeamView::Collimated {
                orientation,
                diameter: diameter + delta,
            },
            BeamView::Spotlight { orientation, angle } => BeamView::Spotlight {
                orientation,
                angle: angle + delta,
            },
        }
    }

    /// The same pattern turned to `orientation`. An isotropic pattern has no
    /// orientation and stays as it is.
    pub open spec fn turned(self, orientation: int) -> BeamView {
        match self {
            BeamView::Isotropic => BeamView::Isotropic,
            BeamView::Collimated { diameter, .. } => BeamView::Collimated { orientation, diameter },
            BeamView::Spotlight { angle, .. } => BeamView::Spotlight { orientation, angle },
        }
    }
}

/// The rays that the pattern `beam` casts from `(x, y)` when it casts `n`
/// of them over a canvas of size `extent`.
pub open spec fn generate(x: int, y: int, beam: BeamView, n: int, extent: Extent) -> Seq<RayView> {
    match beam {
        BeamView::Isotropic => isotropic_rays(x, y, n, extent),
        BeamView::Collimated { orientation, diameter } => collimated_rays(
            x,
            y,
            orientation,
            diameter,
            n,
            extent,
        ),
        BeamView::Spotlight { orientation, angle } => spotlight_rays(
            x,
            y,
            orientation,
            angle,
            n,
            extent,
        ),
    }
}

/// An emitter as contracts see it.
pub struct EmitterView {
    pub base: CircleView,
    pub rays: Seq<RayView>,
    pub beam: BeamView,
}

impl EmitterView {
    /// The circle, the pattern and every ray are well formed, and the
    /// emitter has either no ray yet or at least the minimum number.
    pub open spec fn wf(self) -> bool {
        &&& self.base.wf()
        &&& self.beam.wf()
        &&& rays_wf(self.rays)
        &&& self.rays.len() <= RAY_LIMIT
        &&& self.rays.len() == 0 || self.rays.len() >= OBJC_MIN_RAY_COUNT
    }

    /// The number of rays that the emitter casts when it casts anew: as many
    /// as it has, or the default number if it has none yet.
    pub open spec fn cast_count(self) -> int {
        if self.rays.len() == 0 {
            OBJD_RAY_COUNT as int
        } else {
            self.rays.len() as int
        }
    }

    /// The same emitter after it has cast `n` rays anew.
    pub open spec fn recast(self, n: int, extent: Extent) -> EmitterView {
        EmitterView { rays: generate(self.base.x, self.base.y, self.beam, n, extent), ..self }
    }

    /// The same emitter with another circle.
    pub open spec fn with_base(self, base: CircleView) -> EmitterView {
        EmitterView { base, ..self }
    }

    /// The same emitter with another pattern.
    pub open spec fn with_beam(self, beam: BeamView) -> EmitterView {
        EmitterView { beam, ..self }
    }
}

/// What became of a request to change the number of rays of an emitter.
#[derive(Clone, Copy, Debug, PartialEq, Eq)]
pub enum RayCountChange {
    /// The emitter casts the new number of rays.
    Applied,
    /// The emitter casts the new number of rays, which is more than
    /// `OBJC_MAX_RAY_COUNT`: the scene may become slow.
    AppliedAboveMaximum,
    /// The new number would be less than `OBJC_MIN_RAY_COUNT`: nothing has
    /// changed.
    RejectedBelowMinimum,
}

/// What becomes of a request to change a number of `count` rays by
/// `change_rays`.
pub open spec fn ray_count_outcome(count: int, change_rays: int) -> RayCountChange {
    if count + change_rays < OBJC_MIN_RAY_COUNT {
        RayCountChange::RejectedBelowMinimum
    } else if count + change_rays > OBJC_MAX_RAY_COUNT {
        RayCountChange::AppliedAboveMaximum
    } else {
        RayCountChange::Applied
    }
}

/// An emitter whose number of rays can be changed.
pub trait VariableRays {
    /// The emitter is well formed.
    spec fn countable(&self) -> bool;

    /// The number of rays that the emitter has.
    spec fn ray_count(&self) -> int;

    /// Changes the number of rays by `change_rays` and casts all rays anew,
    /// unless the new number would be below the minimum.
    fn change_rays_count(&mut self, change_rays: i32, extent: &Extent) -> (r: RayCountChange)
        requires
            old(self).countable(),
            extent.wf(),
            old(self).ray_count() + change_rays <= RAY_LIMIT,
        ensures
            final(self).countable(),
            r == ray_count_outcome(old(self).ray_count(), change_rays as int),
            final(self).ray_count() == (if r is RejectedBelowMinimum {
                old(self).ray_count()
            } else {
                old(self).ray_count() + change_rays
            }),
    ;
}

/// The angle `angle` brought into `[0, FULL_TURN)` by whole turns.
pub open spec fn wrapped(angle: int) -> int {
    angle % (FULL_TURN as int)
}

/// An object that can be turned.
pub trait VariableOrientation {
    /// The object is well formed.
    spec fn orientable(&self) -> bool;

    /// Turns the object by `factor` and casts its rays anew. The new
    /// orientation is brought into `[0, FULL_TURN)`.
    fn change_orientation(&mut self, factor: i64, extent: &Extent)
        requires
            old(self).orientable(),
            within(factor as int, ANGLE_LIMIT as int),
            extent.wf(),
        ensures
            final(self).orientable(),
    ;
}

impl View for EmitterIsotropic {
    type V = EmitterView;

    open spec fn view(&self) -> EmitterView {
        EmitterView { base: self.base_object@, rays: rays_view(self.rays@), beam: BeamView::Isotropic }
    }
}

impl View for EmitterCollimated {
    type V = EmitterView;

    open spec fn view(&self) -> EmitterView {
        EmitterView {
            base: self.base_emitter.base_object@,
            rays: rays_view(self.base_emitter.rays@),
            beam: BeamView::Collimated {
                orientation: self.orientation as int,
                diameter: self.collimated_beam_diameter as int,
            },
        }
    }
}

impl View for EmitterSpotlight {
    type V = EmitterView;

    open spec fn view(&self) -> EmitterView {
        EmitterView {
            base: self.base_emitter.base_object@,
            rays: rays_view(self.base_emitter.rays@),
            beam: BeamView::Spotlight {
                orientation: self.orientation as int,
                angle: self.spotlight_beam_angle as int,
            },
        }
    }
}

impl View for Emitters {
    type V = EmitterView;

    open spec fn view(&self) -> EmitterView {
        match self {
            Emitters::EmitterIsotropic(e) => e@,
            Emitters::EmitterCollimated(e) => e@,
            Emitters::EmitterSpotlight(e) => e@,
        }
    }
}

impl EmitterIsotropic {
    /// An isotropic emitter with the given circle and rays.
    pub fn new(base_object: ObjectCircle, rays: Vec<ObjectRay>) -> (r: Self)
        ensures
            r@ == (EmitterView {
                base: base_object@,
                rays: rays_view(rays@),
                beam: BeamView::Isotropic,
            }),
    {
        EmitterIsotropic { base_object, rays }
    }
}

impl EmitterCollimated {
    /// A collimated emitter with the given circle, rays, orientation and
    /// beam diameter.
    pub fn new(
        base_object: ObjectCircle,
        rays: Vec<ObjectRay>,
        orientation: i64,
        collimated_beam_diameter: i64,
    ) -> (r: Self)
        ensures
            r@ == (EmitterView {
                base: base_object@,
                rays: rays_view(rays@),
                beam: BeamView::Collimated {
                    orientation: orientation as int,
                    diameter: collimated_beam_diameter as int,
                },
            }),
    {
        EmitterCollimated {
            base_emitter: EmitterIsotropic { base_object, rays },
            orientation,
            collimated_beam_diameter,
        }
    }
}

impl EmitterSpotlight {
    /// A spotlight with the given circle, rays, orientation and opening
    /// angle.
    pub fn new(
        base_object: ObjectCircle,
        rays: Vec<ObjectRay>,
        orientation: i64,
        spotlight_beam_angle: i64,
    ) -> (r: Self)
        ensures
            r@ == (EmitterView {
                base: base_object@,
                rays: rays_view(rays@),
                beam: BeamView::Spotlight {
                    orientation: orientation as int,
                    angle: spotlight_beam_angle as int,
                },
            }),
    {
        EmitterSpotlight {
            base_emitter: EmitterIsotropic { base_object, rays },
            orientation,
            spotlight_beam_angle,
        }
    }
}

impl Emitters {
    /// The emitter is one that the scene accepts.
    pub open spec fn wf(&self) -> bool {
        self@.wf()
    }

    /// The circle of the emitter.
    pub fn base(&self) -> (r: &ObjectCircle)
        ensures
            r@ == self@.base,
    {
        match self {
            Emitters::EmitterIsotropic(e) => &e.base_object,
            Emitters::EmitterCollimated(e) => &e.base_emitter.base_object,
            Emitters::EmitterSpotlight(e) => &e.base_emitter.base_object,
        }
    }

    /// The rays of the emitter.
    pub fn rays(&self) -> (r: &Vec<ObjectRay>)
        ensures
            rays_view(r@) == self@.rays,
    {
        match self {
            Emitters::EmitterIsotropic(e) => &e.rays,
            Emitters::EmitterCollimated(e) => &e.base_emitter.rays,
            Emitters::EmitterSpotlight(e) => &e.base_emitter.rays,
        }
    }

    /// A copy of the emitter.
    pub fn duplicate(&self) -> (r: Emitters)
        ensures
            r@ == self@,
    {
        match self {
            Emitters::EmitterIsotropic(e) => Emitters::EmitterIsotropic(
                EmitterIsotropic::new(e.base_object, duplicate_rays(&e.rays)),
            ),
            Emitters::EmitterCollimated(e) => Emitters::EmitterCollimated(
                EmitterCollimated::new(
                    e.base_emitter.base_object,
                    duplicate_rays(&e.base_emitter.rays),
                    e.orientation,
                    e.collimated_beam_diameter,
                ),
            ),
            Emitters::EmitterSpotlight(e) => Emitters::EmitterSpotlight(
                EmitterSpotlight::new(
                    e.base_emitter.base_object,
                    duplicate_rays(&e.base_emitter.rays),
                    e.orientation,
                    e.spotlight_beam_angle,
                ),
            ),
        }
    }

    /// Whether the emitter is one that the scene accepts.
    pub fn is_valid(&self) -> (r: bool)
        ensures
            r == self.wf(),
    {
        let beam_valid = match self {
            Emitters::EmitterIsotropic(_) => true,
            Emitters::EmitterCollimated(e) => -ANGLE_LIMIT <= e.orientation && e.orientation
                <= ANGLE_LIMIT && 0 <= e.collimated_beam_diameter && e.collimated_beam_diameter
                <= DIAMETER_LIMIT,
            Emitters::EmitterSpotlight(e) => -ANGLE_LIMIT <= e.orientation && e.orientation
                <= ANGLE_LIMIT && -ANGLE_LIMIT <= e.spotlight_beam_angle && e.spotlight_beam_angle
                <= ANGLE_LIMIT,
        };
        let rays = self.rays();
        assert(rays_view(rays@).len() == rays.len());
        self.base().is_valid() && beam_valid && rays.len() <= RAY_LIMIT && (rays.len() == 0
            || rays.len() >= OBJC_MIN_RAY_COUNT as usize) && rays_valid(rays)
    }

    /// The number of rays that the emitter casts when it casts anew.
    pub fn cast_count(&self) -> (n: i32)
        requires
            self.wf(),
        ensures
            n == self@.cast_count(),
            n >= OBJC_MIN_RAY_COUNT,
    {
        let rays = self.rays();
        assert(rays_view(rays@).len() == rays.len());
        if rays.len() == 0 {
            OBJD_RAY_COUNT
        } else {
            rays.len() as i32
        }
    }

    /// Casts `ray_count` rays anew, from the circle's centre and in the
    /// emitter's pattern.
    pub fn recast(&mut self, ray_count: i32, extent: &Extent)
        requires
            old(self)@.base.wf(),
            old(self)@.beam.wf(),
            extent.wf(),
            ray_count >= OBJC_MIN_RAY_COUNT,
        ensures
            final(self)@ == old(self)@.recast(ray_count as int, *extent),
            final(self).wf(),
    {
        match self {
            Emitters::EmitterIsotropic(obj) => {
                obj.rays = init_isotropic_rays(
                    obj.base_object.pos_x,
                    obj.base_object.pos_y,
                    ray_count,
                    extent,
                );
            },
            Emitters::EmitterCollimated(obj) => {
                let cast = init_collimated_rays(
                    obj.base_emitter.base_object.pos_x,
                    obj.base_emitter.base_object.pos_y,
                    obj.orientation,
                    obj.collimated_beam_diameter,
                    ray_count,
                    extent,
                );
                if let Some(rays) = cast {
                    obj.base_emitter.rays = rays;
                }
            },
            Emitters::EmitterSpotlight(obj) => {
                let cast = init_spotlight_rays(
                    obj.base_emitter.base_object.pos_x,
                    obj.base_emitter.base_object.pos_y,
                    obj.orientation,
                    obj.spotlight_beam_angle,
                    ray_count,
                    extent,
                );
                if let Some(rays) = cast {
                    obj.base_emitter.rays = rays;
                }
            },
        }
    }
}


/// The lines that draw the rays `rays`, in order.
pub open spec fn ray_shapes(rays: Seq<ObjectRay>) -> Seq<DrawCommand> {
    Seq::new(rays.len(), |i: int| rays[i].shape())
}

/// Lists the shapes of an emitter: its circle, then its rays.
fn emitter_shapes(base: &ObjectCircle, rays: &Vec<ObjectRay>) -> (r: Vec<DrawCommand>)
    ensures
        r@ == seq![base.shape()] + ray_shapes(rays@),
{
    let mut out: Vec<DrawCommand> = base.draw_object();
    let mut index: usize = 0;
    while index < rays.len()
        invariant
            0 <= index <= rays.len(),
            out@ == seq![base.shape()] + ray_shapes(rays@.take(index as int)),
        decreases rays.len() - index,
    {
        out.push(rays[index].line());
        assert(ray_shapes(rays@.take(index + 1)) =~= ray_shapes(rays@.take(index as int)).push(
            rays[index as int].shape(),
        ));
        index = index + 1;
    }
    assert(rays@.take(index as int) =~= rays@);
    out
}

impl Drawable for EmitterIsotropic {
    open spec fn shapes(&self) -> Seq<DrawCommand> {
        seq![self.base_object.shape()] + ray_shapes(self.rays@)
    }

    fn draw_object(&self) -> (r: Vec<DrawCommand>) {
        emitter_shapes(&self.base_object, &self.rays)
    }
}

impl Drawable for Emitters {
    open spec fn shapes(&self) -> Seq<DrawCommand> {
        match self {
            Emitters::EmitterIsotropic(e) => e.shapes(),
            Emitters::EmitterCollimated(e) => e.base_emitter.shapes(),
            Emitters::EmitterSpotlight(e) => e.base_emitter.shapes(),
        }
    }

    fn draw_object(&self) -> (r: Vec<DrawCommand>) {
        match self {
            Emitters::EmitterIsotropic(e) => e.draw_object(),
            Emitters::EmitterCollimated(e) => e.base_emitter.draw_object(),
            Emitters::EmitterSpotlight(e) => e.base_emitter.draw_object(),
        }
    }
}

impl Movable for Emitters {
    open spec fn movable(&self) -> bool {
        self.wf()
    }

    open spec fn position(&self) -> (int, int) {
        (self@.base.x, self@.base.y)
    }

    /// Moves the emitter and casts its rays anew from the new centre: as
    /// many as it had, or the default number if it had none.
    fn move_object(&mut self, pos_x: i64, pos_y: i64, extent: &Extent)
        ensures
            final(self)@ == old(self)@.with_base(
                old(self)@.base.moved(pos_x as int, pos_y as int),
            ).recast(old(self)@.cast_count(), *extent),
    {
        let ray_count = self.cast_count();
        match self {
            Emitters::EmitterIsotropic(obj) => {
                obj.base_object.pos_x = pos_x;
                obj.base_object.pos_y = pos_y;
            },
            Emitters::EmitterCollimated(obj) => {
                obj.base_emitter.base_object.pos_x = pos_x;
                obj.base_emitter.base_object.pos_y = pos_y;
            },
            Emitters::EmitterSpotlight(obj) => {
                obj.base_emitter.base_object.pos_x = pos_x;
                obj.base_emitter.base_object.pos_y = pos_y;
            },
        }
        self.recast(ray_count, extent);
    }
}

impl VariableSize for Emitters {
    open spec fn sized(&self) -> bool {
        self.wf()
    }

    open spec fn size(&self) -> int {
        self@.base.radius
    }

    open spec fn min_size(&self) -> int {
        OBJD_EMITTER_MIN_RADIUS as int
    }

    /// Adds `factor` to the radius of the emitter. Enlarging always adds the
    /// factor. Reducing does not take the radius below
    /// `OBJD_EMITTER_MIN_RADIUS`, which is 30 pixels, and an emitter that is
    /// smaller than that already is not reduced at all. The rays stay as
    /// they are.
    fn change_radius(&mut self, factor: i64)
        ensures
            final(self)@ == old(self)@.with_base(
                old(self)@.base.with_radius(
                    resized(old(self)@.base.radius, factor as int, OBJD_EMITTER_MIN_RADIUS as int),
                ),
            ),
    {
        let radius: i64 = self.get_radius();
        let new_radius: i64 = resize(radius, factor, OBJD_EMITTER_MIN_RADIUS);
        match self {
            Emitters::EmitterIsotropic(obj) => {
                obj.base_object.radius = new_radius;
            },
            Emitters::EmitterCollimated(obj) => {
                obj.base_emitter.base_object.radius = new_radius;
            },
            Emitters::EmitterSpotlight(obj) => {
                obj.base_emitter.base_object.radius = new_radius;
            },
        }
    }

    fn get_radius(&self) -> (r: i64) {
        self.base().radius
    }
}

impl VariableRays for Emitters {
    open spec fn countable(&self) -> bool {
        self.wf()
    }

    open spec fn ray_count(&self) -> int {
        self@.rays.len() as int
    }

    /// Changes the number of rays by `change_rays` and casts all rays anew.
    /// A change that would leave fewer than `OBJC_MIN_RAY_COUNT` rays is
    /// rejected and changes nothing; one that leaves more than
    /// `OBJC_MAX_RAY_COUNT` is applied and reported.
    fn change_rays_count(&mut self, change_rays: i32, extent: &Extent) -> (r: RayCountChange)
        ensures
            r is RejectedBelowMinimum ==> final(self)@ == old(self)@,
            !(r is RejectedBelowMinimum) ==> final(self)@ == old(self)@.recast(
                old(self)@.rays.len() + change_rays,
                *extent,
            ),
    {
        let rays = self.rays();
        assert(rays_view(rays@).len() == rays.len());
        let ray_count: i64 = rays.len() as i64;
        let new_count: i64 = ray_count + change_rays as i64;
        if new_count >= OBJC_MIN_RAY_COUNT as i64 {
            self.recast(new_count as i32, extent);
            if new_count > OBJC_MAX_RAY_COUNT as i64 {
                RayCountChange::AppliedAboveMaximum
            } else {
                RayCountChange::Applied
            }
        } else {
            RayCountChange::RejectedBelowMinimum
        }
    }
}

impl VariableOrientation for Emitters {
    open spec fn orientable(&self) -> bool {
        self.wf()
    }

    /// Turns a collimated emitter or a spotlight by `factor`, brings the new
    /// orientation into `[0, FULL_TURN)`, and casts the rays anew. An
    /// isotropic emitter has no orientation and stays as it is.
    fn change_orientation(&mut self, factor: i64, extent: &Extent)
        ensures
            final(self)@ == (match old(self)@.beam {
                BeamView::Isotropic => old(self)@,
                BeamView::Collimated { orientation, .. } => old(self)@.with_beam(
                    old(self)@.beam.turned(wrapped(orientation + factor)),
                ).recast(old(self)@.cast_count(), *extent),
                BeamView::Spotlight { orientation, .. } => old(self)@.with_beam(
                    old(self)@.beam.turned(wrapped(orientation + factor)),
                ).recast(old(self)@.cast_count(), *extent),
            }),
    {
        let ray_count = self.cast_count();
        match self {
            Emitters::EmitterIsotropic(_) => {
                return ;
            },
            Emitters::EmitterCollimated(obj) => {
                obj.orientation = wrap_angle(obj.orientation + factor);
            },
            Emitters::EmitterSpotlight(obj) => {
                obj.orientation = wrap_angle(obj.orientation + factor);
            },
        }
        self.recast(ray_count, extent);
    }
}

/// Brings `angle` into `[0, FULL_TURN)` by whole turns.
pub fn wrap_angle(angle: i64) -> (r: i64)
    ensures
        r == wrapped(angle as int),
        0 <= r < FULL_TURN,
{
    let turns: i128 = floor_div(angle as i128, FULL_TURN as i128);
    (angle as i128 - turns * (FULL_TURN as i128)) as i64
}

/// What became of a request to change the diameter of a collimated beam or
/// the opening angle of a spotlight.
#[derive(Clone, Copy, Debug, PartialEq, Eq)]
pub enum BeamChange {
    /// The emitter casts its rays in the new beam.
    Applied,
    /// The new value would be too small: nothing has changed.
    RejectedTooSmall,
    /// The new value would be too large: nothing has changed.
    RejectedTooLarge,
    /// The emitter has no such parameter: nothing has changed.
    NotApplicable,
}

/// What becomes of a request to change a beam diameter of `diameter` by
/// `delta`: a beam is not narrowed to nothing, nor widened beyond
/// `DIAMETER_LIMIT`.
pub open spec fn diameter_outcome(diameter: int, delta: int) -> BeamChange {
    if diameter + delta <= 0 && delta < 0 {
        BeamChange::RejectedTooSmall
    } else if diameter + delta > DIAMETER_LIMIT {
        BeamChange::RejectedTooLarge
    } else {
        BeamChange::Applied
    }
}

/// What becomes of a request to change an opening angle of `angle` by
/// `delta`: a cone is not narrowed below zero nor opened beyond a full turn.
pub open spec fn angle_outcome(angle: int, delta: int) -> BeamChange {
    if angle + delta < 0 && delta < 0 {
        BeamChange::RejectedTooSmall
    } else if angle + delta > FULL_TURN && delta > 0 {
        BeamChange::RejectedTooLarge
    } else {
        BeamChange::Applied
    }
}

/// What becomes of a request to change the beam of an emitter by `delta`:
/// the diameter of a collimated beam or the opening angle of a spotlight.
pub open spec fn beam_outcome(beam: BeamView, delta: int) -> BeamChange {
    match beam {
        BeamView::Isotropic => BeamChange::NotApplicable,
        BeamView::Collimated { diameter, .. } => diameter_outcome(diameter, delta),
        BeamView::Spotlight { angle, .. } => angle_outcome(angle, delta),
    }
}

impl EmitterView {
    /// The emitter after a request to change its beam by `delta`: with the
    /// wider or narrower beam and the rays cast anew where the request is
    /// applied, else as it is.
    pub open spec fn beam_changed(self, delta: int, extent: Extent) -> EmitterView {
        if beam_outcome(self.beam, delta) is Applied {
            self.with_beam(self.beam.widened(delta)).recast(self.cast_count(), extent)
        } else {
            self
        }
    }
}

impl Emitters {
    /// Changes the beam of the emitter by `delta`: the diameter of a
    /// collimated beam, which is not narrowed to nothing, or the opening
    /// angle of a spotlight, which stays between zero and a full turn. Where
    /// the change is applied the rays are cast anew. An isotropic emitter has
    /// no such parameter.
    pub fn change_beam(&mut self, delta: i64, extent: &Extent) -> (r: BeamChange)
        requires
            old(self).wf(),
            extent.wf(),
        ensures
            final(self).wf(),
            r == beam_outcome(old(self)@.beam, delta as int),
            final(self)@ == old(self)@.beam_changed(delta as int, *extent),
    {
        let ray_count = self.cast_count();
        match self {
            Emitters::EmitterIsotropic(_) => {
                return BeamChange::NotApplicable;
            },
            Emitters::EmitterCollimated(obj) => {
                let diameter: i128 = obj.collimated_beam_diameter as i128 + delta as i128;
                if diameter <= 0 && delta < 0 {
                    return BeamChange::RejectedTooSmall;
                }
                if diameter > DIAMETER_LIMIT as i128 {
                    return BeamChange::RejectedTooLarge;
                }
                obj.collimated_beam_diameter = diameter as i64;
            },
            Emitters::EmitterSpotlight(obj) => {
                let angle: i128 = obj.spotlight_beam_angle as i128 + delta as i128;
                if angle < 0 && delta < 0 {
                    return BeamChange::RejectedTooSmall;
                }
                if angle > FULL_TURN as i128 && delta > 0 {
                    return BeamChange::RejectedTooLarge;
                }
                obj.spotlight_beam_angle = angle as i64;
            },
        }
        self.recast(ray_count, extent);
        BeamChange::Applied
    }
}

} // verus!
