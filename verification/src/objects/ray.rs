//! Rays, and the three patterns in which an emitter casts them.
//!
//! All three patterns share one convention: a ray of direction angle `t`
//! runs from its start towards `(cos t, sin t)`, with the horizontal part
//! stretched by the width of the canvas and the vertical part by its height.
//! A ray along an axis is thus as long as the canvas is wide or high.

use vstd::prelude::*;
use macroquad::color::Color;
use crate::color::{objd_ray_color, ray_color};
use crate::fixed::{
    ANGLE_LIMIT, COORD_LIMIT, DIAMETER_LIMIT, EXTENT_LIMIT, ONE, POS_LIMIT, floor_div,
    lemma_scale_bound, scale, scale_exec, within,
};
use crate::globals::{Extent, OBJD_RAY_WIDTH};
use crate::helpers::object_utils::{lemma_linspace_point_bounds, linspace, linspace_point};
use crate::objects::behavior::{DrawCommand, Drawable};
use crate::trig::{FULL_TURN, cos_sin, cos_spec, lemma_axes, lemma_unit_bounds, sin_spec};

verus! {

/// One ray: a segment from a start to an end, with the thickness and colour
/// it is drawn in.
#[derive(Clone, Copy, Debug, PartialEq)]
pub struct ObjectRay {
    /// The horizontal coordinate of the start.
    pub start_x: i64,
    /// The vertical coordinate of the start.
    pub start_y: i64,
    /// The horizontal coordinate of the end.
    pub end_x: i64,
    /// The vertical coordinate of the end.
    pub end_y: i64,
    /// The thickness of the line.
    pub thickness: i64,
    /// The colour of the line.
    pub color: Color,
}

/// A ray as contracts see it.
pub struct RayView {
    pub start: (int, int),
    pub end: (int, int),
    pub thickness: int,
    pub color: Color,
}

impl RayView {
    /// Both ends lie within `COORD_LIMIT` of the origin on each axis, which
    /// is 16384 pixels.
    pub open spec fn wf(self) -> bool {
        &&& within(self.start.0, COORD_LIMIT as int)
        &&& within(self.start.1, COORD_LIMIT as int)
        &&& within(self.end.0, COORD_LIMIT as int)
        &&& within(self.end.1, COORD_LIMIT as int)
    }

    /// The vector from the start to the end.
    pub open spec fn direction(self) -> (int, int) {
        (self.end.0 - self.start.0, self.end.1 - self.start.1)
    }

    /// The same ray with another end.
    pub open spec fn with_end(self, end: (int, int)) -> RayView {
        RayView { end, ..self }
    }
}

impl View for ObjectRay {
    type V = RayView;

    open spec fn view(&self) -> RayView {
        RayView {
            start: (self.start_x as int, self.start_y as int),
            end: (self.end_x as int, self.end_y as int),
            thickness: self.thickness as int,
            color: self.color,
        }
    }
}

/// The views of a sequence of rays.
pub open spec fn rays_view(rays: Seq<ObjectRay>) -> Seq<RayView> {
    Seq::new(rays.len(), |i: int| rays[i]@)
}

/// Every ray of the sequence is well formed.
pub open spec fn rays_wf(rays: Seq<RayView>) -> bool {
    forall|i: int| 0 <= i < rays.len() ==> (#[trigger] rays[i]).wf()
}

impl ObjectRay {
    /// The ray is one that the scene accepts.
    pub open spec fn wf(&self) -> bool {
        self@.wf()
    }

    /// A ray from `(start_x, start_y)` to `(end_x, end_y)`.
    pub fn new(
        start_x: i64,
        start_y: i64,
        end_x: i64,
        end_y: i64,
        thickness: i64,
        color: Color,
    ) -> (r: Self)
        ensures
            r@ == (RayView {
                start: (start_x as int, start_y as int),
                end: (end_x as int, end_y as int),
                thickness: thickness as int,
                color,
            }),
    {
        Self { start_x, start_y, end_x, end_y, thickness, color }
    }

    /// Whether the ray is one that the scene accepts.
    pub fn is_valid(&self) -> (r: bool)
        ensures
            r == self.wf(),
    {
        -COORD_LIMIT <= self.start_x && self.start_x <= COORD_LIMIT && -COORD_LIMIT
            <= self.start_y && self.start_y <= COORD_LIMIT && -COORD_LIMIT <= self.end_x
            && self.end_x <= COORD_LIMIT && -COORD_LIMIT <= self.end_y && self.end_y
            <= COORD_LIMIT
    }

    /// The shape that draws the ray.
    pub open spec fn shape(&self) -> DrawCommand {
        DrawCommand::Line {
            x1: self.start_x,
            y1: self.start_y,
            x2: self.end_x,
            y2: self.end_y,
            thickness: self.thickness,
            color: self.color,
        }
    }

    /// The line that draws the ray.
    pub fn line(&self) -> (r: DrawCommand)
        ensures
            r == self.shape(),
    {
        DrawCommand::Line {
            x1: self.start_x,
            y1: self.start_y,
            x2: self.end_x,
            y2: self.end_y,
            thickness: self.thickness,
            color: self.color,
        }
    }
}

/// Whether every ray of `rays` is one that the scene accepts.
pub fn rays_valid(rays: &Vec<ObjectRay>) -> (r: bool)
    ensures
        r == rays_wf(rays_view(rays@)),
{
    let mut index: usize = 0;
    while index < rays.len()
        invariant
            0 <= index <= rays.len(),
            forall|j: int| 0 <= j < index ==> (#[trigger] rays_view(rays@)[j]).wf(),
        decreases rays.len() - index,
    {
        if !rays[index].is_valid() {
            assert(!rays_view(rays@)[index as int].wf());
            return false;
        }
        index = index + 1;
    }
    true
}

/// A copy of `rays`.
pub fn duplicate_rays(rays: &Vec<ObjectRay>) -> (r: Vec<ObjectRay>)
    ensures
        r@ == rays@,
{
    let mut out: Vec<ObjectRay> = Vec::new();
    let mut index: usize = 0;
    while index < rays.len()
        invariant
            0 <= index <= rays.len(),
            out@ == rays@.take(index as int),
        decreases rays.len() - index,
    {
        out.push(rays[index]);
        assert(rays@.take(index + 1) =~= rays@.take(index as int).push(rays[index as int]));
        index = index + 1;
    }
    assert(rays@.take(index as int) =~= rays@);
    out
}

impl Drawable for ObjectRay {
    open spec fn shapes(&self) -> Seq<DrawCommand> {
        seq![self.shape()]
    }

    fn draw_object(&self) -> (r: Vec<DrawCommand>) {
        let mut out: Vec<DrawCommand> = Vec::new();
        out.push(self.line());
        assert(out@ =~= seq![self.shape()]);
        out
    }
}

/// The point that lies from `start` in the direction of `angle`, one canvas
/// width across and one canvas height down for a full unit of direction.
pub open spec fn project(start: (int, int), angle: int, extent: Extent) -> (int, int) {
    (
        start.0 + scale(cos_spec(angle), extent.width as int),
        start.1 + scale(sin_spec(angle), extent.height as int),
    )
}

/// A ray of the default thickness and colour from `start` towards `angle`.
pub open spec fn cast(start: (int, int), angle: int, extent: Extent) -> RayView {
    RayView {
        start,
        end: project(start, angle, extent),
        thickness: OBJD_RAY_WIDTH as int,
        color: ray_color(),
    }
}

/// A ray cast from a well-formed start stays within `extent` of it.
pub proof fn lemma_cast_bounds(start: (int, int), angle: int, extent: Extent)
    requires
        extent.wf(),
    ensures
        within(cast(start, angle, extent).end.0 - start.0, extent.width as int),
        within(cast(start, angle, extent).end.1 - start.1, extent.height as int),
{
    lemma_unit_bounds(angle);
    lemma_scale_bound(cos_spec(angle), extent.width as int, extent.width as int);
    lemma_scale_bound(sin_spec(angle), extent.height as int, extent.height as int);
}

/// Casts a ray of the default thickness and colour from `(x, y)` towards
/// `angle`.
fn cast_ray(x: i64, y: i64, angle: i64, extent: &Extent, color: Color) -> (r: ObjectRay)
    requires
        within(x as int, (COORD_LIMIT - EXTENT_LIMIT) as int),
        within(y as int, (COORD_LIMIT - EXTENT_LIMIT) as int),
        extent.wf(),
        color == ray_color(),
    ensures
        r@ == cast((x as int, y as int), angle as int, *extent),
        r.wf(),
{
    proof {
        lemma_cast_bounds((x as int, y as int), angle as int, *extent);
    }
    let (c, s) = cos_sin(angle);
    let end_x: i64 = x + scale_exec(c, extent.width);
    let end_y: i64 = y + scale_exec(s, extent.height);
    ObjectRay::new(x, y, end_x, end_y, OBJD_RAY_WIDTH, color)
}

/// The direction angle of the `i`-th of `n` rays that divide a full turn
/// evenly, rounded down to the unit.
pub open spec fn isotropic_angle(n: int, i: int) -> int {
    (FULL_TURN * i) / n
}

/// The rays of an isotropic emitter at `(x, y)`: `n` rays from the centre,
/// the `i`-th towards `isotropic_angle(n, i)`.
pub open spec fn isotropic_rays(x: int, y: int, n: int, extent: Extent) -> Seq<RayView> {
    Seq::new(
        (if n < 0 { 0 } else { n }) as nat,
        |i: int| cast((x, y), isotropic_angle(n, i), extent),
    )
}

/// Casts `ray_count` rays from `(start_x, start_y)` that divide the full turn
/// evenly. A count below one gives no ray. The start lies within 4096
/// pixels of the origin on each axis, and the canvas is at most 8192 pixels
/// wide and high.
pub fn init_isotropic_rays(start_x: i64, start_y: i64, ray_count: i32, extent: &Extent) -> (rays:
    Vec<ObjectRay>)
    requires
        within(start_x as int, POS_LIMIT as int),
        within(start_y as int, POS_LIMIT as int),
        extent.wf(),
    ensures
        rays_view(rays@) == isotropic_rays(start_x as int, start_y as int, ray_count as int, *extent),
        rays_wf(rays_view(rays@)),
{
    let mut rays: Vec<ObjectRay> = Vec::new();
    let color = objd_ray_color();
    let mut index: i32 = 0;
    while index < ray_count
        invariant
            0 <= index,
            index <= ray_count || index == 0,
            within(start_x as int, POS_LIMIT as int),
            within(start_y as int, POS_LIMIT as int),
            extent.wf(),
            color == ray_color(),
            rays.len() == index,
            forall|j: int|
                0 <= j < index ==> (#[trigger] rays[j])@ == cast(
                    (start_x as int, start_y as int),
                    isotropic_angle(ray_count as int, j),
                    *extent,
                ) && rays[j].wf(),
        decreases ray_count - index,
    {
        let turn: i128 = (FULL_TURN as i128) * (index as i128);
        let angle: i128 = floor_div(turn, ray_count as i128);
        assert(0 <= angle <= FULL_TURN) by (nonlinear_arith)
            requires
                angle == (FULL_TURN * index) / (ray_count as int),
                0 <= index < ray_count,
        ;
        rays.push(cast_ray(start_x, start_y, angle as i64, extent, color));
        index = index + 1;
    }
    assert(rays_view(rays@).len() == isotropic_rays(
        start_x as int,
        start_y as int,
        ray_count as int,
        *extent,
    ).len());
    assert forall|i: int| 0 <= i < rays.len() implies (#[trigger] rays_view(rays@)[i]).wf() by {
        assert(rays[i].wf());
    }
    assert(rays_view(rays@) =~= isotropic_rays(
        start_x as int,
        start_y as int,
        ray_count as int,
        *extent,
    ));
    rays
}

/// An isotropic emitter casts exactly `n` rays, all from its centre, the
/// first towards the angle zero. The directions of two neighbours differ by
/// the `n`-th part of a full turn, rounded down or up to the unit, and so do
/// the direction of the last ray and the full turn that would close the
/// round.
pub proof fn lemma_isotropic_uniform(x: int, y: int, n: int, extent: Extent, i: int)
    requires
        n >= 3,
        0 <= i < n,
    ensures
        isotropic_rays(x, y, n, extent).len() == n,
        isotropic_rays(x, y, n, extent)[i] == cast((x, y), isotropic_angle(n, i), extent),
        isotropic_rays(x, y, n, extent)[i].start == (x, y),
        isotropic_angle(n, 0) == 0,
        0 <= isotropic_angle(n, i) < FULL_TURN,
        (FULL_TURN as int) / n <= isotropic_angle(n, i + 1) - isotropic_angle(n, i) <= (FULL_TURN as int)
            / n + 1,
        isotropic_angle(n, n) == FULL_TURN,
{
    let t = FULL_TURN as int;
    let q = t / n;
    let r = t % n;
    assert(t == q * n + r && 0 <= r < n) by (nonlinear_arith)
        requires
            n > 0,
            q == t / n,
            r == t % n,
    ;
    assert((t * i) / n == i * q + (i * r) / n) by (nonlinear_arith)
        requires
            n > 0,
            t == q * n + r,
    ;
    assert((t * (i + 1)) / n == (i + 1) * q + ((i + 1) * r) / n) by (nonlinear_arith)
        requires
            n > 0,
            t == q * n + r,
    ;
    assert(0 <= ((i + 1) * r) / n - (i * r) / n <= 1) by (nonlinear_arith)
        requires
            n > 0,
            0 <= r < n,
            0 <= i,
    ;
    assert((i + 1) * q - i * q == q) by (nonlinear_arith);
    assert((t * 0) / n == 0) by (nonlinear_arith)
        requires
            n > 0,
    ;
    assert((t * n) / n == t) by (nonlinear_arith)
        requires
            n > 0,
    ;
    assert(0 <= (t * i) / n < t) by (nonlinear_arith)
        requires
            n > 0,
            0 <= i < n,
            t > 0,
    ;
}

/// Where the number of rays divides the full turn, the directions of an
/// isotropic emitter are spaced exactly: the `i`-th ray points towards `i`
/// times the `n`-th part of the full turn.
pub proof fn lemma_isotropic_exact(n: int, i: int)
    requires
        n >= 3,
        0 <= i < n,
        (FULL_TURN as int) % n == 0,
    ensures
        isotropic_angle(n, i) == i * ((FULL_TURN as int) / n),
{
    let t = FULL_TURN as int;
    let q = t / n;
    assert(t == q * n) by (nonlinear_arith)
        requires
            n > 0,
            q == t / n,
            t % n == 0,
    ;
    assert((t * i) / n == i * q) by (nonlinear_arith)
        requires
            n > 0,
            t == q * n,
    ;
}

/// The distance between two neighbouring rays of a collimated beam of `n`
/// rays: the diameter divided into `n - 1` steps, rounded down to the unit.
pub open spec fn collimated_spacing(diameter: int, n: int) -> int {
    diameter / (n - 1)
}

/// How far the `i`-th of `n` rays of a collimated beam starts from the
/// centre of the emitter, along the axis perpendicular to the beam:
/// `(i - (n - 1) / 2)` steps of `diameter / (n - 1)`, with both divisions
/// exact and the product rounded down to the unit once. The offsets are
/// centred on the emitter: the first is half the diameter to one side, the
/// last half the diameter to the other.
pub open spec fn collimated_offset(diameter: int, n: int, i: int) -> int {
    ((2 * i - (n - 1)) * diameter) / (2 * (n - 1))
}

/// The start of the `i`-th of `n` rays of a collimated beam: the centre
/// `(x, y)`, shifted by the ray's offset along the perpendicular
/// `(-sin, cos)` of the orientation.
pub open spec fn collimated_start(
    x: int,
    y: int,
    orientation: int,
    diameter: int,
    n: int,
    i: int,
) -> (int, int) {
    let offset = collimated_offset(diameter, n, i);
    (x + scale(-sin_spec(orientation), offset), y + scale(cos_spec(orientation), offset))
}

/// The rays of a collimated emitter at `(x, y)`: `n` parallel rays towards
/// `orientation`, whose starts are spread over the diameter of the beam.
pub open spec fn collimated_rays(
    x: int,
    y: int,
    orientation: int,
    diameter: int,
    n: int,
    extent: Extent,
) -> Seq<RayView> {
    Seq::new(
        n as nat,
        |i: int| cast(collimated_start(x, y, orientation, diameter, n, i), orientation, extent),
    )
}

/// No ray of a collimated beam starts farther from the centre of the beam
/// than the diameter.
pub proof fn lemma_collimated_offset_bound(diameter: int, n: int, i: int)
    requires
        n >= 2,
        0 <= i < n,
        0 <= diameter,
    ensures
        within(collimated_offset(diameter, n, i), diameter),
{
    let m = n - 1;
    let top = (2 * i - m) * diameter;
    assert(-(m * diameter) <= top <= m * diameter) by (nonlinear_arith)
        requires
            top == (2 * i - m) * diameter,
            -m <= 2 * i - m <= m,
            0 <= diameter,
    ;
    assert(-diameter <= top / (2 * m) <= diameter) by (nonlinear_arith)
        requires
            -(m * diameter) <= top <= m * diameter,
            m > 0,
            0 <= diameter,
    ;
}

/// Casts `ray_count` parallel rays towards `orientation`, with starts spread
/// over `collimated_beam_diameter` across the beam, centred on
/// `(start_x, start_y)`. There is no beam of fewer than two rays. The
/// centre lies within 4096 pixels of the origin on each axis, the diameter
/// is at most 4096 pixels, and the canvas at most 8192 pixels wide and high.
pub fn init_collimated_rays(
    start_x: i64,
    start_y: i64,
    orientation: i64,
    collimated_beam_diameter: i64,
    ray_count: i32,
    extent: &Extent,
) -> (r: Option<Vec<ObjectRay>>)
    requires
        within(start_x as int, POS_LIMIT as int),
        within(start_y as int, POS_LIMIT as int),
        0 <= collimated_beam_diameter <= DIAMETER_LIMIT,
        extent.wf(),
    ensures
        r is None <==> ray_count < 2,
        r matches Some(rays) ==> {
            &&& rays_view(rays@) == collimated_rays(
                start_x as int,
                start_y as int,
                orientation as int,
                collimated_beam_diameter as int,
                ray_count as int,
                *extent,
            )
            &&& rays_wf(rays_view(rays@))
        },
{
    if ray_count < 2 {
        return None;
    }
    let mut rays: Vec<ObjectRay> = Vec::new();
    let color = objd_ray_color();
    let (cos_x, sin_y) = cos_sin(orientation);
    let steps: i128 = (ray_count - 1) as i128;
    let mut index: i32 = 0;
    while index < ray_count
        invariant
            ray_count >= 2,
            0 <= index <= ray_count,
            within(start_x as int, POS_LIMIT as int),
            within(start_y as int, POS_LIMIT as int),
            0 <= collimated_beam_diameter <= DIAMETER_LIMIT,
            extent.wf(),
            color == ray_color(),
            cos_x == cos_spec(orientation as int),
            sin_y == sin_spec(orientation as int),
            within(cos_x as int, ONE as int),
            within(sin_y as int, ONE as int),
            steps == ray_count - 1,
            rays.len() == index,
            forall|j: int|
                0 <= j < index ==> (#[trigger] rays[j])@ == cast(
                    collimated_start(
                        start_x as int,
                        start_y as int,
                        orientation as int,
                        collimated_beam_diameter as int,
                        ray_count as int,
                        j,
                    ),
                    orientation as int,
                    *extent,
                ) && rays[j].wf(),
        decreases ray_count - index,
    {
        proof {
            lemma_collimated_offset_bound(
                collimated_beam_diameter as int,
                ray_count as int,
                index as int,
            );
        }
        let place: i128 = 2 * (index as i128) - steps;
        assert(within(place * collimated_beam_diameter, 0x0800_0000_0000_0000))
            by (nonlinear_arith)
            requires
                within(place as int, 0x8000_0000),
                0 <= collimated_beam_diameter <= 0x1000_0000,
        ;
        let offset: i64 = floor_div(place * (collimated_beam_diameter as i128), 2 * steps) as i64;
        proof {
            lemma_scale_bound(-sin_y as int, offset as int, DIAMETER_LIMIT as int);
            lemma_scale_bound(cos_x as int, offset as int, DIAMETER_LIMIT as int);
        }
        let offset_x: i64 = scale_exec(-sin_y, offset);
        let offset_y: i64 = scale_exec(cos_x, offset);
        rays.push(cast_ray(start_x + offset_x, start_y + offset_y, orientation, extent, color));
        index = index + 1;
    }
    assert(rays_view(rays@) =~= collimated_rays(
        start_x as int,
        start_y as int,
        orientation as int,
        collimated_beam_diameter as int,
        ray_count as int,
        *extent,
    ));
    Some(rays)
}

/// The rays of a collimated beam are parallel: every ray runs from its
/// start to its end by the same vector.
pub proof fn lemma_collimated_parallel(
    x: int,
    y: int,
    orientation: int,
    diameter: int,
    n: int,
    extent: Extent,
    i: int,
    j: int,
)
    requires
        n >= 2,
        0 <= i < n,
        0 <= j < n,
    ensures
        collimated_rays(x, y, orientation, diameter, n, extent).len() == n,
        collimated_rays(x, y, orientation, diameter, n, extent)[i].direction() == collimated_rays(
            x,
            y,
            orientation,
            diameter,
            n,
            extent,
        )[j].direction(),
        collimated_rays(x, y, orientation, diameter, n, extent)[i].direction() == (
            scale(cos_spec(orientation), extent.width as int),
            scale(sin_spec(orientation), extent.height as int),
        ),
{
}

/// A common factor of the dividend and the divisor cancels.
proof fn lemma_cancel(k: int, x: int, m: int)
    requires
        k > 0,
        m > 0,
    ensures
        (k * x) / (k * m) == x / m,
{
    let q = x / m;
    let r = x % m;
    assert(x == m * q + r && 0 <= r < m) by (nonlinear_arith)
        requires
            m > 0,
            q == x / m,
            r == x % m,
    ;
    assert(k * x == (k * m) * q + k * r && 0 <= k * r < k * m && k * m > 0) by (nonlinear_arith)
        requires
            x == m * q + r,
            0 <= r < m,
            k > 0,
    ;
    vstd::arithmetic::div_mod::lemma_fundamental_div_mod_converse(k * x, k * m, q, k * r);
}

/// A quotient grows by the quotient of what is added, or by one more.
proof fn lemma_div_step(a: int, b: int, c: int)
    requires
        c > 0,
    ensures
        b / c <= (a + b) / c - a / c <= b / c + 1,
{
    let qa = a / c;
    let ra = a % c;
    let qb = b / c;
    let rb = b % c;
    assert(a == c * qa + ra && 0 <= ra < c) by (nonlinear_arith)
        requires
            c > 0,
            qa == a / c,
            ra == a % c,
    ;
    assert(b == c * qb + rb && 0 <= rb < c) by (nonlinear_arith)
        requires
            c > 0,
            qb == b / c,
            rb == b % c,
    ;
    if ra + rb < c {
        assert(a + b == c * (qa + qb) + (ra + rb)) by (nonlinear_arith)
            requires
                a == c * qa + ra,
                b == c * qb + rb,
        ;
        vstd::arithmetic::div_mod::lemma_fundamental_div_mod_converse(
            a + b,
            c,
            qa + qb,
            ra + rb,
        );
    } else {
        assert(a + b == c * (qa + qb + 1) + (ra + rb - c)) by (nonlinear_arith)
            requires
                a == c * qa + ra,
                b == c * qb + rb,
        ;
        vstd::arithmetic::div_mod::lemma_fundamental_div_mod_converse(
            a + b,
            c,
            qa + qb + 1,
            ra + rb - c,
        );
    }
}

/// The rays of a collimated beam start evenly spaced along the axis
/// perpendicular to the beam, centred on the emitter. Each ray starts at
/// the centre shifted along `(-sin, cos)` of the orientation by its offset.
/// Two neighbours are one spacing apart, the spacing rounded down or up to
/// the unit. The first ray starts half the diameter to one side of the
/// centre and the last half the diameter to the other, so that the two are
/// exactly the diameter apart; the midpoint of the two is the centre, or
/// half a unit off where the diameter is odd.
pub proof fn lemma_collimated_spread(
    x: int,
    y: int,
    orientation: int,
    diameter: int,
    n: int,
    extent: Extent,
    i: int,
)
    requires
        n >= 2,
        diameter > 0,
        0 <= i < n,
    ensures
        collimated_rays(x, y, orientation, diameter, n, extent)[i].start == (
            x + scale(-sin_spec(orientation), collimated_offset(diameter, n, i)),
            y + scale(cos_spec(orientation), collimated_offset(diameter, n, i)),
        ),
        collimated_spacing(diameter, n) <= collimated_offset(diameter, n, i + 1)
            - collimated_offset(diameter, n, i) <= collimated_spacing(diameter, n) + 1,
        collimated_offset(diameter, n, 0) == (-diameter) / 2,
        collimated_offset(diameter, n, n - 1) == diameter / 2,
        collimated_offset(diameter, n, n - 1) - collimated_offset(diameter, n, 0) == diameter,
        -1 <= collimated_offset(diameter, n, 0) + collimated_offset(diameter, n, n - 1) <= 0,
        diameter % 2 == 0 ==> collimated_offset(diameter, n, 0) + collimated_offset(
            diameter,
            n,
            n - 1,
        ) == 0,
{
    let m = n - 1;
    lemma_cancel(m, -diameter, 2);
    lemma_cancel(m, diameter, 2);
    assert((2 * 0 - m) * diameter == m * (-diameter)) by (nonlinear_arith);
    assert((2 * (n - 1) - m) * diameter == m * diameter) by (nonlinear_arith)
        requires
            m == n - 1,
    ;
    assert(2 * m == m * 2);
    let top = (2 * i - m) * diameter;
    assert((2 * (i + 1) - m) * diameter == top + 2 * diameter) by (nonlinear_arith)
        requires
            top == (2 * i - m) * diameter,
    ;
    lemma_div_step(top, 2 * diameter, 2 * m);
    lemma_cancel(2, diameter, m);
}

/// The offsets of a collimated beam mirror each other about the centre
/// where they are exact: where `2 (n - 1)` divides the diameter, the
/// `i`-th ray starts exactly `i - (n - 1) / 2` spacings from the centre, as
/// far to one side as the `i`-th ray from the end starts to the other.
pub proof fn lemma_collimated_centred(diameter: int, n: int, i: int)
    requires
        n >= 2,
        0 <= i < n,
        diameter % (2 * (n - 1)) == 0,
    ensures
        2 * collimated_offset(diameter, n, i) == (2 * i - (n - 1)) * collimated_spacing(
            diameter,
            n,
        ),
        collimated_offset(diameter, n, n - 1 - i) == -collimated_offset(diameter, n, i),
{
    let m = n - 1;
    let h = diameter / (2 * m);
    assert(diameter == (2 * m) * h) by (nonlinear_arith)
        requires
            m > 0,
            h == diameter / (2 * m),
            diameter % (2 * m) == 0,
    ;
    let t = 2 * i - m;
    assert(t * diameter == (2 * m) * (t * h)) by (nonlinear_arith)
        requires
            diameter == (2 * m) * h,
    ;
    vstd::arithmetic::div_mod::lemma_fundamental_div_mod_converse(t * diameter, 2 * m, t * h, 0);
    let u = 2 * (n - 1 - i) - m;
    assert(u * diameter == (2 * m) * (u * h)) by (nonlinear_arith)
        requires
            diameter == (2 * m) * h,
    ;
    vstd::arithmetic::div_mod::lemma_fundamental_div_mod_converse(u * diameter, 2 * m, u * h, 0);
    assert(u * h == -(t * h)) by (nonlinear_arith)
        requires
            u == -t,
    ;
    assert(diameter == m * (2 * h)) by (nonlinear_arith)
        requires
            diameter == (2 * m) * h,
    ;
    vstd::arithmetic::div_mod::lemma_fundamental_div_mod_converse(diameter, m, 2 * h, 0);
    assert(t * (2 * h) == 2 * (t * h)) by (nonlinear_arith);
}

/// A collimated beam that points along the horizontal axis spreads its rays
/// along the vertical axis: the `i`-th ray starts exactly its offset below
/// the centre.
pub proof fn lemma_collimated_axis(x: int, y: int, diameter: int, n: int, extent: Extent, i: int)
    requires
        n >= 2,
        0 <= i < n,
    ensures
        collimated_rays(x, y, 0, diameter, n, extent)[i].start == (
            x,
            y + collimated_offset(diameter, n, i),
        ),
{
    lemma_axes();
    let off = collimated_offset(diameter, n, i);
    assert((0 * off) / 65536 == 0);
    assert(-0 == 0);
    assert((65536 * off) / 65536 == off);
    assert(collimated_start(x, y, 0, diameter, n, i) == (x, y + off));
}

/// The lowest direction angle of a spotlight: the orientation less half the
/// opening angle, the half rounded down to the unit.
pub open spec fn spotlight_first_angle(orientation: int, beam_angle: int) -> int {
    orientation - beam_angle / 2
}

/// The highest direction angle of a spotlight.
pub open spec fn spotlight_last_angle(orientation: int, beam_angle: int) -> int {
    orientation + beam_angle / 2
}

/// The direction angle of the `i`-th of `n` rays of a spotlight.
pub open spec fn spotlight_angle(orientation: int, beam_angle: int, n: int, i: int) -> int {
    linspace_point(
        spotlight_first_angle(orientation, beam_angle),
        spotlight_last_angle(orientation, beam_angle),
        n,
        i,
    )
}

/// The rays of a spotlight at `(x, y)`: `n` rays from the centre, whose
/// directions are spaced evenly over the opening angle around `orientation`.
pub open spec fn spotlight_rays(
    x: int,
    y: int,
    orientation: int,
    beam_angle: int,
    n: int,
    extent: Extent,
) -> Seq<RayView> {
    Seq::new(
        n as nat,
        |i: int| cast((x, y), spotlight_angle(orientation, beam_angle, n, i), extent),
    )
}

/// Casts `ray_count` rays from `(start_x, start_y)` whose directions are
/// spaced evenly from half the opening angle below `orientation` to half the
/// opening angle above it. There is no spotlight of fewer than two rays.
/// The start lies within 4096 pixels of the origin on each axis, the two
/// angles within 65536 radians of zero, and the canvas is at most 8192
/// pixels wide and high.
pub fn init_spotlight_rays(
    start_x: i64,
    start_y: i64,
    orientation: i64,
    spotlight_beam_angle: i64,
    ray_count: i32,
    extent: &Extent,
) -> (r: Option<Vec<ObjectRay>>)
    requires
        within(start_x as int, POS_LIMIT as int),
        within(start_y as int, POS_LIMIT as int),
        within(orientation as int, ANGLE_LIMIT as int),
        within(spotlight_beam_angle as int, ANGLE_LIMIT as int),
        extent.wf(),
    ensures
        r is None <==> ray_count < 2,
        r matches Some(rays) ==> {
            &&& rays_view(rays@) == spotlight_rays(
                start_x as int,
                start_y as int,
                orientation as int,
                spotlight_beam_angle as int,
                ray_count as int,
                *extent,
            )
            &&& rays_wf(rays_view(rays@))
        },
{
    let half_angle: i64 = floor_div(spotlight_beam_angle as i128, 2) as i64;
    assert(half_angle == (spotlight_beam_angle as int) / 2);
    let angles = match linspace(orientation - half_angle, orientation + half_angle, ray_count) {
        Some(angles) => angles,
        None => {
            return None;
        },
    };
    let mut rays: Vec<ObjectRay> = Vec::new();
    let color = objd_ray_color();
    let mut index: usize = 0;
    while index < angles.len()
        invariant
            ray_count >= 2,
            angles.len() == ray_count,
            0 <= index <= angles.len(),
            within(start_x as int, POS_LIMIT as int),
            within(start_y as int, POS_LIMIT as int),
            extent.wf(),
            color == ray_color(),
            forall|j: int|
                0 <= j < angles.len() ==> angles[j] as int == #[trigger] spotlight_angle(
                    orientation as int,
                    spotlight_beam_angle as int,
                    ray_count as int,
                    j,
                ),
            rays.len() == index,
            forall|j: int|
                0 <= j < index ==> (#[trigger] rays[j])@ == cast(
                    (start_x as int, start_y as int),
                    spotlight_angle(
                        orientation as int,
                        spotlight_beam_angle as int,
                        ray_count as int,
                        j,
                    ),
                    *extent,
                ) && rays[j].wf(),
        decreases angles.len() - index,
    {
        rays.push(cast_ray(start_x, start_y, angles[index], extent, color));
        index = index + 1;
    }
    assert(rays_view(rays@) =~= spotlight_rays(
        start_x as int,
        start_y as int,
        orientation as int,
        spotlight_beam_angle as int,
        ray_count as int,
        *extent,
    ));
    Some(rays)
}


/// The directions of a spotlight span its opening angle: the first ray
/// points half the opening angle below the orientation, the last ray half
/// the opening angle above it, and every ray points between the two. The
/// half angle is rounded down to the unit, so that the two extremes are the
/// whole opening angle apart where that angle is even.
pub proof fn lemma_spotlight_span(
    x: int,
    y: int,
    orientation: int,
    beam_angle: int,
    n: int,
    extent: Extent,
    i: int,
)
    requires
        n >= 2,
        0 <= i < n,
        beam_angle >= 0,
    ensures
        spotlight_rays(x, y, orientation, beam_angle, n, extent).len() == n,
        spotlight_rays(x, y, orientation, beam_angle, n, extent)[i] == cast(
            (x, y),
            spotlight_angle(orientation, beam_angle, n, i),
            extent,
        ),
        spotlight_rays(x, y, orientation, beam_angle, n, extent)[i].start == (x, y),
        spotlight_angle(orientation, beam_angle, n, 0) == orientation - beam_angle / 2,
        spotlight_angle(orientation, beam_angle, n, n - 1) == orientation + beam_angle / 2,
        orientation - beam_angle / 2 <= spotlight_angle(orientation, beam_angle, n, i)
            <= orientation + beam_angle / 2,
        beam_angle % 2 == 0 ==> spotlight_angle(orientation, beam_angle, n, n - 1)
            - spotlight_angle(orientation, beam_angle, n, 0) == beam_angle,
{
    lemma_linspace_point_bounds(
        spotlight_first_angle(orientation, beam_angle),
        spotlight_last_angle(orientation, beam_angle),
        n,
        i,
    );
}

} // verus!
