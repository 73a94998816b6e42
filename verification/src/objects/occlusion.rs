//! Occlusion: where a ray strikes an absorber, and the pass that cuts every
//! ray of a scene short at the nearest absorber in its way.
//!
//! A ray runs from its start (parameter 0) to its end (parameter 1). With
//! `d` the vector from start to end and `f` the vector from the centre of a
//! disk to the start, the ray meets the boundary of the disk where
//! `a t^2 + b t + c = 0`, for `a = d.d`, `b = 2 d.f` and `c = f.f - r^2`.
//!
//! The pass takes, for each ray, the strikes of all absorbers on the ray as
//! it is, compares them by their parameters, and ends the ray at the point
//! of the nearest strike, rounded to the unit once. Since a rounded end may
//! reach a little into an absorber, the ray is then tried again until no
//! absorber strikes it before its end. The pass therefore does not depend
//! on the order of the absorbers, and a second pass changes nothing.

use vstd::prelude::*;
use crate::fixed::{
    COORD_LIMIT, is_sqrt_floor, isqrt, lemma_round_div_between, lemma_sqrt_floor_exists,
    lemma_sqrt_floor_is, round_div, round_div_exec, sqrt_floor, within,
};
use crate::globals::OBJC_MAX_OBJ_COUNT;
use crate::objects::absorber::Absorbers;
use crate::objects::behavior::{ObjectView, RaytracerObjects};
use crate::objects::circle::CircleView;
use crate::objects::emitters::{EmitterView, Emitters};
use crate::objects::ray::{ObjectRay, RayView, rays_view, rays_wf};
use crate::scene::Scene;

verus! {

/// The quadratic `a t^2 + b t + c`.
pub struct Quadratic {
    pub a: int,
    pub b: int,
    pub c: int,
}

/// The quadratic whose roots are the parameters at which the line of `ray`
/// meets the boundary of `disk`.
pub open spec fn quadratic(disk: CircleView, ray: RayView) -> Quadratic {
    let d = ray.direction();
    let f = (ray.start.0 - disk.x, ray.start.1 - disk.y);
    Quadratic {
        a: d.0 * d.0 + d.1 * d.1,
        b: 2 * (d.0 * f.0 + d.1 * f.1),
        c: f.0 * f.0 + f.1 * f.1 - disk.radius * disk.radius,
    }
}

/// The square root of `n` is below `v`.
pub open spec fn sqrt_below(n: int, v: int) -> bool {
    v > 0 && n < v * v
}

/// The square root of `n` is at least `v`.
pub open spec fn sqrt_at_least(n: int, v: int) -> bool {
    v <= 0 || n >= v * v
}

/// The square root of `n` is above `v`.
pub open spec fn sqrt_above(n: int, v: int) -> bool {
    v < 0 || n > v * v
}

/// The square root of `n` is at most `v`.
pub open spec fn sqrt_at_most(n: int, v: int) -> bool {
    v >= 0 && n <= v * v
}

/// One of the two roots of a quadratic.
pub enum Root {
    /// The smaller root, `(-b - sqrt(D)) / (2 a)`: where the ray enters.
    Near,
    /// The larger root, `(-b + sqrt(D)) / (2 a)`: where the ray leaves.
    Far,
}

impl Quadratic {
    /// The discriminant `D = b^2 - 4 a c`.
    pub open spec fn discriminant(self) -> int {
        self.b * self.b - 4 * self.a * self.c
    }

    /// The value of the quadratic at 1. For the quadratic of a ray and a
    /// disk this is the squared distance from the centre of the disk to the
    /// end of the ray, less the squared radius, as `c` is for the start.
    pub open spec fn at_end(self) -> int {
        self.a + self.b + self.c
    }

    /// The ray of the quadratic strikes the disk of the quadratic. Either
    /// the start lies outside the disk (`c > 0`), the ray runs towards the
    /// disk (`b < 0`), its line meets the disk (`D >= 0`), and the ray is
    /// long enough: the point of the line nearest to the centre lies on the
    /// ray (`b + 2 a >= 0`) or the end lies in the disk. Or the start lies
    /// inside the disk, or on its boundary and the ray runs inwards, and the
    /// end lies outside the disk or on its boundary.
    pub open spec fn strikes(self) -> bool {
        ||| self.c > 0 && self.b < 0 && self.discriminant() >= 0 && (self.b + 2 * self.a >= 0
            || self.at_end() <= 0)
        ||| self.c <= 0 && (self.c < 0 || self.b < 0) && self.at_end() >= 0
    }

    /// The whole ray lies outside the disk: both ends lie outside, and so
    /// does the point of the ray nearest to the centre, which is the start
    /// where the ray runs away from the disk (`b >= 0`), the end where the
    /// ray stops short of the point of its line nearest to the centre
    /// (`b + 2 a <= 0`), and else that point, which lies outside where the
    /// line does not meet the disk (`D < 0`).
    pub open spec fn misses(self) -> bool {
        &&& self.c > 0
        &&& self.at_end() > 0
        &&& (self.discriminant() < 0 || self.b >= 0 || self.b + 2 * self.a <= 0)
    }

    /// The ray ends exactly on the boundary of the disk, at the point where
    /// it enters the disk or at the point where it leaves it: in the first
    /// case it starts outside and ends no farther than the point of its line
    /// nearest to the centre, in the second it starts inside the disk, or on
    /// its boundary and runs inwards.
    pub open spec fn ends_on_boundary(self) -> bool {
        &&& self.a > 0
        &&& self.at_end() == 0
        &&& ({
            ||| self.c > 0 && self.b + 2 * self.a <= 0
            ||| self.c <= 0 && (self.c < 0 || self.b < 0)
        })
    }

    /// The quadratic has real roots: `a` is not zero and `D` is not negative.
    pub open spec fn solvable(self) -> bool {
        self.a != 0 && self.discriminant() >= 0
    }

    /// The smaller root lies in `(0, 1]`: `0 < -b - sqrt(D) <= 2 a`.
    pub open spec fn near_in_range(self) -> bool {
        &&& sqrt_below(self.discriminant(), -self.b)
        &&& sqrt_at_least(self.discriminant(), -self.b - 2 * self.a)
    }

    /// The larger root lies in `(0, 1]`: `0 < -b + sqrt(D) <= 2 a`.
    pub open spec fn far_in_range(self) -> bool {
        &&& sqrt_above(self.discriminant(), self.b)
        &&& sqrt_at_most(self.discriminant(), self.b + 2 * self.a)
    }

    /// The root at which the ray is cut: the smaller root if it lies in
    /// `(0, 1]`, else the larger root if that one does, else none.
    pub open spec fn chosen(self) -> Option<Root> {
        if !self.solvable() {
            None
        } else if self.near_in_range() {
            Some(Root::Near)
        } else if self.far_in_range() {
            Some(Root::Far)
        } else {
            None
        }
    }

    /// The numerator of a root over the denominator `a`, with the square
    /// root of `D / 4` rounded down: `-b/2 - sqrt(D/4)` or `-b/2 + sqrt(D/4)`.
    pub open spec fn numerator(self, root: Root) -> int {
        match root {
            Root::Near => -(self.b / 2) - sqrt_floor(self.discriminant() / 4),
            Root::Far => -(self.b / 2) + sqrt_floor(self.discriminant() / 4),
        }
    }
}

/// The point of `ray` at the parameter `numerator / a`, each coordinate
/// rounded to the nearest unit.
pub open spec fn point_at(ray: RayView, numerator: int, a: int) -> (int, int) {
    (
        ray.start.0 + round_div(ray.direction().0 * numerator, a),
        ray.start.1 + round_div(ray.direction().1 * numerator, a),
    )
}

/// Where `ray` strikes the boundary of `disk`: the point of the ray at the
/// chosen root of their quadratic, if there is one.
pub open spec fn occlusion_spec(disk: CircleView, ray: RayView) -> Option<(int, int)> {
    let q = quadratic(disk, ray);
    match q.chosen() {
        None => None,
        Some(root) => Some(point_at(ray, q.numerator(root), q.a)),
    }
}

/// Bounds of the quantities from which a hit is computed.
proof fn lemma_quadratic_bounds(dx: int, dy: int, fx: int, fy: int, r: int)
    requires
        within(dx, 0x8000_0000),
        within(dy, 0x8000_0000),
        within(fx, 0x5000_0000),
        within(fy, 0x5000_0000),
        0 <= r <= 0x4000_0000,
    ensures
        0 <= dx * dx <= 0x4000_0000_0000_0000,
        0 <= dy * dy <= 0x4000_0000_0000_0000,
        0 <= fx * fx <= 0x1900_0000_0000_0000,
        0 <= fy * fy <= 0x1900_0000_0000_0000,
        within(dx * fx, 0x2800_0000_0000_0000),
        within(dy * fy, 0x2800_0000_0000_0000),
        0 <= r * r <= 0x1000_0000_0000_0000,
{
    assert(0 <= dx * dx <= 0x4000_0000_0000_0000) by (nonlinear_arith)
        requires
            -0x8000_0000 <= dx <= 0x8000_0000,
    ;
    assert(0 <= dy * dy <= 0x4000_0000_0000_0000) by (nonlinear_arith)
        requires
            -0x8000_0000 <= dy <= 0x8000_0000,
    ;
    assert(0 <= fx * fx <= 0x1900_0000_0000_0000) by (nonlinear_arith)
        requires
            -0x5000_0000 <= fx <= 0x5000_0000,
    ;
    assert(0 <= fy * fy <= 0x1900_0000_0000_0000) by (nonlinear_arith)
        requires
            -0x5000_0000 <= fy <= 0x5000_0000,
    ;
    assert(-0x2800_0000_0000_0000 <= dx * fx <= 0x2800_0000_0000_0000) by (nonlinear_arith)
        requires
            -0x8000_0000 <= dx <= 0x8000_0000,
            -0x5000_0000 <= fx <= 0x5000_0000,
    ;
    assert(-0x2800_0000_0000_0000 <= dy * fy <= 0x2800_0000_0000_0000) by (nonlinear_arith)
        requires
            -0x8000_0000 <= dy <= 0x8000_0000,
            -0x5000_0000 <= fy <= 0x5000_0000,
    ;
    assert(0 <= r * r <= 0x1000_0000_0000_0000) by (nonlinear_arith)
        requires
            0 <= r <= 0x4000_0000,
    ;
}

/// The square of a number of magnitude at most `2^64 - 1` fits in 128 bits.
fn square(v: i128) -> (r: u128)
    requires
        within(v as int, 0xffff_ffff_ffff_ffff),
    ensures
        r == v * v,
{
    let m: u128 = if v < 0 {
        (-v) as u128
    } else {
        v as u128
    };
    assert(m * m == v * v && m * m <= 0xffff_ffff_ffff_ffff * 0xffff_ffff_ffff_ffff)
        by (nonlinear_arith)
        requires
            m == v || m == -v,
            0 <= m <= 0xffff_ffff_ffff_ffff,
    ;
    m * m
}

/// The numerator of a root in `(0, 1]` lies between zero and `a`.
proof fn lemma_numerator_range(a: int, h: int, disc: int, s: int)
    requires
        a > 0,
        disc >= 0,
        0 <= s,
        s * s <= disc < (s + 1) * (s + 1),
    ensures
        (h < 0 && disc < h * h) && (h + a >= 0 || disc >= (h + a) * (h + a)) ==> 0 < -h - s <= a,
        (h < 0 || disc > h * h) && (h + a >= 0 && disc <= (h + a) * (h + a)) ==> 0 <= -h + s <= a,
{
    if (h < 0 && disc < h * h) && (h + a >= 0 || disc >= (h + a) * (h + a)) {
        assert(s < -h) by (nonlinear_arith)
            requires
                -h > 0,
                s * s < h * h,
                0 <= s,
        ;
        if -h - a > 0 {
            assert(s >= -h - a) by (nonlinear_arith)
                requires
                    -h - a > 0,
                    (h + a) * (h + a) < (s + 1) * (s + 1),
                    0 <= s,
            ;
        }
    }
    if (h < 0 || disc > h * h) && (h + a >= 0 && disc <= (h + a) * (h + a)) {
        if h >= 0 {
            assert(s >= h) by (nonlinear_arith)
                requires
                    h >= 0,
                    h * h < (s + 1) * (s + 1),
                    0 <= s,
            ;
        }
        assert(s <= h + a) by (nonlinear_arith)
            requires
                h + a >= 0,
                s * s <= (h + a) * (h + a),
                0 <= s,
        ;
    }
}

/// The square of the distance between two points.
pub open spec fn length_squared(p: (int, int), q: (int, int)) -> int {
    (q.0 - p.0) * (q.0 - p.0) + (q.1 - p.1) * (q.1 - p.1)
}

/// The squared length of a ray. It is the coefficient `a` of the quadratic
/// of the ray and any disk.
pub open spec fn ray_length_squared(ray: RayView) -> int {
    length_squared(ray.start, ray.end)
}

/// The parameter at which `disk` strikes `ray`, as a numerator over the
/// squared length of the ray: the chosen root of their quadratic, if there
/// is one. All absorbers strike a ray at parameters over the same
/// denominator, so that the nearest strike is the one of the least
/// numerator.
pub open spec fn strike(disk: CircleView, ray: RayView) -> Option<int> {
    let q = quadratic(disk, ray);
    match q.chosen() {
        None => None,
        Some(root) => Some(q.numerator(root)),
    }
}

/// Finds the parameter at which the disk of `occluder` strikes `ray`, as a
/// numerator over the squared length of the ray.
fn strike_on(occluder: &Absorbers, ray: &ObjectRay) -> (r: Option<i128>)
    requires
        occluder.wf(),
        ray.wf(),
    ensures
        r is Some <==> strike(occluder@, ray@) is Some,
        r matches Some(k) ==> {
            &&& strike(occluder@, ray@) == Some(k as int)
            &&& 0 < ray_length_squared(ray@)
            &&& 0 <= k <= ray_length_squared(ray@)
        },
{
    let disk = occluder.base();
    let dx: i128 = ray.end_x as i128 - ray.start_x as i128;
    let dy: i128 = ray.end_y as i128 - ray.start_y as i128;
    let fx: i128 = ray.start_x as i128 - disk.pos_x as i128;
    let fy: i128 = ray.start_y as i128 - disk.pos_y as i128;
    let radius: i128 = disk.radius as i128;
    proof {
        lemma_quadratic_bounds(dx as int, dy as int, fx as int, fy as int, radius as int);
    }
    let a: i128 = dx * dx + dy * dy;
    let h: i128 = dx * fx + dy * fy;
    let c: i128 = fx * fx + fy * fy - radius * radius;
    let ghost q = quadratic(occluder@, ray@);
    assert(q.a == a && q.b == 2 * h && q.c == c);
    if a == 0 {
        return None;
    }
    assert(within(h * h, 0x1900_0000_0000_0000_0000_0000_0000_0000)) by (nonlinear_arith)
        requires
            within(h as int, 0x5000_0000_0000_0000),
    ;
    assert(within(a * c, 0x1900_0000_0000_0000_0000_0000_0000_0000)) by (nonlinear_arith)
        requires
            0 <= a <= 0x8000_0000_0000_0000,
            within(c as int, 0x3200_0000_0000_0000),
    ;
    let disc: i128 = h * h - a * c;
    assert(q.discriminant() == 4 * disc) by (nonlinear_arith)
        requires
            q.discriminant() == (2 * h) * (2 * h) - 4 * a * c,
            disc == h * h - a * c,
    ;
    if disc < 0 {
        return None;
    }
    assert(q.solvable());
    assert(q.discriminant() / 4 == disc);
    assert(q.b / 2 == h);
    let hh: u128 = square(h);
    let ha: u128 = square(h + a);
    let udisc: u128 = disc as u128;
    assert((2 * h) * (2 * h) == 4 * (h * h)) by (nonlinear_arith);
    assert((-(2 * h)) * (-(2 * h)) == 4 * (h * h)) by (nonlinear_arith);
    assert((2 * h + 2 * a) * (2 * h + 2 * a) == 4 * ((h + a) * (h + a))) by (nonlinear_arith);
    assert((-(2 * h) - 2 * a) * (-(2 * h) - 2 * a) == 4 * ((h + a) * (h + a)))
        by (nonlinear_arith);
    let near: bool = (h < 0 && udisc < hh) && (h + a >= 0 || udisc >= ha);
    let far: bool = (h < 0 || udisc > hh) && (h + a >= 0 && udisc <= ha);
    assert(near == q.near_in_range());
    assert(far == q.far_in_range());
    if !near && !far {
        return None;
    }
    let s: i128 = isqrt(udisc) as i128;
    proof {
        lemma_numerator_range(a as int, h as int, disc as int, s as int);
    }
    let numerator: i128 = if near {
        -h - s
    } else {
        -h + s
    };
    assert(numerator == q.numerator(q.chosen().unwrap()));
    Some(numerator)
}

/// Finds the point of `ray` at the parameter `numerator` over the squared
/// length of the ray, each coordinate rounded to the nearest unit.
fn point_on(ray: &ObjectRay, numerator: i128) -> (r: (i64, i64))
    requires
        ray.wf(),
        0 < ray_length_squared(ray@),
        0 <= numerator <= ray_length_squared(ray@),
    ensures
        (r.0 as int, r.1 as int) == point_at(ray@, numerator as int, ray_length_squared(ray@)),
        within(r.0 as int, COORD_LIMIT as int),
        within(r.1 as int, COORD_LIMIT as int),
{
    let dx: i128 = ray.end_x as i128 - ray.start_x as i128;
    let dy: i128 = ray.end_y as i128 - ray.start_y as i128;
    proof {
        lemma_quadratic_bounds(dx as int, dy as int, 0, 0, 0);
    }
    let a: i128 = dx * dx + dy * dy;
    proof {
        lemma_round_div_between(dx as int, numerator as int, a as int);
        lemma_round_div_between(dy as int, numerator as int, a as int);
    }
    assert(within(dx * numerator, 0x4000_0000_0000_0000_0000_0000)) by (nonlinear_arith)
        requires
            within(dx as int, 0x8000_0000),
            0 <= numerator <= 0x8000_0000_0000_0000,
    ;
    assert(within(dy * numerator, 0x4000_0000_0000_0000_0000_0000)) by (nonlinear_arith)
        requires
            within(dy as int, 0x8000_0000),
            0 <= numerator <= 0x8000_0000_0000_0000,
    ;
    let step_x: i128 = round_div_exec(dx * numerator, a);
    let step_y: i128 = round_div_exec(dy * numerator, a);
    let hit_x: i64 = (ray.start_x as i128 + step_x) as i64;
    let hit_y: i64 = (ray.start_y as i128 + step_y) as i64;
    (hit_x, hit_y)
}

/// Finds where `ray` strikes the boundary of the disk of `occluder`: the
/// point nearest to the start of the ray among those that lie on the ray
/// beyond its start. A ray without length strikes nothing. The absorber
/// lies within 4096 pixels of the origin and the ray within 16384 pixels.
pub fn occlusion(occluder: &Absorbers, ray: &ObjectRay) -> (r: Option<(i64, i64)>)
    requires
        occluder.wf(),
        ray.wf(),
    ensures
        r is Some <==> occlusion_spec(occluder@, ray@) is Some,
        r matches Some(hit) ==> occlusion_spec(occluder@, ray@) == Some(
            (hit.0 as int, hit.1 as int),
        ),
        r matches Some(hit) ==> within(hit.0 as int, COORD_LIMIT as int) && within(
            hit.1 as int,
            COORD_LIMIT as int,
        ),
{
    match strike_on(occluder, ray) {
        Some(numerator) => Some(point_on(ray, numerator)),
        None => None,
    }
}

/// The parameter of the nearest strike on `ray` among `disks`: the least
/// of the numerators at which the disks strike the ray, if any strikes it.
pub open spec fn nearest(ray: RayView, disks: Seq<CircleView>) -> Option<int>
    decreases disks.len(),
{
    if disks.len() == 0 {
        None
    } else {
        match (nearest(ray, disks.drop_last()), strike(disks.last(), ray)) {
            (Some(k), Some(j)) => Some(
                if j < k {
                    j
                } else {
                    k
                },
            ),
            (Some(k), None) => Some(k),
            (None, other) => other,
        }
    }
}

/// The ray cut once: ended at the nearest point at which one of `disks`
/// strikes it. Every candidate is taken from the ray as it is, the
/// candidates are compared by their parameters, and only the winner is
/// rounded to a point. A ray that no disk strikes stays as it is.
pub open spec fn cut(ray: RayView, disks: Seq<CircleView>) -> RayView {
    match nearest(ray, disks) {
        Some(k) => ray.with_end(point_at(ray, k, ray_length_squared(ray))),
        None => ray,
    }
}

/// The ray cut until no disk shortens it. The point of a cut is rounded
/// to the unit, so that the cut ray may reach a little into the disk that
/// cut it, or point a little aside of the whole ray; it is then cut again,
/// each time by at least a unit, until it is settled.
pub open spec fn settle(ray: RayView, disks: Seq<CircleView>) -> RayView
    decreases ray_length_squared(ray),
{
    let next = cut(ray, disks);
    if 0 <= ray_length_squared(next) < ray_length_squared(ray) {
        settle(next, disks)
    } else {
        ray
    }
}

/// The disks of the absorbers among `objects`, in order.
pub open spec fn absorber_disks(objects: Seq<ObjectView>) -> Seq<CircleView>
    decreases objects.len(),
{
    if objects.len() == 0 {
        Seq::empty()
    } else {
        match objects.last() {
            ObjectView::Absorber(disk) => absorber_disks(objects.drop_last()).push(disk),
            _ => absorber_disks(objects.drop_last()),
        }
    }
}

/// The rays, each settled against the disks.
pub open spec fn settle_rays(rays: Seq<RayView>, disks: Seq<CircleView>) -> Seq<RayView> {
    Seq::new(rays.len(), |i: int| settle(rays[i], disks))
}

/// The object after the occlusion pass: every ray of an emitter is settled
/// against the absorbers; any other object stays as it is.
pub open spec fn occluded(object: ObjectView, disks: Seq<CircleView>) -> ObjectView {
    match object {
        ObjectView::Emitter(e) => ObjectView::Emitter(
            EmitterView { rays: settle_rays(e.rays, disks), ..e },
        ),
        other => other,
    }
}

/// The scene after the occlusion pass.
pub open spec fn occluded_scene(objects: Seq<ObjectView>) -> Seq<ObjectView> {
    Seq::new(objects.len(), |i: int| occluded(objects[i], absorber_disks(objects)))
}

/// The disks of a sequence of absorbers.
pub open spec fn disks_of(absorbers: Seq<Absorbers>) -> Seq<CircleView> {
    Seq::new(absorbers.len(), |i: int| absorbers[i]@)
}

/// A numerator as contracts see it.
pub open spec fn numerator_view(numerator: Option<i128>) -> Option<int> {
    match numerator {
        Some(k) => Some(k as int),
        None => None,
    }
}

/// `x` lies between `a` and `b`, whichever of the two is the greater.
pub open spec fn between(a: int, x: int, b: int) -> bool {
    (a <= x <= b) || (b <= x <= a)
}

/// A disk strikes a ray at a parameter between 0 and 1: the numerator lies
/// between zero and the squared length of the ray, which is not zero.
pub proof fn lemma_strike_range(disk: CircleView, ray: RayView)
    ensures
        strike(disk, ray) matches Some(k) ==> 0 < ray_length_squared(ray) && 0 <= k
            <= ray_length_squared(ray),
{
    let q = quadratic(disk, ray);
    if q.chosen() is Some {
        let dx = ray.direction().0;
        let dy = ray.direction().1;
        let fx = ray.start.0 - disk.x;
        let fy = ray.start.1 - disk.y;
        let a = q.a;
        let h = dx * fx + dy * fy;
        let c = q.c;
        let dq = h * h - a * c;
        assert(a >= 0) by (nonlinear_arith)
            requires
                a == dx * dx + dy * dy,
        ;
        assert(q.discriminant() == 4 * dq) by (nonlinear_arith)
            requires
                q.discriminant() == (2 * h) * (2 * h) - 4 * a * c,
                dq == h * h - a * c,
        ;
        lemma_sqrt_floor_exists(dq);
        let s = sqrt_floor(dq);
        assert((2 * h) * (2 * h) == 4 * (h * h)) by (nonlinear_arith);
        assert((-(2 * h)) * (-(2 * h)) == 4 * (h * h)) by (nonlinear_arith);
        assert((2 * h + 2 * a) * (2 * h + 2 * a) == 4 * ((h + a) * (h + a))) by (nonlinear_arith);
        assert((-(2 * h) - 2 * a) * (-(2 * h) - 2 * a) == 4 * ((h + a) * (h + a)))
            by (nonlinear_arith);
        lemma_numerator_range(a, h, dq, s);
    }
}

/// The nearest strike is a strike of one of the disks, and no disk strikes
/// the ray at a lesser parameter; there is none exactly where no disk
/// strikes the ray.
pub proof fn lemma_nearest(ray: RayView, disks: Seq<CircleView>)
    ensures
        nearest(ray, disks) is None <==> (forall|j: int|
            0 <= j < disks.len() ==> strike(#[trigger] disks[j], ray) is None),
        nearest(ray, disks) matches Some(k) ==> {
            &&& exists|j: int| 0 <= j < disks.len() && strike(#[trigger] disks[j], ray) == Some(k)
            &&& forall|j: int|
                0 <= j < disks.len() && strike(#[trigger] disks[j], ray) is Some ==> k <= strike(
                    disks[j],
                    ray,
                ).unwrap()
        },
    decreases disks.len(),
{
    if disks.len() > 0 {
        let init = disks.drop_last();
        let last = disks.len() - 1;
        lemma_nearest(ray, init);
        assert forall|j: int| 0 <= j < init.len() implies init[j] == disks[j] by {}
        assert(disks.last() == disks[last]);
        match nearest(ray, init) {
            Some(k) => {
                let w = choose|j: int| 0 <= j < init.len() && strike(#[trigger] init[j], ray) == Some(k);
                assert(strike(disks[w], ray) == Some(k));
                assert forall|j: int|
                    0 <= j < disks.len() && strike(#[trigger] disks[j], ray) is Some implies k
                    <= strike(disks[j], ray).unwrap() || j == last by {
                    if j < last {
                        assert(strike(init[j], ray) is Some);
                    }
                }
            },
            None => {
                assert forall|j: int| 0 <= j < last implies strike(#[trigger] disks[j], ray) is None by {
                    assert(strike(init[j], ray) is None);
                }
            },
        }
        if nearest(ray, disks) is None {
            assert forall|j: int| 0 <= j < disks.len() implies strike(
                #[trigger] disks[j],
                ray,
            ) is None by {
                if j < last {
                    assert(strike(init[j], ray) is None);
                }
            }
        }
    }
}

/// A cut keeps the start, the thickness and the colour of a ray, and ends
/// it between its start and its old end on each axis. A cut that changes
/// the ray makes it shorter.
pub proof fn lemma_cut_shortens(ray: RayView, disks: Seq<CircleView>)
    ensures
        cut(ray, disks).start == ray.start,
        cut(ray, disks).thickness == ray.thickness,
        cut(ray, disks).color == ray.color,
        between(ray.start.0, cut(ray, disks).end.0, ray.end.0),
        between(ray.start.1, cut(ray, disks).end.1, ray.end.1),
        0 <= ray_length_squared(cut(ray, disks)) <= ray_length_squared(ray),
        ray_length_squared(cut(ray, disks)) == ray_length_squared(ray) ==> cut(ray, disks) == ray,
{
    let dx = ray.direction().0;
    let dy = ray.direction().1;
    let a = ray_length_squared(ray);
    assert(dx * dx >= 0 && dy * dy >= 0) by (nonlinear_arith);
    lemma_nearest(ray, disks);
    if let Some(k) = nearest(ray, disks) {
        let w = choose|j: int| 0 <= j < disks.len() && strike(#[trigger] disks[j], ray) == Some(k);
        lemma_strike_range(disks[w], ray);
        lemma_round_div_between(dx, k, a);
        lemma_round_div_between(dy, k, a);
        let hx = round_div(dx * k, a);
        let hy = round_div(dy * k, a);
        assert(hx * hx <= dx * dx && (hx * hx == dx * dx ==> hx == dx)) by (nonlinear_arith)
            requires
                (0 <= hx <= dx) || (dx <= hx <= 0),
        ;
        assert(hy * hy <= dy * dy && (hy * hy == dy * dy ==> hy == dy)) by (nonlinear_arith)
            requires
                (0 <= hy <= dy) || (dy <= hy <= 0),
        ;
        assert(hx * hx >= 0 && hy * hy >= 0) by (nonlinear_arith);
        let next = cut(ray, disks);
        assert(next.end == (ray.start.0 + hx, ray.start.1 + hy));
        assert(ray_length_squared(next) == hx * hx + hy * hy);
        if ray_length_squared(next) == a {
            assert(next.end == ray.end);
        }
    }
}

/// What settling leaves of a ray: its start, thickness and colour. The
/// settled ray ends between its start and its old end on each axis, and is
/// no longer than the ray cut once.
pub proof fn lemma_settle_keeps(ray: RayView, disks: Seq<CircleView>)
    ensures
        settle(ray, disks).start == ray.start,
        settle(ray, disks).thickness == ray.thickness,
        settle(ray, disks).color == ray.color,
        between(ray.start.0, settle(ray, disks).end.0, ray.end.0),
        between(ray.start.1, settle(ray, disks).end.1, ray.end.1),
        0 <= ray_length_squared(settle(ray, disks)) <= ray_length_squared(cut(ray, disks))
            <= ray_length_squared(ray),
    decreases ray_length_squared(ray),
{
    lemma_cut_shortens(ray, disks);
    let next = cut(ray, disks);
    if 0 <= ray_length_squared(next) < ray_length_squared(ray) {
        lemma_settle_keeps(next, disks);
        lemma_cut_shortens(next, disks);
    }
}

/// A settled ray is settled: no disk cuts it, and settling it again
/// changes nothing.
pub proof fn lemma_settle_fixed(ray: RayView, disks: Seq<CircleView>)
    ensures
        cut(settle(ray, disks), disks) == settle(ray, disks),
        settle(settle(ray, disks), disks) == settle(ray, disks),
    decreases ray_length_squared(ray),
{
    lemma_cut_shortens(ray, disks);
    let next = cut(ray, disks);
    if 0 <= ray_length_squared(next) < ray_length_squared(ray) {
        lemma_settle_fixed(next, disks);
    } else {
        assert(cut(ray, disks) == ray);
    }
}

/// Cuts `ray` once: ends it at the nearest point at which one of
/// `absorbers` strikes it. Returns whether the ray has changed. The
/// absorbers lie within 4096 pixels of the origin and the ray within 16384
/// pixels.
pub fn cut_ray(ray: &mut ObjectRay, absorbers: &Vec<Absorbers>) -> (changed: bool)
    requires
        old(ray).wf(),
        forall|k: int| 0 <= k < absorbers.len() ==> (#[trigger] absorbers[k]).wf(),
    ensures
        final(ray)@ == cut(old(ray)@, disks_of(absorbers@)),
        final(ray).wf(),
        changed == (final(ray)@ != old(ray)@),
{
    let ghost disks = disks_of(absorbers@);
    let mut best: Option<i128> = None;
    let mut index: usize = 0;
    assert(disks.take(0) =~= Seq::<CircleView>::empty());
    while index < absorbers.len()
        invariant
            0 <= index <= absorbers.len(),
            disks == disks_of(absorbers@),
            ray.wf(),
            *ray == *old(ray),
            forall|k: int| 0 <= k < absorbers.len() ==> (#[trigger] absorbers[k]).wf(),
            numerator_view(best) == nearest(ray@, disks.take(index as int)),
            best matches Some(k) ==> 0 < ray_length_squared(ray@) && 0 <= k <= ray_length_squared(
                ray@,
            ),
        decreases absorbers.len() - index,
    {
        let found = strike_on(&absorbers[index], ray);
        assert(disks.take(index + 1).drop_last() =~= disks.take(index as int));
        assert(disks.take(index + 1).last() == absorbers[index as int]@);
        best =
        match (best, found) {
            (Some(k), Some(j)) => Some(
                if j < k {
                    j
                } else {
                    k
                },
            ),
            (Some(k), None) => Some(k),
            (None, other) => other,
        };
        index = index + 1;
    }
    assert(disks.take(index as int) =~= disks);
    match best {
        Some(numerator) => {
            let point = point_on(ray, numerator);
            let changed = point.0 != ray.end_x || point.1 != ray.end_y;
            ray.end_x = point.0;
            ray.end_y = point.1;
            changed
        },
        None => false,
    }
}

/// Cuts `ray` until none of `absorbers` shortens it. The absorbers lie
/// within 4096 pixels of the origin and the ray within 16384 pixels.
pub fn settle_ray(ray: &mut ObjectRay, absorbers: &Vec<Absorbers>)
    requires
        old(ray).wf(),
        forall|k: int| 0 <= k < absorbers.len() ==> (#[trigger] absorbers[k]).wf(),
    ensures
        final(ray)@ == settle(old(ray)@, disks_of(absorbers@)),
        final(ray).wf(),
{
    let ghost disks = disks_of(absorbers@);
    loop
        invariant
            disks == disks_of(absorbers@),
            ray.wf(),
            forall|k: int| 0 <= k < absorbers.len() ==> (#[trigger] absorbers[k]).wf(),
            settle(ray@, disks) == settle(old(ray)@, disks),
        ensures
            ray.wf(),
            ray@ == settle(old(ray)@, disks),
        decreases ray_length_squared(ray@),
    {
        proof {
            lemma_cut_shortens(ray@, disks);
        }
        let changed = cut_ray(ray, absorbers);
        if !changed {
            break ;
        }
    }
}

/// Settles every ray of `rays` against `absorbers`.
fn settle_all_rays(rays: &mut Vec<ObjectRay>, absorbers: &Vec<Absorbers>)
    requires
        rays_wf(rays_view(old(rays)@)),
        forall|k: int| 0 <= k < absorbers.len() ==> (#[trigger] absorbers[k]).wf(),
    ensures
        rays_view(final(rays)@) == settle_rays(rays_view(old(rays)@), disks_of(absorbers@)),
        rays_wf(rays_view(final(rays)@)),
{
    let ghost disks = disks_of(absorbers@);
    let count = rays.len();
    let mut index: usize = 0;
    assert forall|j: int| 0 <= j < count implies (#[trigger] rays[j]).wf() by {
        assert(rays_view(rays@)[j].wf());
    }
    while index < count
        invariant
            0 <= index <= count,
            rays.len() == count,
            count == old(rays).len(),
            disks == disks_of(absorbers@),
            forall|k: int| 0 <= k < absorbers.len() ==> (#[trigger] absorbers[k]).wf(),
            forall|j: int| 0 <= j < index ==> (#[trigger] rays[j])@ == settle(old(rays)[j]@, disks),
            forall|j: int| index <= j < count ==> (#[trigger] rays[j]) == old(rays)[j],
            forall|j: int| 0 <= j < count ==> (#[trigger] rays[j]).wf(),
        decreases count - index,
    {
        let mut ray: ObjectRay = rays[index];
        settle_ray(&mut ray, absorbers);
        rays[index] = ray;
        index = index + 1;
    }
    assert(rays_view(rays@) =~= settle_rays(rays_view(old(rays)@), disks));
    assert forall|j: int| 0 <= j < count implies (#[trigger] rays_view(rays@)[j]).wf() by {
        assert(rays[j].wf());
    }
}

/// Lists the absorbers of the scene, in order.
fn collect_absorbers(scene: &Scene) -> (absorbers: Vec<Absorbers>)
    requires
        scene.wf(),
    ensures
        disks_of(absorbers@) == absorber_disks(scene@),
        forall|k: int| 0 <= k < absorbers.len() ==> (#[trigger] absorbers[k]).wf(),
{
    let mut absorbers: Vec<Absorbers> = Vec::new();
    let mut index: usize = 0;
    assert(scene@.take(0) =~= Seq::<ObjectView>::empty());
    assert(disks_of(absorbers@) =~= Seq::<CircleView>::empty());
    while index < scene.objects.len()
        invariant
            0 <= index <= scene.objects.len(),
            scene.wf(),
            disks_of(absorbers@) == absorber_disks(scene@.take(index as int)),
            forall|k: int| 0 <= k < absorbers.len() ==> (#[trigger] absorbers[k]).wf(),
        decreases scene.objects.len() - index,
    {
        let ghost before = disks_of(absorbers@);
        assert(scene@.take(index + 1).drop_last() =~= scene@.take(index as int));
        assert(scene@.take(index + 1).last() == scene@[index as int]);
        assert(scene@[index as int].wf());
        if let RaytracerObjects::Absorbers(absorber) = &scene.objects[index] {
            absorbers.push(*absorber);
            assert(disks_of(absorbers@) =~= before.push(absorber@));
        }
        index = index + 1;
    }
    assert(scene@.take(index as int) =~= scene@);
    absorbers
}

/// Cuts every ray of every emitter of the scene at the nearest absorber in
/// its way. Each ray is tried against every absorber of the scene, is cut
/// where the nearest of them strikes it, and is tried again until no
/// absorber shortens it. The result does not depend on the order of the
/// absorbers, and a second pass changes nothing.
pub fn check_for_occlusion(scene: &mut Scene)
    requires
        old(scene).wf(),
    ensures
        final(scene)@ == occluded_scene(old(scene)@),
        final(scene).wf(),
{
    let absorbers = collect_absorbers(scene);
    let ghost disks = absorber_disks(scene@);
    let count = scene.objects.len();
    let mut index: usize = 0;
    assert forall|j: int| 0 <= j < count implies (#[trigger] scene.objects[j]).wf() by {
        assert(scene@[j].wf());
    }
    while index < count
        invariant
            0 <= index <= count,
            scene.objects.len() == count,
            count == old(scene)@.len(),
            count <= OBJC_MAX_OBJ_COUNT,
            disks == absorber_disks(old(scene)@),
            disks == disks_of(absorbers@),
            forall|k: int| 0 <= k < absorbers.len() ==> (#[trigger] absorbers[k]).wf(),
            forall|j: int|
                0 <= j < index ==> (#[trigger] scene.objects[j])@ == occluded(
                    old(scene)@[j],
                    disks,
                ),
            forall|j: int| index <= j < count ==> (#[trigger] scene.objects[j])@ == old(scene)@[j],
            forall|j: int| 0 <= j < count ==> (#[trigger] scene.objects[j]).wf(),
        decreases count - index,
    {
        if let RaytracerObjects::Emitters(emitter) = &mut scene.objects[index] {
            match emitter {
                Emitters::EmitterIsotropic(o) => settle_all_rays(&mut o.rays, &absorbers),
                Emitters::EmitterCollimated(o) => settle_all_rays(
                    &mut o.base_emitter.rays,
                    &absorbers,
                ),
                Emitters::EmitterSpotlight(o) => settle_all_rays(
                    &mut o.base_emitter.rays,
                    &absorbers,
                ),
            }
        }
        index = index + 1;
    }
    assert(scene@ =~= occluded_scene(old(scene)@));
}


/// Where the roots of a quadratic lie, told by the signs of its
/// coefficients and of its values at 0 and 1.
pub proof fn lemma_root_ranges(q: Quadratic)
    requires
        q.a > 0,
        q.discriminant() >= 0,
    ensures
        q.near_in_range() <==> (q.c > 0 && q.b < 0 && (q.b + 2 * q.a >= 0 || q.at_end() <= 0)),
        q.far_in_range() <==> ((q.c < 0 || q.b < 0) && q.b + 2 * q.a >= 0 && q.at_end() >= 0),
{
    let a = q.a;
    let b = q.b;
    let c = q.c;
    let d = q.discriminant();
    let ac = a * c;
    let ae = a * (a + b + c);
    assert(d - b * b == -4 * ac) by (nonlinear_arith)
        requires
            d == b * b - 4 * a * c,
            ac == a * c,
    ;
    assert((-b) * (-b) == b * b) by (nonlinear_arith);
    assert((ac > 0) == (c > 0) && (ac < 0) == (c < 0)) by (nonlinear_arith)
        requires
            a > 0,
            ac == a * c,
    ;
    assert(d - (b + 2 * a) * (b + 2 * a) == -4 * ae) by (nonlinear_arith)
        requires
            d == b * b - 4 * a * c,
            ae == a * (a + b + c),
    ;
    assert((-b - 2 * a) * (-b - 2 * a) == (b + 2 * a) * (b + 2 * a)) by (nonlinear_arith);
    assert((ae > 0) == (a + b + c > 0) && (ae < 0) == (a + b + c < 0)) by (nonlinear_arith)
        requires
            a > 0,
            ae == a * (a + b + c),
    ;
}

/// A ray strikes a disk, in the sense that `occlusion` returns a point,
/// exactly when the ray has a length and `strikes` holds of their quadratic.
/// In particular a ray that starts inside the disk and ends outside it
/// strikes the disk.
pub proof fn lemma_strikes_iff(disk: CircleView, ray: RayView)
    ensures
        occlusion_spec(disk, ray) is Some <==> quadratic(disk, ray).a > 0 && quadratic(
            disk,
            ray,
        ).strikes(),
        quadratic(disk, ray).a > 0 <==> ray.direction() != (0int, 0int),
{
    let q = quadratic(disk, ray);
    let dx = ray.direction().0;
    let dy = ray.direction().1;
    assert(q.a >= 0 && (q.a == 0 <==> dx == 0 && dy == 0)) by (nonlinear_arith)
        requires
            q.a == dx * dx + dy * dy,
    ;
    if q.a > 0 {
        let a = q.a;
        let b = q.b;
        let c = q.c;
        let d = q.discriminant();
        let ac = a * c;
        assert(d == b * b - 4 * ac) by (nonlinear_arith)
            requires
                d == b * b - 4 * a * c,
                ac == a * c,
        ;
        assert(b * b >= 0) by (nonlinear_arith);
        assert(c <= 0 ==> ac <= 0) by (nonlinear_arith)
            requires
                a > 0,
                ac == a * c,
        ;
        if d >= 0 {
            lemma_root_ranges(q);
        }
    }
}

/// A ray that starts outside a disk strikes it exactly when it does not
/// miss it: `occlusion` returns no point where the disk and the ray have no
/// point in common, and a point where they have one.
pub proof fn lemma_miss_iff(disk: CircleView, ray: RayView)
    requires
        ray.direction() != (0int, 0int),
        quadratic(disk, ray).c > 0,
    ensures
        occlusion_spec(disk, ray) is None <==> quadratic(disk, ray).misses(),
{
    lemma_strikes_iff(disk, ray);
    let q = quadratic(disk, ray);
    let a = q.a;
    let b = q.b;
    let c = q.c;
    let d = q.discriminant();
    let ac = a * c;
    assert(d == b * b - 4 * ac) by (nonlinear_arith)
        requires
            d == b * b - 4 * a * c,
            ac == a * c,
    ;
    if a + b + c <= 0 {
        assert(b * b >= (a + c) * (a + c)) by (nonlinear_arith)
            requires
                -b >= a + c,
                a + c > 0,
        ;
        assert((a + c) * (a + c) >= 4 * ac) by (nonlinear_arith)
            requires
                ac == a * c,
        ;
    }
    if b + 2 * a == 0 && d >= 0 {
        assert(ac <= a * a) by (nonlinear_arith)
            requires
                b * b - 4 * ac >= 0,
                b == -2 * a,
        ;
        assert(c <= a) by (nonlinear_arith)
            requires
                ac <= a * a,
                ac == a * c,
                a > 0,
        ;
    }
}

/// A product of two products can be paired the other way.
proof fn lemma_swap_product(a: int, b: int, c: int, d: int)
    ensures
        (a * b) * (c * d) == (a * c) * (b * d),
{
    let ab = a * b;
    let ac = a * c;
    assert(ab * (c * d) == (ab * c) * d) by (nonlinear_arith);
    assert(ab * c == ac * b) by (nonlinear_arith)
        requires
            ab == a * b,
            ac == a * c,
    ;
    assert((ac * b) * d == ac * (b * d)) by (nonlinear_arith);
}

/// The identity of Lagrange in the plane.
proof fn lemma_lagrange(x1: int, y1: int, x2: int, y2: int)
    ensures
        (x1 * x1 + y1 * y1) * (x2 * x2 + y2 * y2) - (x1 * x2 + y1 * y2) * (x1 * x2 + y1 * y2) == (
        x1 * y2 - y1 * x2) * (x1 * y2 - y1 * x2),
        (x1 * x2 + y1 * y2) * (x1 * x2 + y1 * y2) <= (x1 * x1 + y1 * y1) * (x2 * x2 + y2 * y2),
{
    let a = x1 * x2;
    let b = y1 * y2;
    let c = x1 * y2;
    let d = y1 * x2;
    let p = x1 * x1;
    let q = y1 * y1;
    let u = x2 * x2;
    let v = y2 * y2;
    assert((p + q) * (u + v) == p * u + p * v + q * u + q * v) by (nonlinear_arith);
    lemma_swap_product(x1, x1, x2, x2);
    lemma_swap_product(x1, x1, y2, y2);
    lemma_swap_product(y1, y1, x2, x2);
    lemma_swap_product(y1, y1, y2, y2);
    assert((x1 * x1 + y1 * y1) * (x2 * x2 + y2 * y2) == a * a + c * c + d * d + b * b);
    lemma_swap_product(x1, x2, y1, y2);
    assert(c * d == (x1 * y1) * (y2 * x2)) by {
        lemma_swap_product(x1, y2, y1, x2);
    }
    assert(y2 * x2 == x2 * y2) by (nonlinear_arith);
    assert(a * b == c * d);
    assert((a + b) * (a + b) == a * a + 2 * (a * b) + b * b) by (nonlinear_arith);
    assert((c - d) * (c - d) == c * c - 2 * (c * d) + d * d) by (nonlinear_arith);
    assert((c - d) * (c - d) >= 0) by (nonlinear_arith);
}

/// A number whose square is at most the square of a bound is at most the
/// bound in magnitude.
proof fn lemma_square_bound(p: int, m: int)
    requires
        m >= 0,
        p * p <= m * m,
    ensures
        -m <= p <= m,
{
    if p > m {
        assert(p * p > m * m) by (nonlinear_arith)
            requires
                p > m,
                m >= 0,
        ;
    }
    if p < -m {
        assert(p * p > m * m) by (nonlinear_arith)
            requires
                p < -m,
                m >= 0,
        ;
    }
}

/// The point at a root of the quadratic, each coordinate rounded to the
/// nearest unit, lies on the circle but for the rounding: its squared
/// distance from the centre differs from the squared radius by no more than
/// four radii.
proof fn lemma_rounded_point(
    dx: int,
    dy: int,
    fx: int,
    fy: int,
    r: int,
    s: int,
    k: int,
    px: int,
    py: int,
)
    requires
        dx * dx + dy * dy > 0,
        r >= 0,
        s >= 0,
        ({
            let a = dx * dx + dy * dy;
            let h = dx * fx + dy * fy;
            let dq = h * h - a * (fx * fx + fy * fy - r * r);
            &&& s * s <= dq < (s + 1) * (s + 1)
            &&& k == -h - s || k == -h + s
            &&& -a < 2 * (a * px - dx * k) <= a
            &&& -a < 2 * (a * py - dy * k) <= a
        }),
    ensures
        -4 * r <= (fx + px) * (fx + px) + (fy + py) * (fy + py) - r * r <= 2 * r,
{
    let a = dx * dx + dy * dy;
    let h = dx * fx + dy * fy;
    let f2 = fx * fx + fy * fy;
    let r2 = r * r;
    let dq = h * h - a * (f2 - r2);
    let s2 = s * s;
    let delta = dq - s2;
    let ar = a * r;
    let aar = a * ar;
    // The line comes no nearer to the centre than the radius allows.
    lemma_lagrange(dx, dy, fx, fy);
    assert(a * f2 - h * h >= 0);
    assert(a * (f2 - r2) == a * f2 - a * r2) by (nonlinear_arith);
    assert(dq <= a * r2);
    assert(a * r2 <= ar * ar) by (nonlinear_arith)
        requires
            a >= 1,
            ar == a * r,
            r2 == r * r,
    ;
    assert(ar >= 0) by (nonlinear_arith)
        requires
            a >= 1,
            r >= 0,
            ar == a * r,
    ;
    lemma_square_bound(s, ar);
    assert(0 <= delta <= 2 * s) by (nonlinear_arith)
        requires
            delta == dq - s * s,
            s * s <= dq < (s + 1) * (s + 1),
    ;
    assert(0 <= a * delta <= 2 * aar) by (nonlinear_arith)
        requires
            a >= 1,
            0 <= delta <= 2 * s,
            0 <= s <= ar,
            aar == a * ar,
    ;
    // The exact point: a times the vector from the centre to it.
    let xx = a * fx + dx * k;
    let xy = a * fy + dy * k;
    let n = xx * xx + xy * xy;
    assert(n == a * (a * f2 + 2 * (k * h) + k * k)) by {
        let afx = a * fx;
        let afy = a * fy;
        let dxk = dx * k;
        let dyk = dy * k;
        assert(xx * xx == afx * afx + 2 * (afx * dxk) + dxk * dxk) by (nonlinear_arith)
            requires
                xx == afx + dxk,
        ;
        assert(xy * xy == afy * afy + 2 * (afy * dyk) + dyk * dyk) by (nonlinear_arith)
            requires
                xy == afy + dyk,
        ;
        lemma_swap_product(a, fx, a, fx);
        lemma_swap_product(a, fy, a, fy);
        assert((a * a) * (fx * fx) + (a * a) * (fy * fy) == a * (a * f2)) by (nonlinear_arith)
            requires
                f2 == fx * fx + fy * fy,
        ;
        assert(afx * afx + afy * afy == a * (a * f2));
        lemma_swap_product(a, fx, k, dx);
        lemma_swap_product(a, fy, k, dy);
        assert(dx * k == k * dx && dy * k == k * dy) by (nonlinear_arith);
        assert(fx * dx == dx * fx && fy * dy == dy * fy) by (nonlinear_arith);
        let ak = a * k;
        assert(ak * (dx * fx) + ak * (dy * fy) == ak * h) by (nonlinear_arith)
            requires
                h == dx * fx + dy * fy,
        ;
        assert(ak * h == a * (k * h)) by (nonlinear_arith)
            requires
                ak == a * k,
        ;
        assert(afx * dxk + afy * dyk == a * (k * h));
        lemma_swap_product(dx, k, dx, k);
        lemma_swap_product(dy, k, dy, k);
        let kk = k * k;
        assert((dx * dx) * kk + (dy * dy) * kk == a * kk) by (nonlinear_arith)
            requires
                a == dx * dx + dy * dy,
        ;
        assert(dxk * dxk + dyk * dyk == a * (k * k));
        assert(a * (a * f2 + 2 * (k * h) + k * k) == a * (a * f2) + 2 * (a * (k * h)) + a * (k
            * k)) by (nonlinear_arith);
    }
    assert(2 * (k * h) + k * k == s2 - h * h) by (nonlinear_arith)
        requires
            k == -h - s || k == -h + s,
            s2 == s * s,
    ;
    assert(a * f2 + 2 * (k * h) + k * k == a * r2 - delta);
    assert(n == aar * r - a * delta) by (nonlinear_arith)
        requires
            n == a * (a * f2 + 2 * (k * h) + k * k),
            a * f2 + 2 * (k * h) + k * k == a * r2 - delta,
            aar == a * ar,
            ar == a * r,
            r2 == r * r,
    ;
    assert(aar * r == ar * ar) by (nonlinear_arith)
        requires
            aar == a * ar,
            ar == a * r,
    ;
    assert(0 <= n <= ar * ar) by {
        assert(xx * xx >= 0 && xy * xy >= 0) by (nonlinear_arith);
    }
    // The rounding.
    let ex = a * px - dx * k;
    let ey = a * py - dy * k;
    let e = ex * ex + ey * ey;
    assert(4 * (ex * ex) <= a * a) by (nonlinear_arith)
        requires
            -a < 2 * ex <= a,
    ;
    assert(4 * (ey * ey) <= a * a) by (nonlinear_arith)
        requires
            -a < 2 * ey <= a,
    ;
    assert(0 <= 2 * e <= a * a) by {
        assert(ex * ex >= 0 && ey * ey >= 0) by (nonlinear_arith);
    }
    let p = xx * ex + xy * ey;
    lemma_lagrange(xx, xy, ex, ey);
    assert(p * p <= n * e);
    assert(2 * (n * e) <= (ar * ar) * (a * a)) by (nonlinear_arith)
        requires
            0 <= n <= ar * ar,
            0 <= 2 * e <= a * a,
    ;
    assert((ar * ar) * (a * a) == aar * aar) by (nonlinear_arith)
        requires
            aar == a * ar,
    ;
    assert(aar >= 0) by (nonlinear_arith)
        requires
            a >= 1,
            ar >= 0,
            aar == a * ar,
    ;
    assert(p * p <= aar * aar) by {
        assert(p * p >= 0) by (nonlinear_arith);
    }
    lemma_square_bound(p, aar);
    // The rounded point: a times the vector from the centre to it.
    let gx = fx + px;
    let gy = fy + py;
    let t = gx * gx + gy * gy - r2;
    assert(a * gx == xx + ex && a * gy == xy + ey) by (nonlinear_arith)
        requires
            gx == fx + px,
            gy == fy + py,
            xx == a * fx + dx * k,
            xy == a * fy + dy * k,
            ex == a * px - dx * k,
            ey == a * py - dy * k,
    ;
    let agx = a * gx;
    let agy = a * gy;
    assert(agx * agx + agy * agy == n + 2 * p + e) by (nonlinear_arith)
        requires
            agx == xx + ex,
            agy == xy + ey,
            n == xx * xx + xy * xy,
            p == xx * ex + xy * ey,
            e == ex * ex + ey * ey,
    ;
    assert(agx * agx + agy * agy == (a * a) * (gx * gx + gy * gy)) by (nonlinear_arith)
        requires
            agx == a * gx,
            agy == a * gy,
    ;
    assert((a * a) * r2 == ar * ar) by (nonlinear_arith)
        requires
            ar == a * r,
            r2 == r * r,
    ;
    assert((a * a) * t == (a * a) * (gx * gx + gy * gy) - (a * a) * r2) by (nonlinear_arith)
        requires
            t == gx * gx + gy * gy - r2,
    ;
    let aa = a * a;
    assert(aa * t == -(a * delta) + 2 * p + e);
    assert(aa * r == aar) by (nonlinear_arith)
        requires
            aa == a * a,
            aar == a * ar,
            ar == a * r,
    ;
    assert(-4 * (aa * r) <= aa * t && 2 * (aa * t) <= 4 * (aa * r) + aa);
    assert(aa >= 1) by (nonlinear_arith)
        requires
            a >= 1,
            aa == a * a,
    ;
    assert(-4 * r <= t) by (nonlinear_arith)
        requires
            aa >= 1,
            -4 * (aa * r) <= aa * t,
    ;
    assert(t <= 2 * r) by (nonlinear_arith)
        requires
            aa >= 1,
            2 * (aa * t) <= 4 * (aa * r) + aa,
    ;
}

/// The point that `occlusion` returns lies on the boundary of the disk, but
/// for the rounding of the square root and of the two coordinates: its
/// squared distance from the centre is no more than four radii below the
/// squared radius and no more than two radii above, so that its distance
/// from the centre differs from the radius by less than four units.
pub proof fn lemma_hit_on_boundary(disk: CircleView, ray: RayView)
    requires
        disk.radius >= 0,
        occlusion_spec(disk, ray) is Some,
    ensures
        -4 * disk.radius <= length_squared((disk.x, disk.y), occlusion_spec(disk, ray).unwrap())
            - disk.radius * disk.radius <= 2 * disk.radius,
{
    let q = quadratic(disk, ray);
    let dx = ray.direction().0;
    let dy = ray.direction().1;
    let fx = ray.start.0 - disk.x;
    let fy = ray.start.1 - disk.y;
    let r = disk.radius;
    let a = q.a;
    let h = dx * fx + dy * fy;
    let dq = h * h - a * (fx * fx + fy * fy - r * r);
    lemma_strikes_iff(disk, ray);
    assert(q.discriminant() == 4 * dq) by (nonlinear_arith)
        requires
            q.discriminant() == (2 * h) * (2 * h) - 4 * a * (fx * fx + fy * fy - r * r),
            dq == h * h - a * (fx * fx + fy * fy - r * r),
    ;
    lemma_sqrt_floor_exists(dq);
    let s = sqrt_floor(dq);
    let root = q.chosen().unwrap();
    let k = q.numerator(root);
    let px = round_div(dx * k, a);
    let py = round_div(dy * k, a);
    assert(-a < 2 * (a * px - dx * k) <= a) by (nonlinear_arith)
        requires
            a > 0,
            px == (2 * (dx * k) + a) / (2 * a),
    ;
    assert(-a < 2 * (a * py - dy * k) <= a) by (nonlinear_arith)
        requires
            a > 0,
            py == (2 * (dy * k) + a) / (2 * a),
    ;
    lemma_rounded_point(dx, dy, fx, fy, r, s, k, px, py);
    let hit = occlusion_spec(disk, ray).unwrap();
    assert(hit == (ray.start.0 + px, ray.start.1 + py));
    assert(hit.0 - disk.x == fx + px && hit.1 - disk.y == fy + py);
}


/// Every disk of `small` is a disk of `large`.
pub open spec fn all_among(small: Seq<CircleView>, large: Seq<CircleView>) -> bool {
    forall|i: int| 0 <= i < small.len() ==> large.contains(#[trigger] small[i])
}

/// The nearest strike does not depend on the order of the disks, nor on
/// how often a disk is listed: two lists of the same disks give the same
/// nearest strike and the same cut.
pub proof fn lemma_nearest_order(ray: RayView, first: Seq<CircleView>, second: Seq<CircleView>)
    requires
        all_among(first, second),
        all_among(second, first),
    ensures
        nearest(ray, first) == nearest(ray, second),
        cut(ray, first) == cut(ray, second),
{
    lemma_nearest(ray, first);
    lemma_nearest(ray, second);
    lemma_nearest_among(ray, first, second);
    lemma_nearest_among(ray, second, first);
}

/// A list that holds every disk of another list strikes no later.
proof fn lemma_nearest_among(ray: RayView, small: Seq<CircleView>, large: Seq<CircleView>)
    requires
        all_among(small, large),
    ensures
        nearest(ray, small) matches Some(k) ==> nearest(ray, large) is Some && nearest(
            ray,
            large,
        ).unwrap() <= k,
{
    lemma_nearest(ray, small);
    lemma_nearest(ray, large);
    if let Some(k) = nearest(ray, small) {
        let w = choose|j: int| 0 <= j < small.len() && strike(#[trigger] small[j], ray) == Some(k);
        assert(large.contains(small[w]));
        let v = choose|j: int| 0 <= j < large.len() && large[j] == small[w];
        assert(strike(large[v], ray) == Some(k));
    }
}

/// The occlusion of a ray does not depend on the order in which the
/// absorbers are visited: two lists of the same disks settle every ray at
/// the same end.
pub proof fn lemma_settle_order(ray: RayView, first: Seq<CircleView>, second: Seq<CircleView>)
    requires
        all_among(first, second),
        all_among(second, first),
    ensures
        settle(ray, first) == settle(ray, second),
    decreases ray_length_squared(ray),
{
    lemma_nearest_order(ray, first, second);
    let next = cut(ray, first);
    if 0 <= ray_length_squared(next) < ray_length_squared(ray) {
        lemma_settle_order(next, first, second);
    }
}

/// The occlusion of an object does not depend on the order in which the
/// absorbers are visited.
pub proof fn lemma_occlusion_order(
    object: ObjectView,
    first: Seq<CircleView>,
    second: Seq<CircleView>,
)
    requires
        all_among(first, second),
        all_among(second, first),
    ensures
        occluded(object, first) == occluded(object, second),
{
    if let ObjectView::Emitter(e) = object {
        assert forall|k: int| 0 <= k < e.rays.len() implies settle(e.rays[k], first) == settle(
            e.rays[k],
            second,
        ) by {
            lemma_settle_order(e.rays[k], first, second);
        }
        assert(settle_rays(e.rays, first) =~= settle_rays(e.rays, second));
    }
}

/// The occlusion pass does not depend on the order in which a scene holds
/// its absorbers: in two scenes with the same absorbers, an object that
/// both hold comes out of the pass the same.
pub proof fn lemma_pass_order(first: Seq<ObjectView>, second: Seq<ObjectView>, i: int, j: int)
    requires
        all_among(absorber_disks(first), absorber_disks(second)),
        all_among(absorber_disks(second), absorber_disks(first)),
        0 <= i < first.len(),
        0 <= j < second.len(),
        first[i] == second[j],
    ensures
        occluded_scene(first)[i] == occluded_scene(second)[j],
{
    lemma_occlusion_order(first[i], absorber_disks(first), absorber_disks(second));
}

/// Where the ray cut once is settled already, the pass ends the ray at the
/// point of that cut.
pub proof fn lemma_settle_is_cut(ray: RayView, disks: Seq<CircleView>)
    requires
        cut(cut(ray, disks), disks) == cut(ray, disks),
    ensures
        settle(ray, disks) == cut(ray, disks),
{
    lemma_cut_shortens(ray, disks);
    let next = cut(ray, disks);
    if 0 <= ray_length_squared(next) < ray_length_squared(ray) {
        lemma_cut_shortens(next, disks);
        assert(settle(next, disks) == next);
    }
}

/// The nearest absorber wins: where one disk strikes the ray and no disk
/// strikes it at a lesser parameter, the cut ends the ray at the point at
/// which that disk strikes it.
pub proof fn lemma_nearest_wins(ray: RayView, disks: Seq<CircleView>, j: int)
    requires
        0 <= j < disks.len(),
        strike(disks[j], ray) is Some,
        forall|i: int|
            0 <= i < disks.len() && strike(#[trigger] disks[i], ray) is Some ==> strike(
                disks[j],
                ray,
            ).unwrap() <= strike(disks[i], ray).unwrap(),
    ensures
        nearest(ray, disks) == strike(disks[j], ray),
        Some(cut(ray, disks).end) == occlusion_spec(disks[j], ray),
{
    lemma_nearest(ray, disks);
    let k = nearest(ray, disks).unwrap();
    let w = choose|i: int| 0 <= i < disks.len() && strike(#[trigger] disks[i], ray) == Some(k);
    assert(strike(disks[w], ray) is Some);
}

/// The quotient of a division rounds no lower for a greater dividend.
proof fn lemma_round_div_monotone(n1: int, n2: int, d: int)
    requires
        d > 0,
        n1 <= n2,
    ensures
        round_div(n1, d) <= round_div(n2, d),
{
    assert((2 * n1 + d) / (2 * d) <= (2 * n2 + d) / (2 * d)) by (nonlinear_arith)
        requires
            d > 0,
            n1 <= n2,
    ;
}

/// The point of a ray at a lesser parameter lies no farther from the
/// start.
proof fn lemma_point_monotone(ray: RayView, k1: int, k2: int)
    requires
        0 <= k1 <= k2,
        0 < ray_length_squared(ray),
    ensures
        length_squared(ray.start, point_at(ray, k1, ray_length_squared(ray))) <= length_squared(
            ray.start,
            point_at(ray, k2, ray_length_squared(ray)),
        ),
{
    let a = ray_length_squared(ray);
    let dx = ray.direction().0;
    let dy = ray.direction().1;
    let x1 = round_div(dx * k1, a);
    let x2 = round_div(dx * k2, a);
    let y1 = round_div(dy * k1, a);
    let y2 = round_div(dy * k2, a);
    lemma_round_div_between(dx, 0, a);
    lemma_round_div_between(dy, 0, a);
    assert(dx * 0 == 0 && dy * 0 == 0);
    if dx >= 0 {
        assert(0 <= dx * k1 <= dx * k2) by (nonlinear_arith)
            requires
                dx >= 0,
                0 <= k1 <= k2,
        ;
        lemma_round_div_monotone(0, dx * k1, a);
        lemma_round_div_monotone(dx * k1, dx * k2, a);
    } else {
        assert(dx * k2 <= dx * k1 <= 0) by (nonlinear_arith)
            requires
                dx < 0,
                0 <= k1 <= k2,
        ;
        lemma_round_div_monotone(dx * k1, 0, a);
        lemma_round_div_monotone(dx * k2, dx * k1, a);
    }
    if dy >= 0 {
        assert(0 <= dy * k1 <= dy * k2) by (nonlinear_arith)
            requires
                dy >= 0,
                0 <= k1 <= k2,
        ;
        lemma_round_div_monotone(0, dy * k1, a);
        lemma_round_div_monotone(dy * k1, dy * k2, a);
    } else {
        assert(dy * k2 <= dy * k1 <= 0) by (nonlinear_arith)
            requires
                dy < 0,
                0 <= k1 <= k2,
        ;
        lemma_round_div_monotone(dy * k1, 0, a);
        lemma_round_div_monotone(dy * k2, dy * k1, a);
    }
    assert(x1 * x1 <= x2 * x2) by (nonlinear_arith)
        requires
            (0 <= x1 <= x2) || (x2 <= x1 <= 0),
    ;
    assert(y1 * y1 <= y2 * y2) by (nonlinear_arith)
        requires
            (0 <= y1 <= y2) || (y2 <= y1 <= 0),
    ;
}

/// The end of an occluded ray is the least of all candidates: it lies no
/// farther from the start than the point at which any absorber strikes the
/// ray as it was before the pass.
pub proof fn lemma_no_farther_than_any(ray: RayView, disks: Seq<CircleView>, j: int)
    requires
        0 <= j < disks.len(),
        occlusion_spec(disks[j], ray) is Some,
    ensures
        ray_length_squared(settle(ray, disks)) <= ray_length_squared(cut(ray, disks))
            <= length_squared(ray.start, occlusion_spec(disks[j], ray).unwrap()),
{
    lemma_settle_keeps(ray, disks);
    lemma_nearest(ray, disks);
    lemma_strike_range(disks[j], ray);
    let k = nearest(ray, disks).unwrap();
    let w = choose|i: int| 0 <= i < disks.len() && strike(#[trigger] disks[i], ray) == Some(k);
    lemma_strike_range(disks[w], ray);
    lemma_point_monotone(ray, k, strike(disks[j], ray).unwrap());
}

/// The point of a cut is the point of the ray at the parameter of the
/// nearest strike, rounded to the unit: on each axis it lies within half a
/// unit of the point of the old segment at that parameter.
pub proof fn lemma_cut_on_segment(ray: RayView, disks: Seq<CircleView>)
    requires
        nearest(ray, disks) is Some,
    ensures
        ({
            let a = ray_length_squared(ray);
            let k = nearest(ray, disks).unwrap();
            let end = cut(ray, disks).end;
            &&& 0 < a
            &&& 0 <= k <= a
            &&& -a < 2 * (a * (end.0 - ray.start.0) - ray.direction().0 * k) <= a
            &&& -a < 2 * (a * (end.1 - ray.start.1) - ray.direction().1 * k) <= a
        }),
{
    let a = ray_length_squared(ray);
    let k = nearest(ray, disks).unwrap();
    let dx = ray.direction().0;
    let dy = ray.direction().1;
    lemma_nearest(ray, disks);
    let w = choose|j: int| 0 <= j < disks.len() && strike(#[trigger] disks[j], ray) == Some(k);
    lemma_strike_range(disks[w], ray);
    let hx = round_div(dx * k, a);
    let hy = round_div(dy * k, a);
    assert(-a < 2 * (a * hx - dx * k) <= a) by (nonlinear_arith)
        requires
            a > 0,
            hx == (2 * (dx * k) + a) / (2 * a),
    ;
    assert(-a < 2 * (a * hy - dy * k) <= a) by (nonlinear_arith)
        requires
            a > 0,
            hy == (2 * (dy * k) + a) / (2 * a),
    ;
}

/// An occluded ray enters no absorber before its end: whichever absorber
/// strikes it strikes it at its end. An occluded ray that starts outside an
/// absorber thus misses the absorber altogether, or ends on its boundary.
pub proof fn lemma_settled_clear(ray: RayView, disks: Seq<CircleView>, j: int)
    requires
        0 <= j < disks.len(),
    ensures
        ({
            let settled = settle(ray, disks);
            &&& occlusion_spec(disks[j], settled) is None || occlusion_spec(disks[j], settled)
                == Some(settled.end)
            &&& quadratic(disks[j], settled).c > 0 && settled.direction() != (0int, 0int)
                ==> quadratic(disks[j], settled).misses() || occlusion_spec(disks[j], settled)
                == Some(settled.end)
        }),
{
    let settled = settle(ray, disks);
    lemma_settle_fixed(ray, disks);
    lemma_nearest(settled, disks);
    if quadratic(disks[j], settled).c > 0 && settled.direction() != (0int, 0int) {
        lemma_miss_iff(disks[j], settled);
    }
    if let Some(kj) = strike(disks[j], settled) {
        let a = ray_length_squared(settled);
        let dx = settled.direction().0;
        let dy = settled.direction().1;
        let k = nearest(settled, disks).unwrap();
        let w = choose|i: int|
            0 <= i < disks.len() && strike(#[trigger] disks[i], settled) == Some(k);
        lemma_strike_range(disks[w], settled);
        lemma_strike_range(disks[j], settled);
        assert(cut(settled, disks).end == settled.end);
        assert(round_div(dx * k, a) == dx && round_div(dy * k, a) == dy);
        lemma_round_div_between(dx, kj, a);
        lemma_round_div_between(dy, kj, a);
        if dx >= 0 {
            assert(dx * k <= dx * kj) by (nonlinear_arith)
                requires
                    dx >= 0,
                    k <= kj,
            ;
            lemma_round_div_monotone(dx * k, dx * kj, a);
        } else {
            assert(dx * kj <= dx * k) by (nonlinear_arith)
                requires
                    dx < 0,
                    k <= kj,
            ;
            lemma_round_div_monotone(dx * kj, dx * k, a);
        }
        if dy >= 0 {
            assert(dy * k <= dy * kj) by (nonlinear_arith)
                requires
                    dy >= 0,
                    k <= kj,
            ;
            lemma_round_div_monotone(dy * k, dy * kj, a);
        } else {
            assert(dy * kj <= dy * k) by (nonlinear_arith)
                requires
                    dy < 0,
                    k <= kj,
            ;
            lemma_round_div_monotone(dy * kj, dy * k, a);
        }
        assert(point_at(settled, kj, a) == settled.end);
    }
}

/// The point `p` lies on the boundary of `disk`, but for the rounding of
/// its coordinates: its squared distance from the centre is no more than
/// four radii below the squared radius and no more than two radii above.
pub open spec fn on_boundary(disk: CircleView, p: (int, int)) -> bool {
    -4 * disk.radius <= length_squared((disk.x, disk.y), p) - disk.radius * disk.radius <= 2
        * disk.radius
}

/// An occluded ray ends where it ended before the pass, or on the boundary
/// of an absorber.
pub proof fn lemma_settled_end(ray: RayView, disks: Seq<CircleView>)
    requires
        forall|j: int| 0 <= j < disks.len() ==> (#[trigger] disks[j]).radius >= 0,
    ensures
        settle(ray, disks).end == ray.end || exists|j: int|
            0 <= j < disks.len() && on_boundary(#[trigger] disks[j], settle(ray, disks).end),
    decreases ray_length_squared(ray),
{
    let next = cut(ray, disks);
    if 0 <= ray_length_squared(next) < ray_length_squared(ray) {
        lemma_settled_end(next, disks);
        if settle(next, disks).end == next.end {
            lemma_nearest(ray, disks);
            let k = nearest(ray, disks).unwrap();
            let w = choose|i: int|
                0 <= i < disks.len() && strike(#[trigger] disks[i], ray) == Some(k);
            lemma_hit_on_boundary(disks[w], ray);
            assert(on_boundary(disks[w], settle(ray, disks).end));
        }
    }
}

/// The scene in which every emitter has had its rays settled against
/// `disks`.
pub open spec fn occluded_by(objects: Seq<ObjectView>, disks: Seq<CircleView>) -> Seq<ObjectView> {
    Seq::new(objects.len(), |i: int| occluded(objects[i], disks))
}

/// Cutting rays leaves the absorbers of a scene as they are.
pub proof fn lemma_pass_keeps_absorbers(objects: Seq<ObjectView>, disks: Seq<CircleView>)
    ensures
        absorber_disks(occluded_by(objects, disks)) == absorber_disks(objects),
    decreases objects.len(),
{
    if objects.len() > 0 {
        lemma_pass_keeps_absorbers(objects.drop_last(), disks);
        assert(occluded_by(objects, disks).drop_last() =~= occluded_by(objects.drop_last(), disks));
    }
}

/// What the occlusion pass leaves alone: the number and order of the
/// objects, every object that is no emitter, and of every emitter the
/// circle, the pattern, the number of rays and the start, thickness and
/// colour of each ray. No ray grows longer, and every ray ends between its
/// start and its old end on each axis.
pub proof fn lemma_pass_frame(objects: Seq<ObjectView>, i: int)
    requires
        0 <= i < objects.len(),
    ensures
        occluded_scene(objects).len() == objects.len(),
        !(objects[i] is Emitter) ==> occluded_scene(objects)[i] == objects[i],
        objects[i] matches ObjectView::Emitter(e) ==> {
            &&& occluded_scene(objects)[i] matches ObjectView::Emitter(cut)
            &&& cut.base == e.base
            &&& cut.beam == e.beam
            &&& cut.rays.len() == e.rays.len()
            &&& forall|k: int|
                0 <= k < e.rays.len() ==> {
                    &&& (#[trigger] cut.rays[k]).start == e.rays[k].start
                    &&& cut.rays[k].thickness == e.rays[k].thickness
                    &&& cut.rays[k].color == e.rays[k].color
                    &&& ray_length_squared(cut.rays[k]) <= ray_length_squared(e.rays[k])
                    &&& between(e.rays[k].start.0, cut.rays[k].end.0, e.rays[k].end.0)
                    &&& between(e.rays[k].start.1, cut.rays[k].end.1, e.rays[k].end.1)
                }
        },
        absorber_disks(occluded_scene(objects)) == absorber_disks(objects),
{
    let disks = absorber_disks(objects);
    lemma_pass_keeps_absorbers(objects, disks);
    assert(occluded_scene(objects) =~= occluded_by(objects, disks));
    if let ObjectView::Emitter(e) = objects[i] {
        assert forall|k: int| 0 <= k < e.rays.len() implies {
            &&& (#[trigger] settle_rays(e.rays, disks)[k]).start == e.rays[k].start
            &&& settle_rays(e.rays, disks)[k].thickness == e.rays[k].thickness
            &&& settle_rays(e.rays, disks)[k].color == e.rays[k].color
            &&& ray_length_squared(settle_rays(e.rays, disks)[k]) <= ray_length_squared(e.rays[k])
            &&& between(e.rays[k].start.0, settle_rays(e.rays, disks)[k].end.0, e.rays[k].end.0)
            &&& between(e.rays[k].start.1, settle_rays(e.rays, disks)[k].end.1, e.rays[k].end.1)
        } by {
            lemma_settle_keeps(e.rays[k], disks);
        }
    }
}

/// A ray that ends exactly on the boundary of a disk, where it enters or
/// leaves the disk, is struck at its end, at the parameter 1.
pub proof fn lemma_struck_at_end(disk: CircleView, ray: RayView)
    requires
        quadratic(disk, ray).ends_on_boundary(),
    ensures
        occlusion_spec(disk, ray) == Some(ray.end),
        strike(disk, ray) == Some(ray_length_squared(ray)),
{
    let q = quadratic(disk, ray);
    let a = q.a;
    let b = q.b;
    let c = q.c;
    let d = q.discriminant();
    let dx = ray.direction().0;
    let dy = ray.direction().1;
    let h = dx * (ray.start.0 - disk.x) + dy * (ray.start.1 - disk.y);
    assert(b == 2 * h);
    let ac = a * c;
    assert(d == b * b - 4 * ac) by (nonlinear_arith)
        requires
            d == b * b - 4 * a * c,
            ac == a * c,
    ;
    assert(ac == -(a * a) - a * b) by (nonlinear_arith)
        requires
            ac == a * c,
            c == -a - b,
    ;
    assert(d == (b + 2 * a) * (b + 2 * a)) by (nonlinear_arith)
        requires
            d == b * b - 4 * ac,
            ac == -(a * a) - a * b,
    ;
    assert((b + 2 * a) * (b + 2 * a) == 4 * ((h + a) * (h + a))) by (nonlinear_arith)
        requires
            b == 2 * h,
    ;
    assert(d / 4 == (h + a) * (h + a));
    assert((-b - 2 * a) * (-b - 2 * a) == (b + 2 * a) * (b + 2 * a)) by (nonlinear_arith);
    assert((-b) * (-b) == b * b) by (nonlinear_arith);
    assert((ac > 0) == (c > 0) && (ac < 0) == (c < 0)) by (nonlinear_arith)
        requires
            a > 0,
            ac == a * c,
    ;
    let root = if h + a <= 0 {
        -(h + a)
    } else {
        h + a
    };
    assert(is_sqrt_floor(d / 4, root)) by (nonlinear_arith)
        requires
            d / 4 == (h + a) * (h + a),
            root == (if h + a <= 0 {
                -(h + a)
            } else {
                h + a
            }),
    ;
    lemma_sqrt_floor_is(d / 4, root);
    assert(q.solvable());
    if c > 0 {
        assert(q.near_in_range());
        assert(q.numerator(Root::Near) == a);
    } else {
        assert(!q.near_in_range());
        assert(q.far_in_range());
        assert(q.numerator(Root::Far) == a);
    }
    lemma_round_div_between(dx, a, a);
    lemma_round_div_between(dy, a, a);
}

/// Rays are cut at absorbers only: the occlusion pass leaves a scene
/// without absorbers as it is, whatever circles and emitters it holds.
pub proof fn lemma_only_absorbers_cut(objects: Seq<ObjectView>)
    requires
        forall|i: int| 0 <= i < objects.len() ==> !((#[trigger] objects[i]) is Absorber),
    ensures
        occluded_scene(objects) == objects,
{
    lemma_no_absorber_disks(objects);
    let disks = absorber_disks(objects);
    assert forall|i: int| 0 <= i < objects.len() implies occluded(objects[i], disks)
        == objects[i] by {
        if let ObjectView::Emitter(e) = objects[i] {
            assert forall|k: int| 0 <= k < e.rays.len() implies settle(e.rays[k], disks)
                == e.rays[k] by {
                assert(nearest(e.rays[k], disks) is None);
                assert(cut(e.rays[k], disks) == e.rays[k]);
            }
            assert(settle_rays(e.rays, disks) =~= e.rays);
        }
    }
    assert(occluded_scene(objects) =~= objects);
}

/// A scene without absorbers has no absorber disks.
proof fn lemma_no_absorber_disks(objects: Seq<ObjectView>)
    requires
        forall|i: int| 0 <= i < objects.len() ==> !((#[trigger] objects[i]) is Absorber),
    ensures
        absorber_disks(objects).len() == 0,
    decreases objects.len(),
{
    if objects.len() > 0 {
        assert(!(objects[objects.len() - 1] is Absorber));
        assert forall|i: int| 0 <= i < objects.drop_last().len() implies !((
        #[trigger] objects.drop_last()[i]) is Absorber) by {
            assert(objects.drop_last()[i] == objects[i]);
        }
        lemma_no_absorber_disks(objects.drop_last());
    }
}

/// A second occlusion pass, with nothing changed in between, leaves every
/// ray as the first pass left it: the first pass leaves every ray settled.
pub proof fn lemma_occlusion_idempotent(objects: Seq<ObjectView>)
    ensures
        occluded_scene(occluded_scene(objects)) == occluded_scene(objects),
{
    let once = occluded_scene(objects);
    let disks = absorber_disks(objects);
    assert(once.len() == objects.len());
    assert(absorber_disks(once) == disks) by {
        lemma_pass_keeps_absorbers(objects, disks);
        assert(once =~= occluded_by(objects, disks));
    }
    assert forall|i: int| 0 <= i < once.len() implies occluded(once[i], disks) == once[i] by {
        if let ObjectView::Emitter(e) = objects[i] {
            let cut_rays = settle_rays(e.rays, disks);
            assert forall|k: int| 0 <= k < cut_rays.len() implies settle(cut_rays[k], disks)
                == cut_rays[k] by {
                lemma_settle_fixed(e.rays[k], disks);
            }
            assert(settle_rays(cut_rays, disks) =~= cut_rays);
        }
    }
    assert(occluded_scene(once) =~= once);
}

} // verus!
