//! Evenly spaced values, and the scene-wide regeneration of rays.

use vstd::prelude::*;
use crate::fixed::floor_div;
use crate::globals::{Extent, OBJC_MAX_OBJ_COUNT};
use crate::objects::behavior::{ObjectView, RaytracerObjects};
use crate::objects::occlusion::{
    absorber_disks, check_for_occlusion, lemma_pass_frame, occluded_scene,
};
use crate::scene::{Scene, SceneError};

verus! {

/// The `i`-th of `n` values spaced evenly from `x1` to `x2`, both included.
/// A value that falls between two units is rounded down.
pub open spec fn linspace_point(x1: int, x2: int, n: int, i: int) -> int {
    x1 + (i * (x2 - x1)) / (n - 1)
}

/// Every value of a linear spacing lies between its two ends, the first
/// value is the first end and the last value is the last end.
pub proof fn lemma_linspace_point_bounds(x1: int, x2: int, n: int, i: int)
    requires
        n >= 2,
        0 <= i < n,
    ensures
        x1 <= x2 ==> x1 <= linspace_point(x1, x2, n, i) <= x2,
        x2 <= x1 ==> x2 <= linspace_point(x1, x2, n, i) <= x1,
        linspace_point(x1, x2, n, 0) == x1,
        linspace_point(x1, x2, n, n - 1) == x2,
{
    let m = n - 1;
    let d = x2 - x1;
    assert((0 * d) / m == 0) by (nonlinear_arith)
        requires
            m > 0,
    ;
    assert((m * d) / m == d) by (nonlinear_arith)
        requires
            m > 0,
    ;
    if d >= 0 {
        assert(0 <= (i * d) / m <= d) by (nonlinear_arith)
            requires
                m > 0,
                0 <= i <= m,
                d >= 0,
        ;
    } else {
        assert(d <= (i * d) / m <= 0) by (nonlinear_arith)
            requires
                m > 0,
                0 <= i <= m,
                d < 0,
        ;
    }
}

/// The values of a linear spacing never step backwards when `x1 <= x2`, and
/// two neighbours differ by the exact step rounded down or up.
pub proof fn lemma_linspace_step(x1: int, x2: int, n: int, i: int)
    requires
        n >= 2,
        0 <= i < n - 1,
    ensures
        (x2 - x1) / (n - 1) <= linspace_point(x1, x2, n, i + 1) - linspace_point(x1, x2, n, i)
            <= (x2 - x1) / (n - 1) + 1,
{
    let m = n - 1;
    let d = x2 - x1;
    let q = d / m;
    let r = d % m;
    assert(d == q * m + r && 0 <= r < m) by (nonlinear_arith)
        requires
            m > 0,
            q == d / m,
            r == d % m,
    ;
    assert((i * d) / m == i * q + (i * r) / m) by (nonlinear_arith)
        requires
            m > 0,
            d == q * m + r,
    ;
    assert(((i + 1) * d) / m == (i + 1) * q + ((i + 1) * r) / m) by (nonlinear_arith)
        requires
            m > 0,
            d == q * m + r,
    ;
    assert(0 <= ((i + 1) * r) / m - (i * r) / m <= 1) by (nonlinear_arith)
        requires
            m > 0,
            0 <= r < m,
            0 <= i,
    ;
    assert((i + 1) * q - i * q == q) by (nonlinear_arith);
}

/// Lists `sample_size` values spaced evenly from `x1` to `x2`, both
/// included. There is no such list of fewer than two values.
pub fn linspace(x1: i64, x2: i64, sample_size: i32) -> (r: Option<Vec<i64>>)
    ensures
        r is None <==> sample_size <= 1,
        r matches Some(points) ==> {
            &&& points.len() == sample_size
            &&& forall|i: int|
                0 <= i < sample_size ==> points[i] as int == #[trigger] linspace_point(
                    x1 as int,
                    x2 as int,
                    sample_size as int,
                    i,
                )
        },
{
    if sample_size <= 1 {
        return None;
    }
    let mut points: Vec<i64> = Vec::new();
    let diff: i128 = x2 as i128 - x1 as i128;
    let mut index: i32 = 0;
    while index < sample_size
        invariant
            sample_size >= 2,
            0 <= index <= sample_size,
            diff == x2 - x1,
            points.len() == index,
            forall|j: int|
                0 <= j < index ==> points[j] as int == #[trigger] linspace_point(
                    x1 as int,
                    x2 as int,
                    sample_size as int,
                    j,
                ),
        decreases sample_size - index,
    {
        assert(-0x8000_0000 * 0x1_0000_0000_0000_0000 <= index * diff <= 0x8000_0000
            * 0x1_0000_0000_0000_0000) by (nonlinear_arith)
            requires
                0 <= index <= 0x8000_0000,
                -0x1_0000_0000_0000_0000 <= diff <= 0x1_0000_0000_0000_0000,
        ;
        let step: i128 = floor_div((index as i128) * diff, (sample_size - 1) as i128);
        proof {
            lemma_linspace_point_bounds(x1 as int, x2 as int, sample_size as int, index as int);
        }
        let point: i64 = (x1 as i128 + step) as i64;
        points.push(point);
        index = index + 1;
    }
    Some(points)
}


/// The object after its rays have been cast anew: an emitter casts as many
/// rays as it has, or the default number if it has none; any other object
/// stays as it is.
pub open spec fn regenerated(object: ObjectView, extent: Extent) -> ObjectView {
    match object {
        ObjectView::Emitter(e) => ObjectView::Emitter(e.recast(e.cast_count(), extent)),
        other => other,
    }
}

/// The scene after every emitter has cast its rays anew.
pub open spec fn regenerated_scene(objects: Seq<ObjectView>, extent: Extent) -> Seq<ObjectView> {
    Seq::new(objects.len(), |i: int| regenerated(objects[i], extent))
}

/// Casts the rays of every emitter of the scene anew, at full length. The
/// canvas is at most 8192 pixels wide and high.
pub fn init_all_rays(scene: &mut Scene, extent: &Extent)
    requires
        old(scene).wf(),
        extent.wf(),
    ensures
        final(scene)@ == regenerated_scene(old(scene)@, *extent),
        final(scene).wf(),
{
    let count = scene.objects.len();
    let mut index: usize = 0;
    assert forall|j: int| 0 <= j < count implies (#[trigger] scene.objects[j]).wf() by {
        assert(scene@[j].wf());
    }
    while index < count
        invariant
            0 <= index <= count,
            extent.wf(),
            scene.objects.len() == count,
            count == old(scene)@.len(),
            count <= OBJC_MAX_OBJ_COUNT,
            forall|j: int|
                0 <= j < index ==> (#[trigger] scene.objects[j])@ == regenerated(
                    old(scene)@[j],
                    *extent,
                ),
            forall|j: int| index <= j < count ==> (#[trigger] scene.objects[j])@ == old(scene)@[j],
            forall|j: int| 0 <= j < count ==> (#[trigger] scene.objects[j]).wf(),
        decreases count - index,
    {
        match &mut scene.objects[index] {
            RaytracerObjects::Emitters(emitter) => {
                let ray_count = emitter.cast_count();
                emitter.recast(ray_count, extent);
            },
            _ => {},
        }
        index = index + 1;
    }
    assert(scene@ =~= regenerated_scene(old(scene)@, *extent));
}

/// Appends `new_object` to the scene, unless the scene is full.
pub fn add_object_to_collection(scene: &mut Scene, new_object: RaytracerObjects) -> (r: Result<
    (),
    SceneError,
>)
    requires
        old(scene).wf(),
        new_object.wf(),
    ensures
        final(scene).wf(),
        r is Ok <==> old(scene)@.len() < OBJC_MAX_OBJ_COUNT,
        r is Ok ==> final(scene)@ == old(scene)@.push(new_object@),
        r matches Err(e) ==> e == SceneError::CapacityExceeded && final(scene)@ == old(scene)@,
{
    if scene.objects.len() >= OBJC_MAX_OBJ_COUNT {
        return Err(SceneError::CapacityExceeded);
    }
    scene.objects.push(new_object);
    assert(scene@ =~= old(scene)@.push(new_object@));
    Ok(())
}


/// The scene after a recomputation: every emitter has cast its rays anew,
/// and every ray has then been cut at the absorbers.
pub open spec fn recomputed(objects: Seq<ObjectView>, extent: Extent) -> Seq<ObjectView> {
    occluded_scene(regenerated_scene(objects, extent))
}

/// Recomputes the rays of the scene after a change: casts the rays of every
/// emitter anew, then cuts them at the absorbers.
pub fn recompute(scene: &mut Scene, extent: &Extent)
    requires
        old(scene).wf(),
        extent.wf(),
    ensures
        final(scene)@ == recomputed(old(scene)@, *extent),
        final(scene).wf(),
{
    init_all_rays(scene, extent);
    check_for_occlusion(scene);
}

/// Recomputing twice gives what recomputing once gives: a recomputation
/// starts from the emitters' circles, patterns and numbers of rays, and
/// leaves all three as they are.
pub proof fn lemma_recompute_idempotent(objects: Seq<ObjectView>, extent: Extent)
    requires
        forall|i: int| 0 <= i < objects.len() ==> (#[trigger] objects[i]).wf(),
        extent.wf(),
    ensures
        recomputed(recomputed(objects, extent), extent) == recomputed(objects, extent),
{
    let cast = regenerated_scene(objects, extent);
    let once = occluded_scene(cast);
    assert forall|i: int| 0 <= i < objects.len() implies regenerated(once[i], extent)
        == cast[i] by {
        lemma_pass_frame(cast, i);
        assert(objects[i].wf());
    }
    assert(regenerated_scene(once, extent) =~= cast);
}

} // verus!
