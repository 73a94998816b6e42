//! Resizing and turning the object under the pointer.

use vstd::prelude::*;
use crate::fixed::{ANGLE_LIMIT, RADIUS_LIMIT, within};
use crate::globals::Extent;
use crate::helpers::action_utils::{object_at, object_at_cursor_index};
use crate::objects::behavior::{ObjectView, RaytracerObjects, VariableSize, resized};
use crate::objects::emitters::{BeamView, VariableOrientation, wrapped};
use crate::scene::Scene;

verus! {

/// The object with `factor` added to its radius, within the bounds of its
/// kind.
pub open spec fn resized_object(object: ObjectView, factor: int) -> ObjectView {
    object.with_base(
        object.base().with_radius(resized(object.base().radius, factor, object.min_radius())),
    )
}

/// The object turned by `factor`: a collimated emitter or a spotlight gets
/// the new orientation, brought into `[0, FULL_TURN)`, and casts its rays
/// anew; any other object stays as it is.
pub open spec fn turned_object(object: ObjectView, factor: int, extent: Extent) -> ObjectView {
    match object {
        ObjectView::Emitter(e) => match e.beam {
            BeamView::Isotropic => object,
            BeamView::Collimated { orientation, .. } => ObjectView::Emitter(
                e.with_beam(e.beam.turned(wrapped(orientation + factor))).recast(
                    e.cast_count(),
                    extent,
                ),
            ),
            BeamView::Spotlight { orientation, .. } => ObjectView::Emitter(
                e.with_beam(e.beam.turned(wrapped(orientation + factor))).recast(
                    e.cast_count(),
                    extent,
                ),
            ),
        },
        other => other,
    }
}

/// The scene with the object at `index` resized by `factor`; without an
/// index, the scene as it is.
pub open spec fn resized_at(objects: Seq<ObjectView>, index: Option<int>, factor: int) -> Seq<
    ObjectView,
> {
    match index {
        Some(i) => objects.update(i, resized_object(objects[i], factor)),
        None => objects,
    }
}

/// The scene with the object at `index` turned by `factor`; without an
/// index, the scene as it is.
pub open spec fn turned_at(
    objects: Seq<ObjectView>,
    index: Option<int>,
    factor: int,
    extent: Extent,
) -> Seq<ObjectView> {
    match index {
        Some(i) => objects.update(i, turned_object(objects[i], factor, extent)),
        None => objects,
    }
}

/// Adds `change_factor` to the radius of the object under the pointer at
/// `(mouse_x, mouse_y)`; reducing stops at the smallest radius of the
/// object's kind. Without an object there, nothing changes. The new radius
/// is at most `RADIUS_LIMIT`, which is 16384 pixels.
pub fn object_change_size(scene: &mut Scene, mouse_x: i64, mouse_y: i64, change_factor: i64)
    requires
        old(scene).wf(),
        object_at(old(scene)@, mouse_x as int, mouse_y as int) matches Some(i) ==> old(
            scene,
        )@[i].base().radius + change_factor <= RADIUS_LIMIT,
    ensures
        final(scene).wf(),
        final(scene)@ == resized_at(
            old(scene)@,
            object_at(old(scene)@, mouse_x as int, mouse_y as int),
            change_factor as int,
        ),
{
    if let Some(object_index) = object_at_cursor_index(scene, mouse_x, mouse_y) {
        assert(scene@[object_index as int].wf());
        match &mut scene.objects[object_index] {
            RaytracerObjects::ObjectCircle(o) => o.change_radius(change_factor),
            RaytracerObjects::Absorbers(o) => o.change_radius(change_factor),
            RaytracerObjects::Emitters(o) => o.change_radius(change_factor),
        }
        assert(scene@ =~= old(scene)@.update(
            object_index as int,
            resized_object(old(scene)@[object_index as int], change_factor as int),
        ));
        assert forall|i: int| 0 <= i < scene@.len() implies (#[trigger] scene@[i]).wf() by {
            if i != object_index {
                assert(old(scene)@[i].wf());
            }
        }
    }
}

/// Turns the object under the pointer at `(mouse_x, mouse_y)` by
/// `change_factor`, if it is an emitter with an orientation. Without such an
/// object there, nothing changes. The angle lies within 65536 radians of
/// zero, and the canvas is at most 8192 pixels wide and high.
pub fn object_change_orientation(
    scene: &mut Scene,
    mouse_x: i64,
    mouse_y: i64,
    change_factor: i64,
    extent: &Extent,
)
    requires
        old(scene).wf(),
        within(change_factor as int, ANGLE_LIMIT as int),
        extent.wf(),
    ensures
        final(scene).wf(),
        final(scene)@ == turned_at(
            old(scene)@,
            object_at(old(scene)@, mouse_x as int, mouse_y as int),
            change_factor as int,
            *extent,
        ),
{
    if let Some(object_index) = object_at_cursor_index(scene, mouse_x, mouse_y) {
        assert(scene@[object_index as int].wf());
        match &mut scene.objects[object_index] {
            RaytracerObjects::Emitters(o) => o.change_orientation(change_factor, extent),
            _ => {},
        }
        assert(scene@ =~= old(scene)@.update(
            object_index as int,
            turned_object(old(scene)@[object_index as int], change_factor as int, *extent),
        ));
        assert forall|i: int| 0 <= i < scene@.len() implies (#[trigger] scene@[i]).wf() by {
            if i != object_index {
                assert(old(scene)@[i].wf());
            }
        }
    }
}

} // verus!
