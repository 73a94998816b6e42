//! The actions of the user, and what each of them does to the scene.
//!
//! An action changes one object, or adds or removes one; the rays of the
//! whole scene are then recomputed. An action that is refused, or that finds
//! no object to act on, leaves the scene exactly as it is.

use vstd::prelude::*;
use crate::fixed::{ANGLE_LIMIT, POS_LIMIT, RADIUS_LIMIT, RAY_LIMIT, within};
use crate::globals::{
    Extent, KEYB_EMM_SEC_COLL_WIDTH_DELTA, KEYB_EMM_SEC_SPOT_ANGLE_DELTA, OBJC_MAX_OBJ_COUNT,
    OBJD_COLLIMATED_BEAM_DIAMETER, OBJD_COLLIMATED_ORIENTATION, OBJD_SPOTLIGHT_BEAM_ANGLE,
    OBJD_SPOTLIGHT_ORIENTATION,
};
use crate::helpers::action_utils::{
    lemma_object_at, object_at, object_at_cursor_index, remove_object_at_index,
};
use crate::helpers::object_utils::{recompute, recomputed};
use crate::objects::behavior::{Movable, ObjectView, RaytracerObjects, VariableSize};
use crate::objects::emitters::{
    BeamChange, BeamView, Emitters, RayCountChange, VariableRays, beam_outcome,
    ray_count_outcome,
};
use crate::scene::{Scene, SceneError};
use crate::user_input::add_to_scene_actions::{
    add_object_to_scene, default_circle, default_emitter, lemma_new_object_kinds, new_object,
};
use crate::user_input::emitter_actions::{
    object_change_orientation, object_change_size, resized_object, turned_object,
};

verus! {

/// A kind of object that the user can create.
#[derive(Clone, Copy, Debug, PartialEq, Eq)]
pub enum ObjectKind {
    /// A plain circle.
    Circle,
    /// An isotropic emitter.
    EmitterIsotropic,
    /// A collimated emitter.
    EmitterCollimated,
    /// A spotlight.
    EmitterSpotlight,
    /// A perfect absorber.
    AbsorberPerfect,
}

impl ObjectKind {
    /// The name by which `add_object_to_scene` knows the kind.
    pub open spec fn name_spec(self) -> Seq<char> {
        match self {
            ObjectKind::Circle => "circle_none"@,
            ObjectKind::EmitterIsotropic => "emitter_isotropic"@,
            ObjectKind::EmitterCollimated => "emitter_collimated"@,
            ObjectKind::EmitterSpotlight => "emitter_spotlight"@,
            ObjectKind::AbsorberPerfect => "absorber_perfect"@,
        }
    }

    /// The object of this kind that is created at `(x, y)`: a circle of
    /// the default radius and colour, and for an emitter the default beam
    /// and the default number of rays.
    pub open spec fn object(self, x: int, y: int, extent: Extent) -> ObjectView {
        match self {
            ObjectKind::Circle => ObjectView::Circle(default_circle(x, y)),
            ObjectKind::EmitterIsotropic => default_emitter(x, y, BeamView::Isotropic, extent),
            ObjectKind::EmitterCollimated => default_emitter(
                x,
                y,
                BeamView::Collimated {
                    orientation: OBJD_COLLIMATED_ORIENTATION as int,
                    diameter: OBJD_COLLIMATED_BEAM_DIAMETER as int,
                },
                extent,
            ),
            ObjectKind::EmitterSpotlight => default_emitter(
                x,
                y,
                BeamView::Spotlight {
                    orientation: OBJD_SPOTLIGHT_ORIENTATION as int,
                    angle: OBJD_SPOTLIGHT_BEAM_ANGLE as int,
                },
                extent,
            ),
            ObjectKind::AbsorberPerfect => ObjectView::Absorber(default_circle(x, y)),
        }
    }

    /// The name by which `add_object_to_scene` knows the kind.
    pub fn name(self) -> (r: &'static str)
        ensures
            r@ == self.name_spec(),
    {
        match self {
            ObjectKind::Circle => "circle_none",
            ObjectKind::EmitterIsotropic => "emitter_isotropic",
            ObjectKind::EmitterCollimated => "emitter_collimated",
            ObjectKind::EmitterSpotlight => "emitter_spotlight",
            ObjectKind::AbsorberPerfect => "absorber_perfect",
        }
    }
}

/// Something that the user asks for while the pointer is at some place.
#[derive(Clone, Copy, Debug, PartialEq, Eq)]
pub enum Action {
    /// Create an object of the given kind at the pointer.
    Create(ObjectKind),
    /// Change the number of rays of the emitter under the pointer.
    ChangeRayCount(i32),
    /// Change the beam of the emitter under the pointer: the diameter of a
    /// collimated beam or the opening angle of a spotlight.
    ChangeBeam(i64),
    /// Change the radius of the object under the pointer.
    Resize(i64),
    /// Turn the object under the pointer.
    Turn(i64),
    /// Delete the object under the pointer.
    Delete,
}

/// What became of an action.
#[derive(Clone, Copy, Debug, PartialEq, Eq)]
pub enum Report {
    /// The object has been created.
    Created,
    /// The scene is full: nothing has been created.
    CapacityExceeded,
    /// The pointer lies too far from the origin: nothing has been created.
    OutOfBounds,
    /// The request to change the number of rays has been decided.
    RayCount(RayCountChange),
    /// The emitter would have more rays than fit: nothing has changed.
    RayLimit,
    /// The request to change the beam has been decided.
    Beam(BeamChange),
    /// The object has been resized.
    Resized,
    /// The object would become larger than `RADIUS_LIMIT`, which is 16384
    /// pixels: nothing has changed.
    SizeLimit,
    /// The object has been turned; an object without an orientation is as
    /// it was.
    Turned,
    /// The angle is too large to turn by: nothing has changed.
    AngleLimit,
    /// The object has been deleted.
    Deleted,
    /// There is no object under the pointer, or none of the kind that the
    /// action is for: nothing has changed.
    NothingThere,
}

/// The scene and the report after a request to create an object of `kind`
/// at `(x, y)`.
pub open spec fn created(
    objects: Seq<ObjectView>,
    kind: ObjectKind,
    x: int,
    y: int,
    extent: Extent,
) -> (Seq<ObjectView>, Report) {
    if objects.len() >= OBJC_MAX_OBJ_COUNT {
        (objects, Report::CapacityExceeded)
    } else if !(within(x, POS_LIMIT as int) && within(y, POS_LIMIT as int)) {
        (objects, Report::OutOfBounds)
    } else {
        (objects.push(kind.object(x, y, extent)), Report::Created)
    }
}

/// The scene and the report after a request to change the number of rays
/// of the object at `under` by `delta`.
pub open spec fn ray_count_changed(
    objects: Seq<ObjectView>,
    under: Option<int>,
    delta: int,
    extent: Extent,
) -> (Seq<ObjectView>, Report) {
    match under {
        Some(i) => match objects[i] {
            ObjectView::Emitter(e) => {
                if e.rays.len() + delta > RAY_LIMIT {
                    (objects, Report::RayLimit)
                } else if ray_count_outcome(e.rays.len() as int, delta) is RejectedBelowMinimum {
                    (objects, Report::RayCount(RayCountChange::RejectedBelowMinimum))
                } else {
                    (
                        objects.update(
                            i,
                            ObjectView::Emitter(e.recast(e.rays.len() + delta, extent)),
                        ),
                        Report::RayCount(ray_count_outcome(e.rays.len() as int, delta)),
                    )
                }
            },
            _ => (objects, Report::NothingThere),
        },
        None => (objects, Report::NothingThere),
    }
}

/// The scene and the report after a request to change the beam of the
/// object at `under` by `delta`.
pub open spec fn beam_changed(
    objects: Seq<ObjectView>,
    under: Option<int>,
    delta: int,
    extent: Extent,
) -> (Seq<ObjectView>, Report) {
    match under {
        Some(i) => match objects[i] {
            ObjectView::Emitter(e) => (
                objects.update(i, ObjectView::Emitter(e.beam_changed(delta, extent))),
                Report::Beam(beam_outcome(e.beam, delta)),
            ),
            _ => (objects, Report::NothingThere),
        },
        None => (objects, Report::NothingThere),
    }
}

/// The scene and the report after a request to resize the object at
/// `under` by `delta`.
pub open spec fn resized_scene(objects: Seq<ObjectView>, under: Option<int>, delta: int) -> (
    Seq<ObjectView>,
    Report,
) {
    match under {
        Some(i) => {
            if objects[i].base().radius + delta > RADIUS_LIMIT {
                (objects, Report::SizeLimit)
            } else {
                (objects.update(i, resized_object(objects[i], delta)), Report::Resized)
            }
        },
        None => (objects, Report::NothingThere),
    }
}

/// The scene and the report after a request to turn the object at `under`
/// by `delta`.
pub open spec fn turned_scene(
    objects: Seq<ObjectView>,
    under: Option<int>,
    delta: int,
    extent: Extent,
) -> (Seq<ObjectView>, Report) {
    match under {
        Some(i) => {
            if !within(delta, ANGLE_LIMIT as int) {
                (objects, Report::AngleLimit)
            } else {
                (objects.update(i, turned_object(objects[i], delta, extent)), Report::Turned)
            }
        },
        None => (objects, Report::NothingThere),
    }
}

/// The scene and the report after a request to delete the object at
/// `under`.
pub open spec fn deleted(objects: Seq<ObjectView>, under: Option<int>) -> (
    Seq<ObjectView>,
    Report,
) {
    match under {
        Some(i) => (objects.remove(i), Report::Deleted),
        None => (objects, Report::NothingThere),
    }
}

/// The scene and the report after `action` at the pointer `(x, y)`, before
/// the rays are recomputed.
pub open spec fn acted(
    objects: Seq<ObjectView>,
    action: Action,
    x: int,
    y: int,
    extent: Extent,
) -> (Seq<ObjectView>, Report) {
    let under = object_at(objects, x, y);
    match action {
        Action::Create(kind) => created(objects, kind, x, y, extent),
        Action::ChangeRayCount(delta) => ray_count_changed(objects, under, delta as int, extent),
        Action::ChangeBeam(delta) => beam_changed(objects, under, delta as int, extent),
        Action::Resize(delta) => resized_scene(objects, under, delta as int),
        Action::Turn(delta) => turned_scene(objects, under, delta as int, extent),
        Action::Delete => deleted(objects, under),
    }
}

impl Report {
    /// The action has changed the scene, so that the rays are recomputed.
    pub open spec fn changed_spec(self) -> bool {
        match self {
            Report::Created | Report::Resized | Report::Turned | Report::Deleted => true,
            Report::RayCount(change) => !(change is RejectedBelowMinimum),
            Report::Beam(change) => change is Applied,
            _ => false,
        }
    }

    /// Whether the action has changed the scene.
    pub fn changed(&self) -> (r: bool)
        ensures
            r == self.changed_spec(),
    {
        match self {
            Report::Created | Report::Resized | Report::Turned | Report::Deleted => true,
            Report::RayCount(change) => match change {
                RayCountChange::RejectedBelowMinimum => false,
                _ => true,
            },
            Report::Beam(change) => match change {
                BeamChange::Applied => true,
                _ => false,
            },
            _ => false,
        }
    }
}

/// The change of the beam that `steps` key presses ask of `object`: so
/// many steps of width for a collimated emitter, so many steps of angle for
/// a spotlight, and none for any other object.
pub open spec fn beam_step_of(object: ObjectView, steps: int) -> int {
    match object {
        ObjectView::Emitter(e) => match e.beam {
            BeamView::Isotropic => 0,
            BeamView::Collimated { .. } => steps * KEYB_EMM_SEC_COLL_WIDTH_DELTA,
            BeamView::Spotlight { .. } => steps * KEYB_EMM_SEC_SPOT_ANGLE_DELTA,
        },
        _ => 0,
    }
}

/// Finds the change of the beam that `steps` key presses ask of the object
/// under the pointer at `(mouse_x, mouse_y)`; a negative number of steps
/// narrows the beam. There are at most 65536 steps.
pub fn beam_step(scene: &Scene, mouse_x: i64, mouse_y: i64, steps: i64) -> (r: i64)
    requires
        scene.wf(),
        within(steps as int, 0x1_0000),
    ensures
        r == (match object_at(scene@, mouse_x as int, mouse_y as int) {
            Some(i) => beam_step_of(scene@[i], steps as int),
            None => 0,
        }),
{
    let index = match object_at_cursor_index(scene, mouse_x, mouse_y) {
        Some(index) => index,
        None => {
            return 0;
        },
    };
    match &scene.objects[index] {
        RaytracerObjects::Emitters(emitter) => match emitter {
            Emitters::EmitterIsotropic(_) => 0,
            Emitters::EmitterCollimated(_) => steps * KEYB_EMM_SEC_COLL_WIDTH_DELTA,
            Emitters::EmitterSpotlight(_) => steps * KEYB_EMM_SEC_SPOT_ANGLE_DELTA,
        },
        _ => 0,
    }
}

/// The name of a kind stands for the object of that kind.
pub proof fn lemma_names(kind: ObjectKind, x: int, y: int, extent: Extent)
    ensures
        new_object(kind.name_spec(), x, y, extent) == Some(kind.object(x, y, extent)),
{
    lemma_new_object_kinds(x, y, extent);
}

/// Carries out `action` with the pointer at `(mouse_x, mouse_y)` and, where
/// that changes the scene, recomputes the rays of the scene. A creation is
/// refused where the scene is full; every other action needs an object
/// under the pointer.
pub fn handle_action(
    scene: &mut Scene,
    action: Action,
    mouse_x: i64,
    mouse_y: i64,
    extent: &Extent,
) -> (report: Report)
    requires
        old(scene).wf(),
        extent.wf(),
    ensures
        final(scene).wf(),
        report == acted(old(scene)@, action, mouse_x as int, mouse_y as int, *extent).1,
        final(scene)@ == (if report.changed_spec() {
            recomputed(
                acted(old(scene)@, action, mouse_x as int, mouse_y as int, *extent).0,
                *extent,
            )
        } else {
            old(scene)@
        }),
{
    let report = apply_action(scene, action, mouse_x, mouse_y, extent);
    if report.changed() {
        recompute(scene, extent);
    }
    report
}

/// Carries out `action` with the pointer at `(mouse_x, mouse_y)`, without
/// recomputing the rays of the scene.
pub fn apply_action(
    scene: &mut Scene,
    action: Action,
    mouse_x: i64,
    mouse_y: i64,
    extent: &Extent,
) -> (report: Report)
    requires
        old(scene).wf(),
        extent.wf(),
    ensures
        final(scene).wf(),
        report == acted(old(scene)@, action, mouse_x as int, mouse_y as int, *extent).1,
        final(scene)@ == acted(old(scene)@, action, mouse_x as int, mouse_y as int, *extent).0,
{
    match action {
        Action::Create(kind) => create(scene, kind, mouse_x, mouse_y, extent),
        Action::ChangeRayCount(delta) => {
            let under = object_at_cursor_index(scene, mouse_x, mouse_y);
            change_ray_count(scene, under, delta, extent)
        },
        Action::ChangeBeam(delta) => {
            let under = object_at_cursor_index(scene, mouse_x, mouse_y);
            change_beam(scene, under, delta, extent)
        },
        Action::Resize(delta) => {
            let index = match object_at_cursor_index(scene, mouse_x, mouse_y) {
                Some(index) => index,
                None => {
                    return Report::NothingThere;
                },
            };
            assert(scene@[index as int].wf());
            if scene.objects[index].get_radius() as i128 + delta as i128 > RADIUS_LIMIT as i128 {
                return Report::SizeLimit;
            }
            object_change_size(scene, mouse_x, mouse_y, delta);
            Report::Resized
        },
        Action::Turn(delta) => {
            if object_at_cursor_index(scene, mouse_x, mouse_y).is_none() {
                return Report::NothingThere;
            }
            if !(-ANGLE_LIMIT <= delta && delta <= ANGLE_LIMIT) {
                return Report::AngleLimit;
            }
            object_change_orientation(scene, mouse_x, mouse_y, delta, extent);
            Report::Turned
        },
        Action::Delete => {
            match object_at_cursor_index(scene, mouse_x, mouse_y) {
                Some(index) => {
                    let removed = remove_object_at_index(scene, index);
                    Report::Deleted
                },
                None => Report::NothingThere,
            }
        },
    }
}

/// The index as contracts see it.
pub open spec fn index_view(index: Option<usize>) -> Option<int> {
    match index {
        Some(i) => Some(i as int),
        None => None,
    }
}

/// Creates an object of `kind` at `(x, y)`, where the scene has room and
/// the place is within bounds.
fn create(scene: &mut Scene, kind: ObjectKind, x: i64, y: i64, extent: &Extent) -> (report: Report)
    requires
        old(scene).wf(),
        extent.wf(),
    ensures
        final(scene).wf(),
        report == created(old(scene)@, kind, x as int, y as int, *extent).1,
        final(scene)@ == created(old(scene)@, kind, x as int, y as int, *extent).0,
{
    if !scene.has_room() {
        return Report::CapacityExceeded;
    }
    if !(-POS_LIMIT <= x && x <= POS_LIMIT && -POS_LIMIT <= y && y <= POS_LIMIT) {
        return Report::OutOfBounds;
    }
    proof {
        lemma_names(kind, x as int, y as int, *extent);
    }
    let added = add_object_to_scene(scene, kind.name(), x, y, extent);
    assert(added is Ok);
    Report::Created
}

/// Changes the number of rays of the emitter at `under` by `delta`.
fn change_ray_count(scene: &mut Scene, under: Option<usize>, delta: i32, extent: &Extent) -> (report:
    Report)
    requires
        old(scene).wf(),
        extent.wf(),
        under matches Some(i) ==> i < old(scene)@.len(),
    ensures
        final(scene).wf(),
        report == ray_count_changed(old(scene)@, index_view(under), delta as int, *extent).1,
        final(scene)@ == ray_count_changed(old(scene)@, index_view(under), delta as int, *extent).0,
{
    let index = match under {
        Some(index) => index,
        None => {
            return Report::NothingThere;
        },
    };
    assert(scene@[index as int].wf());
    match &scene.objects[index] {
        RaytracerObjects::Emitters(emitter) => {
            let rays = emitter.rays();
            assert(crate::objects::ray::rays_view(rays@).len() == rays.len());
            if rays.len() as i64 + delta as i64 > RAY_LIMIT as i64 {
                return Report::RayLimit;
            }
        },
        _ => {
            return Report::NothingThere;
        },
    }
    if let RaytracerObjects::Emitters(emitter) = &mut scene.objects[index] {
        let change = emitter.change_rays_count(delta, extent);
        proof {
            lemma_updated(old(scene), scene, index as int);
        }
        return Report::RayCount(change);
    }
    Report::NothingThere
}

/// Changes the beam of the emitter at `under` by `delta`.
fn change_beam(scene: &mut Scene, under: Option<usize>, delta: i64, extent: &Extent) -> (report:
    Report)
    requires
        old(scene).wf(),
        extent.wf(),
        under matches Some(i) ==> i < old(scene)@.len(),
    ensures
        final(scene).wf(),
        report == beam_changed(old(scene)@, index_view(under), delta as int, *extent).1,
        final(scene)@ == beam_changed(old(scene)@, index_view(under), delta as int, *extent).0,
{
    let index = match under {
        Some(index) => index,
        None => {
            return Report::NothingThere;
        },
    };
    assert(scene@[index as int].wf());
    if let RaytracerObjects::Emitters(_) = &scene.objects[index] {
    } else {
        return Report::NothingThere;
    }
    if let RaytracerObjects::Emitters(emitter) = &mut scene.objects[index] {
        let change = emitter.change_beam(delta, extent);
        proof {
            lemma_updated(old(scene), scene, index as int);
        }
        return Report::Beam(change);
    }
    Report::NothingThere
}

/// A scene in which one object has changed and stayed well formed is the
/// old scene updated at that index, and is well formed.
proof fn lemma_updated(before: &Scene, after: &Scene, index: int)
    requires
        before.wf(),
        0 <= index < before@.len(),
        after.objects@.len() == before.objects@.len(),
        forall|j: int|
            0 <= j < before@.len() && j != index ==> after.objects@[j] == before.objects@[j],
        after.objects@[index].wf(),
    ensures
        after@ == before@.update(index, after.objects@[index]@),
        after.wf(),
{
    assert(after@ =~= before@.update(index, after.objects@[index]@));
    assert forall|j: int| 0 <= j < after@.len() implies (#[trigger] after@[j]).wf() by {
        if j != index {
            assert(before@[j].wf());
        }
    }
}

/// Which object the user is dragging.
#[derive(Clone, Copy, Debug, PartialEq, Eq)]
pub struct DragState {
    /// The object that was under the pointer when the button was last seen
    /// pressed.
    pub index: Option<usize>,
    /// Whether an object is being dragged.
    pub moving: bool,
}

impl DragState {
    /// The state in which nothing is dragged.
    pub fn new() -> (r: DragState)
        ensures
            r.index is None,
            !r.moving,
    {
        DragState { index: None, moving: false }
    }

    /// The object that the state moves in a frame in which the pointer has
    /// moved to `(x, y)`: the object in hand, if it is still an object of
    /// the scene and the pointer is within `POS_LIMIT` of the origin.
    pub open spec fn target(self, pointer_moved: bool, count: int, x: int, y: int) -> Option<int> {
        if pointer_moved && self.moving && self.index is Some && self.index.unwrap() < count
            && within(x, POS_LIMIT as int) && within(y, POS_LIMIT as int) {
            Some(self.index.unwrap() as int)
        } else {
            None
        }
    }
}

/// The object moved to `(x, y)`; an emitter casts its rays anew from there.
pub open spec fn moved_object(object: ObjectView, x: int, y: int, extent: Extent) -> ObjectView {
    match object {
        ObjectView::Emitter(e) => ObjectView::Emitter(
            e.with_base(e.base.moved(x, y)).recast(e.cast_count(), extent),
        ),
        other => other.with_base(other.base().moved(x, y)),
    }
}

/// The scene after the state has moved its target, before the rays are
/// recomputed.
pub open spec fn dragged(
    objects: Seq<ObjectView>,
    target: Option<int>,
    x: int,
    y: int,
    extent: Extent,
) -> Seq<ObjectView> {
    match target {
        Some(i) => objects.update(i, moved_object(objects[i], x, y, extent)),
        None => objects,
    }
}

/// Follows the pointer for one frame, without recomputing the rays of the
/// scene. While the button is pressed over an object, that object is in
/// hand, and it moves to wherever the pointer moves. Returns whether an
/// object has moved.
pub fn drag_object(
    state: &mut DragState,
    scene: &mut Scene,
    button_down: bool,
    pointer_moved: bool,
    mouse_x: i64,
    mouse_y: i64,
    extent: &Extent,
) -> (moved: bool)
    requires
        old(scene).wf(),
        extent.wf(),
    ensures
        final(scene).wf(),
        index_view(final(state).index) == (if button_down {
            object_at(old(scene)@, mouse_x as int, mouse_y as int)
        } else {
            index_view(old(state).index)
        }),
        final(state).moving == (button_down && (old(state).moving || object_at(
            old(scene)@,
            mouse_x as int,
            mouse_y as int,
        ) is Some)),
        moved == final(state).target(
            pointer_moved,
            old(scene)@.len() as int,
            mouse_x as int,
            mouse_y as int,
        ) is Some,
        final(scene)@ == dragged(
            old(scene)@,
            final(state).target(
                pointer_moved,
                old(scene)@.len() as int,
                mouse_x as int,
                mouse_y as int,
            ),
            mouse_x as int,
            mouse_y as int,
            *extent,
        ),
{
    if button_down {
        state.index = object_at_cursor_index(scene, mouse_x, mouse_y);
        if state.index.is_some() {
            state.moving = true;
        }
    } else {
        state.moving = false;
    }
    if !(pointer_moved && state.moving) {
        return false;
    }
    let index = match state.index {
        Some(index) => index,
        None => {
            return false;
        },
    };
    if index >= scene.objects.len() {
        return false;
    }
    if !(-POS_LIMIT <= mouse_x && mouse_x <= POS_LIMIT && -POS_LIMIT <= mouse_y && mouse_y
        <= POS_LIMIT) {
        return false;
    }
    assert(scene@[index as int].wf());
    scene.objects[index].move_object(mouse_x, mouse_y, extent);
    proof {
        lemma_updated(old(scene), scene, index as int);
    }
    true
}

/// Follows the pointer for one frame, and recomputes the rays of the scene
/// where an object has moved. Returns whether an object has moved.
pub fn drag(
    state: &mut DragState,
    scene: &mut Scene,
    button_down: bool,
    pointer_moved: bool,
    mouse_x: i64,
    mouse_y: i64,
    extent: &Extent,
) -> (moved: bool)
    requires
        old(scene).wf(),
        extent.wf(),
    ensures
        final(scene).wf(),
        index_view(final(state).index) == (if button_down {
            object_at(old(scene)@, mouse_x as int, mouse_y as int)
        } else {
            index_view(old(state).index)
        }),
        final(state).moving == (button_down && (old(state).moving || object_at(
            old(scene)@,
            mouse_x as int,
            mouse_y as int,
        ) is Some)),
        moved == final(state).target(
            pointer_moved,
            old(scene)@.len() as int,
            mouse_x as int,
            mouse_y as int,
        ) is Some,
        final(scene)@ == (if moved {
            recomputed(
                dragged(
                    old(scene)@,
                    final(state).target(
                        pointer_moved,
                        old(scene)@.len() as int,
                        mouse_x as int,
                        mouse_y as int,
                    ),
                    mouse_x as int,
                    mouse_y as int,
                    *extent,
                ),
                *extent,
            )
        } else {
            old(scene)@
        }),
{
    let moved = drag_object(state, scene, button_down, pointer_moved, mouse_x, mouse_y, extent);
    if moved {
        recompute(scene, extent);
    }
    moved
}

} // verus!
