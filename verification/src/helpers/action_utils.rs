//! Finding the object under the pointer, and removing objects.

use vstd::prelude::*;
use crate::globals::OBJC_MOUSE_EPSILON;
use crate::objects::behavior::{ObjectView, RaytracerObjects, VariableSize};
use crate::objects::emitters::{BeamView, Emitters};
use crate::scene::{Scene, SceneError};

verus! {

/// The distance between `a` and `b` on one axis.
pub open spec fn distance(a: int, b: int) -> int {
    if a < b {
        b - a
    } else {
        a - b
    }
}

/// The bounding square of `object`, widened by the pointer's tolerance,
/// contains the point `(x, y)`: on each axis the point lies closer to the
/// centre than the radius plus `OBJC_MOUSE_EPSILON`.
pub open spec fn covers(object: ObjectView, x: int, y: int) -> bool {
    &&& distance(x, object.base().x) < OBJC_MOUSE_EPSILON + object.base().radius
    &&& distance(y, object.base().y) < OBJC_MOUSE_EPSILON + object.base().radius
}

/// The object at `index` covers `(x, y)` and no earlier object does.
pub open spec fn first_covering(objects: Seq<ObjectView>, x: int, y: int, index: int) -> bool {
    &&& 0 <= index < objects.len()
    &&& covers(objects[index], x, y)
    &&& forall|j: int| 0 <= j < index ==> !covers(#[trigger] objects[j], x, y)
}

/// No object covers `(x, y)`.
pub open spec fn none_covering(objects: Seq<ObjectView>, x: int, y: int) -> bool {
    forall|j: int| 0 <= j < objects.len() ==> !covers(#[trigger] objects[j], x, y)
}

/// The index of the object under the point `(x, y)`: the earliest object
/// that covers the point, if any does.
pub open spec fn object_at(objects: Seq<ObjectView>, x: int, y: int) -> Option<int> {
    if exists|i: int| first_covering(objects, x, y, i) {
        Some(choose|i: int| first_covering(objects, x, y, i))
    } else {
        None
    }
}

/// Before an object that covers a point stands the first that does, or it
/// is the first itself.
proof fn lemma_first_exists(objects: Seq<ObjectView>, x: int, y: int, j: int)
    requires
        0 <= j < objects.len(),
        covers(objects[j], x, y),
    ensures
        exists|i: int| first_covering(objects, x, y, i),
    decreases j,
{
    if forall|i: int| 0 <= i < j ==> !covers(#[trigger] objects[i], x, y) {
        assert(first_covering(objects, x, y, j));
    } else {
        let i = choose|i: int| 0 <= i < j && covers(#[trigger] objects[i], x, y);
        lemma_first_exists(objects, x, y, i);
    }
}

/// The object under a point is the one object that covers the point and
/// has no object before it that does; where there is none under the point,
/// no object covers it.
pub proof fn lemma_object_at(objects: Seq<ObjectView>, x: int, y: int)
    ensures
        object_at(objects, x, y) matches Some(i) ==> first_covering(objects, x, y, i),
        object_at(objects, x, y) is None ==> none_covering(objects, x, y),
        forall|i: int| first_covering(objects, x, y, i) ==> object_at(objects, x, y) == Some(i),
{
    if object_at(objects, x, y) is None {
        assert forall|j: int| 0 <= j < objects.len() implies !covers(
            #[trigger] objects[j],
            x,
            y,
        ) by {
            if covers(objects[j], x, y) {
                lemma_first_exists(objects, x, y, j);
            }
        }
    }
    assert forall|i: int| first_covering(objects, x, y, i) implies object_at(objects, x, y)
        == Some(i) by {
        let c = choose|c: int| first_covering(objects, x, y, c);
        assert(first_covering(objects, x, y, c));
        if c < i {
            assert(!covers(objects[c], x, y));
        }
        if i < c {
            assert(!covers(objects[i], x, y));
        }
    }
}

/// Whether `object` covers the point `(x, y)`.
pub fn object_covers(object: &RaytracerObjects, x: i64, y: i64) -> (r: bool)
    requires
        object.wf(),
    ensures
        r == covers(object@, x as int, y as int),
{
    let base = object.base();
    let reach: i128 = OBJC_MOUSE_EPSILON as i128 + base.radius as i128;
    let dx: i128 = if x < base.pos_x {
        base.pos_x as i128 - x as i128
    } else {
        x as i128 - base.pos_x as i128
    };
    let dy: i128 = if y < base.pos_y {
        base.pos_y as i128 - y as i128
    } else {
        y as i128 - base.pos_y as i128
    };
    dx < reach && dy < reach
}

/// Removes the object at `index` and hands it back. Without such an object
/// the scene stays as it is.
pub fn remove_object_at_index(scene: &mut Scene, index: usize) -> (r: Result<
    RaytracerObjects,
    SceneError,
>)
    requires
        old(scene).wf(),
    ensures
        final(scene).wf(),
        r is Ok <==> index < old(scene)@.len(),
        r matches Ok(removed) ==> removed@ == old(scene)@[index as int] && final(scene)@ == old(
            scene,
        )@.remove(index as int),
        r matches Err(e) ==> e == SceneError::IndexOutOfRange && final(scene)@ == old(scene)@,
{
    if index < scene.objects.len() {
        let removed = scene.objects.remove(index);
        assert(scene@ =~= old(scene)@.remove(index as int));
        assert forall|i: int| 0 <= i < scene@.len() implies (#[trigger] scene@[i]).wf() by {
            if i < index {
                assert(old(scene)@[i].wf());
            } else {
                assert(old(scene)@[i + 1].wf());
            }
        }
        Ok(removed)
    } else {
        Err(SceneError::IndexOutOfRange)
    }
}

/// Finds the object under the pointer at `(mouse_x, mouse_y)`: the earliest
/// object of the scene that covers the point.
pub fn object_at_cursor_index(scene: &Scene, mouse_x: i64, mouse_y: i64) -> (r: Option<usize>)
    requires
        scene.wf(),
    ensures
        r is Some <==> object_at(scene@, mouse_x as int, mouse_y as int) is Some,
        r matches Some(index) ==> object_at(scene@, mouse_x as int, mouse_y as int) == Some(
            index as int,
        ) && index < scene@.len(),
{
    proof {
        lemma_object_at(scene@, mouse_x as int, mouse_y as int);
    }
    let mut index: usize = 0;
    while index < scene.objects.len()
        invariant
            0 <= index <= scene.objects.len(),
            scene.wf(),
            forall|j: int|
                0 <= j < index ==> !covers(#[trigger] scene@[j], mouse_x as int, mouse_y as int),
        decreases scene.objects.len() - index,
    {
        assert(scene@[index as int].wf());
        if object_covers(&scene.objects[index], mouse_x, mouse_y) {
            assert(first_covering(scene@, mouse_x as int, mouse_y as int, index as int));
            return Some(index);
        }
        index = index + 1;
    }
    None
}

/// The centre of `object` and, for an object that has one, its radius.
/// Every kind of object has one.
pub fn get_object_scope(object: &RaytracerObjects) -> (r: ((i64, i64), Option<i64>))
    ensures
        (r.0).0 == object@.base().x,
        (r.0).1 == object@.base().y,
        r.1 matches Some(radius) && radius == object@.base().radius,
{
    let pos = object.get_pos();
    let rad = match object {
        RaytracerObjects::Absorbers(o) => Some(o.get_radius()),
        RaytracerObjects::ObjectCircle(o) => Some(o.get_radius()),
        RaytracerObjects::Emitters(o) => Some(o.get_radius()),
    };
    (pos, rad)
}

/// The name of the kind of `object`: the general kind, or with `specify`
/// the particular kind of emitter or absorber.
pub open spec fn kind_name(object: ObjectView, specify: bool) -> Seq<char> {
    match object {
        ObjectView::Circle(_) => "ObjectCircle"@,
        ObjectView::Absorber(_) => if specify {
            "Perfect"@
        } else {
            "Absorber"@
        },
        ObjectView::Emitter(e) => if specify {
            match e.beam {
                BeamView::Isotropic => "Isotropic"@,
                BeamView::Collimated { .. } => "Collimated"@,
                BeamView::Spotlight { .. } => "Spotlight"@,
            }
        } else {
            "Emitter"@
        },
    }
}

/// Names the kind of `object`.
pub fn object_type(object: &RaytracerObjects, specify: bool) -> (r: &'static str)
    ensures
        r@ == kind_name(object@, specify),
{
    match object {
        RaytracerObjects::ObjectCircle(_) => "ObjectCircle",
        RaytracerObjects::Absorbers(_) => {
            if specify {
                "Perfect"
            } else {
                "Absorber"
            }
        },
        RaytracerObjects::Emitters(emitter) => {
            if specify {
                match emitter {
                    Emitters::EmitterIsotropic(_) => "Isotropic",
                    Emitters::EmitterCollimated(_) => "Collimated",
                    Emitters::EmitterSpotlight(_) => "Spotlight",
                }
            } else {
                "Emitter"
            }
        },
    }
}

/// Names the kind of the object under the pointer at `(mouse_x, mouse_y)`,
/// or `"None"` where there is no object.
pub fn object_at_cursor_type(scene: &Scene, mouse_x: i64, mouse_y: i64, specify: bool) -> (r:
    &'static str)
    requires
        scene.wf(),
    ensures
        r@ == (match object_at(scene@, mouse_x as int, mouse_y as int) {
            Some(index) => kind_name(scene@[index], specify),
            None => "None"@,
        }),
{
    match object_at_cursor_index(scene, mouse_x, mouse_y) {
        Some(index) => object_type(&scene.objects[index], specify),
        None => "None",
    }
}

} // verus!
