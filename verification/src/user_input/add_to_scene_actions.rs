//! Creating objects.

use vstd::prelude::*;
use crate::color::{circle_fill, objd_circle_fill};
use crate::fixed::{POS_LIMIT, within};
use crate::globals::{
    Extent, OBJC_MAX_OBJ_COUNT, OBJD_CIRCLE_RADIUS, OBJD_COLLIMATED_BEAM_DIAMETER,
    OBJD_COLLIMATED_ORIENTATION, OBJD_RAY_COUNT, OBJD_SPOTLIGHT_BEAM_ANGLE,
    OBJD_SPOTLIGHT_ORIENTATION,
};
use crate::helpers::object_utils::add_object_to_collection;
use crate::objects::absorber::{AbsorberPerfect, Absorbers};
use crate::objects::behavior::{ObjectView, RaytracerObjects};
use crate::objects::circle::{CircleView, ObjectCircle};
use crate::objects::emitters::{
    BeamView, EmitterCollimated, EmitterIsotropic, EmitterSpotlight, EmitterView, Emitters,
    generate,
};
use crate::objects::ray::{init_collimated_rays, init_isotropic_rays, init_spotlight_rays};
use crate::scene::{Scene, SceneError};

verus! {

/// A circle of the default radius and colour at `(x, y)`.
pub open spec fn default_circle(x: int, y: int) -> CircleView {
    CircleView { x, y, radius: OBJD_CIRCLE_RADIUS as int, color: circle_fill() }
}

/// An emitter of the default size at `(x, y)` that has cast the default
/// number of rays in the pattern `beam`.
pub open spec fn default_emitter(x: int, y: int, beam: BeamView, extent: Extent) -> ObjectView {
    ObjectView::Emitter(
        EmitterView {
            base: default_circle(x, y),
            rays: generate(x, y, beam, OBJD_RAY_COUNT as int, extent),
            beam,
        },
    )
}

/// The object that the name `kind` stands for, created at `(x, y)` with all
/// its parameters at their defaults; none where `kind` names no object.
pub open spec fn new_object(kind: Seq<char>, x: int, y: int, extent: Extent) -> Option<ObjectView> {
    if kind == "circle_none"@ {
        Some(ObjectView::Circle(default_circle(x, y)))
    } else if kind == "emitter_isotropic"@ {
        Some(default_emitter(x, y, BeamView::Isotropic, extent))
    } else if kind == "emitter_collimated"@ {
        Some(
            default_emitter(
                x,
                y,
                BeamView::Collimated {
                    orientation: OBJD_COLLIMATED_ORIENTATION as int,
                    diameter: OBJD_COLLIMATED_BEAM_DIAMETER as int,
                },
                extent,
            ),
        )
    } else if kind == "emitter_spotlight"@ {
        Some(
            default_emitter(
                x,
                y,
                BeamView::Spotlight {
                    orientation: OBJD_SPOTLIGHT_ORIENTATION as int,
                    angle: OBJD_SPOTLIGHT_BEAM_ANGLE as int,
                },
                extent,
            ),
        )
    } else if kind == "absorber_perfect"@ {
        Some(ObjectView::Absorber(default_circle(x, y)))
    } else {
        None
    }
}

/// The five names of kinds of objects, and the object that each stands for.
pub proof fn lemma_new_object_kinds(x: int, y: int, extent: Extent)
    ensures
        new_object("circle_none"@, x, y, extent) == Some(ObjectView::Circle(default_circle(x, y))),
        new_object("emitter_isotropic"@, x, y, extent) == Some(
            default_emitter(x, y, BeamView::Isotropic, extent),
        ),
        new_object("emitter_collimated"@, x, y, extent) == Some(
            default_emitter(
                x,
                y,
                BeamView::Collimated {
                    orientation: OBJD_COLLIMATED_ORIENTATION as int,
                    diameter: OBJD_COLLIMATED_BEAM_DIAMETER as int,
                },
                extent,
            ),
        ),
        new_object("emitter_spotlight"@, x, y, extent) == Some(
            default_emitter(
                x,
                y,
                BeamView::Spotlight {
                    orientation: OBJD_SPOTLIGHT_ORIENTATION as int,
                    angle: OBJD_SPOTLIGHT_BEAM_ANGLE as int,
                },
                extent,
            ),
        ),
        new_object("absorber_perfect"@, x, y, extent) == Some(
            ObjectView::Absorber(default_circle(x, y)),
        ),
        new_object(""@, x, y, extent) is None,
{
    reveal_strlit("circle_none");
    reveal_strlit("emitter_isotropic");
    reveal_strlit("emitter_collimated");
    reveal_strlit("emitter_spotlight");
    reveal_strlit("absorber_perfect");
    reveal_strlit("");
    assert("circle_none"@.len() == 11);
    assert("emitter_isotropic"@.len() == 17);
    assert("emitter_collimated"@.len() == 18);
    assert("emitter_spotlight"@.len() == 17);
    assert("absorber_perfect"@.len() == 16);
    assert(""@.len() == 0);
    assert("emitter_isotropic"@[8] == 'i');
    assert("emitter_spotlight"@[8] == 's');
}

/// Whether two strings hold the same text.
fn same_text(a: &str, b: &str) -> (r: bool)
    ensures
        r == (a@ == b@),
{
    let left = a.to_owned();
    let right = b.to_owned();
    left == right
}

/// Creates the object that `object_type` names, at `(x, y)`.
fn create_object(object_type: &str, x: i64, y: i64, extent: &Extent) -> (r: Option<
    RaytracerObjects,
>)
    requires
        within(x as int, POS_LIMIT as int),
        within(y as int, POS_LIMIT as int),
        extent.wf(),
    ensures
        r is Some <==> new_object(object_type@, x as int, y as int, *extent) is Some,
        r matches Some(object) ==> Some(object@) == new_object(
            object_type@,
            x as int,
            y as int,
            *extent,
        ) && object.wf(),
{
    let base = ObjectCircle::new(x, y, objd_circle_fill(), OBJD_CIRCLE_RADIUS);
    if same_text(object_type, "circle_none") {
        Some(RaytracerObjects::ObjectCircle(base))
    } else if same_text(object_type, "emitter_isotropic") {
        let rays = init_isotropic_rays(x, y, OBJD_RAY_COUNT, extent);
        Some(RaytracerObjects::Emitters(Emitters::EmitterIsotropic(EmitterIsotropic::new(base, rays))))
    } else if same_text(object_type, "emitter_collimated") {
        match init_collimated_rays(
            x,
            y,
            OBJD_COLLIMATED_ORIENTATION,
            OBJD_COLLIMATED_BEAM_DIAMETER,
            OBJD_RAY_COUNT,
            extent,
        ) {
            Some(rays) => Some(
                RaytracerObjects::Emitters(
                    Emitters::EmitterCollimated(
                        EmitterCollimated::new(
                            base,
                            rays,
                            OBJD_COLLIMATED_ORIENTATION,
                            OBJD_COLLIMATED_BEAM_DIAMETER,
                        ),
                    ),
                ),
            ),
            None => None,
        }
    } else if same_text(object_type, "emitter_spotlight") {
        match init_spotlight_rays(
            x,
            y,
            OBJD_SPOTLIGHT_ORIENTATION,
            OBJD_SPOTLIGHT_BEAM_ANGLE,
            OBJD_RAY_COUNT,
            extent,
        ) {
            Some(rays) => Some(
                RaytracerObjects::Emitters(
                    Emitters::EmitterSpotlight(
                        EmitterSpotlight::new(
                            base,
                            rays,
                            OBJD_SPOTLIGHT_ORIENTATION,
                            OBJD_SPOTLIGHT_BEAM_ANGLE,
                        ),
                    ),
                ),
            ),
            None => None,
        }
    } else if same_text(object_type, "absorber_perfect") {
        Some(RaytracerObjects::Absorbers(Absorbers::AbsorberPerfect(AbsorberPerfect::new(base))))
    } else {
        None
    }
}

/// Creates the object that `object_type` names at the pointer's position
/// `(mouse_x, mouse_y)`, with all its parameters at their defaults, and
/// appends it to the scene. A full scene refuses every creation; a name
/// that names no object creates nothing. The pointer lies within 4096
/// pixels of the origin on each axis, and the canvas is at most 8192 pixels
/// wide and high.
pub fn add_object_to_scene(
    scene: &mut Scene,
    object_type: &str,
    mouse_x: i64,
    mouse_y: i64,
    extent: &Extent,
) -> (r: Result<(), SceneError>)
    requires
        old(scene).wf(),
        within(mouse_x as int, POS_LIMIT as int),
        within(mouse_y as int, POS_LIMIT as int),
        extent.wf(),
    ensures
        final(scene).wf(),
        r is Ok <==> old(scene)@.len() < OBJC_MAX_OBJ_COUNT && new_object(
            object_type@,
            mouse_x as int,
            mouse_y as int,
            *extent,
        ) is Some,
        r matches Err(e) ==> e == (if old(scene)@.len() >= OBJC_MAX_OBJ_COUNT {
            SceneError::CapacityExceeded
        } else {
            SceneError::UnknownObjectType
        }),
        r is Ok ==> final(scene)@ == old(scene)@.push(
            new_object(object_type@, mouse_x as int, mouse_y as int, *extent).unwrap(),
        ),
        r is Err ==> final(scene)@ == old(scene)@,
{
    if !scene.has_room() {
        return Err(SceneError::CapacityExceeded);
    }
    match create_object(object_type, mouse_x, mouse_y, extent) {
        Some(new_object) => {
            add_object_to_collection(scene, new_object)
        },
        None => Err(SceneError::UnknownObjectType),
    }
}

} // verus!
