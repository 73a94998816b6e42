use raytracer::color::objd_circle_fill;
use raytracer::fixed::from_pixels;
use raytracer::globals::{Extent, OBJC_MAX_RAY_COUNT, OBJC_MIN_RAY_COUNT};
use raytracer::objects::behavior::{Movable, VariableSize};
use raytracer::objects::circle::ObjectCircle;
use raytracer::objects::emitters::{
    wrap_angle, BeamChange, EmitterCollimated, EmitterIsotropic, EmitterSpotlight, Emitters,
    RayCountChange, VariableOrientation, VariableRays,
};
use raytracer::objects::ray::{
    init_collimated_rays, init_isotropic_rays, init_spotlight_rays,
};
use raytracer::trig::FULL_TURN;

fn canvas() -> Extent {
    Extent::new(from_pixels(600), from_pixels(800))
}

fn circle(x: i32, y: i32) -> ObjectCircle {
    ObjectCircle::new(from_pixels(x), from_pixels(y), objd_circle_fill(), from_pixels(50))
}

fn isotropic(count: i32) -> Emitters {
    Emitters::EmitterIsotropic(EmitterIsotropic::new(
        circle(10, 20),
        init_isotropic_rays(from_pixels(10), from_pixels(20), count, &canvas()),
    ))
}

fn collimated(diameter: i64) -> Emitters {
    Emitters::EmitterCollimated(EmitterCollimated::new(circle(10, 20), Vec::new(), 0, diameter))
}

fn spotlight(angle: i64) -> Emitters {
    Emitters::EmitterSpotlight(EmitterSpotlight::new(circle(10, 20), Vec::new(), 0, angle))
}

#[test]
fn the_constructors_keep_what_they_are_given() {
    let rays = init_isotropic_rays(0, 0, 5, &canvas());
    let plain = EmitterIsotropic::new(circle(1, 2), rays.clone());
    assert_eq!(plain.base_object, circle(1, 2));
    assert_eq!(plain.rays, rays);
    let beam = EmitterCollimated::new(circle(1, 2), rays.clone(), 7, 8);
    assert_eq!(beam.base_emitter.base_object, circle(1, 2));
    assert_eq!(beam.base_emitter.rays, rays);
    assert_eq!((beam.orientation, beam.collimated_beam_diameter), (7, 8));
    let cone = EmitterSpotlight::new(circle(1, 2), rays.clone(), 9, 10);
    assert_eq!(cone.base_emitter.base_object, circle(1, 2));
    assert_eq!(cone.base_emitter.rays, rays);
    assert_eq!((cone.orientation, cone.spotlight_beam_angle), (9, 10));
    let wrapped = Emitters::EmitterSpotlight(cone);
    assert_eq!(*wrapped.base(), circle(1, 2));
    assert_eq!(wrapped.rays(), &rays);
    assert_eq!(wrapped.cast_count(), 5);
}

#[test]
fn reducing_the_rays_below_the_minimum_is_rejected() {
    let mut emitter = isotropic(3);
    let before = emitter.rays().clone();
    assert_eq!(OBJC_MIN_RAY_COUNT, 3);
    assert_eq!(
        emitter.change_rays_count(-1, &canvas()),
        RayCountChange::RejectedBelowMinimum
    );
    assert_eq!(emitter.rays(), &before);
    assert_eq!(
        emitter.change_rays_count(-3, &canvas()),
        RayCountChange::RejectedBelowMinimum
    );
    assert_eq!(
        emitter.change_rays_count(i32::MIN, &canvas()),
        RayCountChange::RejectedBelowMinimum
    );
    assert_eq!(emitter.rays().len(), 3);
    let mut many = isotropic(32);
    assert_eq!(many.change_rays_count(-30, &canvas()), RayCountChange::RejectedBelowMinimum);
    assert_eq!(many.rays().len(), 32);
    assert_eq!(many.change_rays_count(-29, &canvas()), RayCountChange::Applied);
    assert_eq!(many.rays().len(), 3);
}

#[test]
fn changing_the_number_of_rays_casts_them_anew() {
    let mut emitter = isotropic(32);
    assert_eq!(emitter.change_rays_count(1, &canvas()), RayCountChange::Applied);
    assert_eq!(
        emitter.rays(),
        &init_isotropic_rays(from_pixels(10), from_pixels(20), 33, &canvas())
    );
    assert_eq!(emitter.change_rays_count(0, &canvas()), RayCountChange::Applied);
    assert_eq!(emitter.rays().len(), 33);
    assert_eq!(emitter.change_rays_count(-1, &canvas()), RayCountChange::Applied);
    assert_eq!(
        emitter.rays(),
        &init_isotropic_rays(from_pixels(10), from_pixels(20), 32, &canvas())
    );
}

#[test]
fn raising_the_rays_above_the_maximum_is_applied_and_reported() {
    let mut emitter = isotropic(100);
    assert_eq!(OBJC_MAX_RAY_COUNT, 100);
    assert_eq!(emitter.change_rays_count(1, &canvas()), RayCountChange::AppliedAboveMaximum);
    assert_eq!(emitter.rays().len(), 101);
    assert_eq!(emitter.change_rays_count(1, &canvas()), RayCountChange::AppliedAboveMaximum);
    assert_eq!(emitter.rays().len(), 102);
    assert_eq!(emitter.change_rays_count(-2, &canvas()), RayCountChange::Applied);
    assert_eq!(emitter.rays().len(), 100);
    let mut few = isotropic(99);
    assert_eq!(few.change_rays_count(1, &canvas()), RayCountChange::Applied);
}

#[test]
fn an_emitter_without_rays_cannot_gain_fewer_than_the_minimum() {
    let mut emitter = collimated(from_pixels(90));
    assert_eq!(emitter.change_rays_count(2, &canvas()), RayCountChange::RejectedBelowMinimum);
    assert!(emitter.rays().is_empty());
    assert_eq!(emitter.change_rays_count(4, &canvas()), RayCountChange::Applied);
    assert_eq!(
        emitter.rays(),
        &init_collimated_rays(from_pixels(10), from_pixels(20), 0, from_pixels(90), 4, &canvas())
            .unwrap()
    );
}

#[test]
fn the_number_of_rays_of_a_spotlight_changes_too() {
    let mut emitter = spotlight(65536);
    assert_eq!(emitter.cast_count(), 32);
    assert_eq!(emitter.change_rays_count(5, &canvas()), RayCountChange::Applied);
    assert_eq!(
        emitter.rays(),
        &init_spotlight_rays(from_pixels(10), from_pixels(20), 0, 65536, 5, &canvas()).unwrap()
    );
    assert_eq!(emitter.cast_count(), 5);
}

#[test]
fn moving_an_emitter_keeps_its_number_of_rays() {
    let mut emitter = isotropic(7);
    emitter.move_object(from_pixels(-3), from_pixels(4), &canvas());
    assert_eq!(
        emitter.rays(),
        &init_isotropic_rays(from_pixels(-3), from_pixels(4), 7, &canvas())
    );
    assert_eq!((emitter.base().pos_x, emitter.base().pos_y), (from_pixels(-3), from_pixels(4)));
    assert_eq!(emitter.get_radius(), from_pixels(50));
    let mut bare = spotlight(65536);
    bare.move_object(0, 0, &canvas());
    assert_eq!(
        bare.rays(),
        &init_spotlight_rays(0, 0, 0, 65536, 32, &canvas()).unwrap()
    );
}

#[test]
fn resizing_an_emitter_leaves_its_rays_alone() {
    let mut emitter = isotropic(7);
    let before = emitter.rays().clone();
    emitter.change_radius(from_pixels(5));
    assert_eq!(emitter.get_radius(), from_pixels(55));
    assert_eq!(emitter.rays(), &before);
}

#[test]
fn angles_wrap_into_one_turn() {
    assert_eq!(wrap_angle(0), 0);
    assert_eq!(wrap_angle(FULL_TURN), 0);
    assert_eq!(wrap_angle(FULL_TURN - 1), FULL_TURN - 1);
    assert_eq!(wrap_angle(FULL_TURN + 5), 5);
    assert_eq!(wrap_angle(-1), FULL_TURN - 1);
    assert_eq!(wrap_angle(-FULL_TURN), 0);
    assert_eq!(wrap_angle(3 * FULL_TURN + 17), 17);
    assert_eq!(wrap_angle(i64::MAX), i64::MAX % FULL_TURN);
    assert_eq!(wrap_angle(i64::MIN), i64::MIN.rem_euclid(FULL_TURN));
}

#[test]
fn turning_an_emitter_wraps_its_orientation() {
    let mut emitter = spotlight(65536);
    emitter.change_orientation(-10, &canvas());
    match &emitter {
        Emitters::EmitterSpotlight(e) => assert_eq!(e.orientation, FULL_TURN - 10),
        _ => panic!("not a spotlight"),
    }
    assert_eq!(
        emitter.rays(),
        &init_spotlight_rays(from_pixels(10), from_pixels(20), FULL_TURN - 10, 65536, 32, &canvas())
            .unwrap()
    );
    emitter.change_orientation(FULL_TURN + 30, &canvas());
    match &emitter {
        Emitters::EmitterSpotlight(e) => assert_eq!(e.orientation, 20),
        _ => panic!("not a spotlight"),
    }
    let mut round = isotropic(5);
    let before = round.rays().clone();
    round.change_orientation(12345, &canvas());
    assert_eq!(round.rays(), &before);
}

#[test]
fn a_collimated_beam_is_not_narrowed_to_nothing() {
    let mut emitter = collimated(from_pixels(10));
    assert_eq!(emitter.change_beam(from_pixels(-10), &canvas()), BeamChange::RejectedTooSmall);
    assert_eq!(emitter.change_beam(from_pixels(-11), &canvas()), BeamChange::RejectedTooSmall);
    assert_eq!(emitter.change_beam(i64::MIN, &canvas()), BeamChange::RejectedTooSmall);
    assert!(emitter.rays().is_empty());
    assert_eq!(emitter.change_beam(from_pixels(-9), &canvas()), BeamChange::Applied);
    match &emitter {
        Emitters::EmitterCollimated(e) => assert_eq!(e.collimated_beam_diameter, from_pixels(1)),
        _ => panic!("not a collimated emitter"),
    }
    assert_eq!(
        emitter.rays(),
        &init_collimated_rays(from_pixels(10), from_pixels(20), 0, from_pixels(1), 32, &canvas())
            .unwrap()
    );
    assert_eq!(emitter.change_beam(0, &canvas()), BeamChange::Applied);
    assert_eq!(emitter.change_beam(1 << 28, &canvas()), BeamChange::RejectedTooLarge);
    assert_eq!(emitter.change_beam(i64::MAX, &canvas()), BeamChange::RejectedTooLarge);
    assert_eq!(emitter.change_beam((1 << 28) - from_pixels(1), &canvas()), BeamChange::Applied);
    assert!(emitter.is_valid());
}

#[test]
fn a_spotlight_opens_between_nothing_and_a_full_turn() {
    let mut emitter = spotlight(65536);
    assert_eq!(emitter.change_beam(-65537, &canvas()), BeamChange::RejectedTooSmall);
    assert_eq!(emitter.change_beam(-65536, &canvas()), BeamChange::Applied);
    match &emitter {
        Emitters::EmitterSpotlight(e) => assert_eq!(e.spotlight_beam_angle, 0),
        _ => panic!("not a spotlight"),
    }
    assert_eq!(emitter.change_beam(FULL_TURN + 1, &canvas()), BeamChange::RejectedTooLarge);
    assert_eq!(emitter.change_beam(FULL_TURN, &canvas()), BeamChange::Applied);
    assert_eq!(emitter.change_beam(1, &canvas()), BeamChange::RejectedTooLarge);
    assert_eq!(emitter.change_beam(i64::MAX, &canvas()), BeamChange::RejectedTooLarge);
    assert_eq!(emitter.change_beam(i64::MIN, &canvas()), BeamChange::RejectedTooSmall);
    assert_eq!(
        emitter.rays(),
        &init_spotlight_rays(from_pixels(10), from_pixels(20), 0, FULL_TURN, 32, &canvas()).unwrap()
    );
    assert!(emitter.is_valid());
}

#[test]
fn an_isotropic_emitter_has_no_beam_to_change() {
    let mut emitter = isotropic(5);
    let before = emitter.rays().clone();
    assert_eq!(emitter.change_beam(5, &canvas()), BeamChange::NotApplicable);
    assert_eq!(emitter.change_beam(-5, &canvas()), BeamChange::NotApplicable);
    assert_eq!(emitter.rays(), &before);
}
