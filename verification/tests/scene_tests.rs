use raytracer::color::{objd_circle_fill, objd_ray_color};
use raytracer::fixed::from_pixels;
use raytracer::globals::{
    Extent, OBJC_MAX_OBJ_COUNT, OBJD_CIRCLE_RADIUS, OBJD_COLLIMATED_BEAM_DIAMETER,
    OBJD_RAY_COUNT, OBJD_SPOTLIGHT_BEAM_ANGLE,
};
use raytracer::helpers::action_utils::{
    get_object_scope, object_at_cursor_index, object_at_cursor_type, object_covers, object_type,
    remove_object_at_index,
};
use raytracer::helpers::object_utils::{
    add_object_to_collection, init_all_rays, recompute,
};
use raytracer::objects::absorber::{AbsorberPerfect, Absorbers};
use raytracer::objects::behavior::{DrawCommand, Drawable, Movable, RaytracerObjects, VariableSize};
use raytracer::objects::circle::ObjectCircle;
use raytracer::objects::emitters::{
    EmitterCollimated, EmitterIsotropic, EmitterSpotlight, Emitters,
};
use raytracer::objects::occlusion::check_for_occlusion;
use raytracer::objects::ray::{init_isotropic_rays, ObjectRay};
use raytracer::scene::{Scene, SceneError};
use raytracer::user_input::add_to_scene_actions::add_object_to_scene;
use raytracer::user_input::emitter_actions::{object_change_orientation, object_change_size};

fn canvas() -> Extent {
    Extent::new(from_pixels(600), from_pixels(800))
}

fn circle(x: i32, y: i32, radius: i32) -> ObjectCircle {
    ObjectCircle::new(from_pixels(x), from_pixels(y), objd_circle_fill(), from_pixels(radius))
}

fn absorber(x: i32, y: i32, radius: i32) -> RaytracerObjects {
    RaytracerObjects::Absorbers(Absorbers::AbsorberPerfect(AbsorberPerfect::new(circle(
        x, y, radius,
    ))))
}

fn rays_of(object: &RaytracerObjects) -> &Vec<ObjectRay> {
    match object {
        RaytracerObjects::Emitters(emitter) => emitter.rays(),
        _ => panic!("not an emitter"),
    }
}

fn ends(ray: &ObjectRay) -> (i64, i64, i64, i64) {
    (ray.start_x, ray.start_y, ray.end_x, ray.end_y)
}

#[test]
fn a_new_scene_is_empty_and_valid() {
    let scene = Scene::new();
    assert_eq!(scene.len(), 0);
    assert!(scene.is_valid());
    assert!(scene.has_room());
    assert!(scene.get(0).is_none());
}

#[test]
fn creating_an_isotropic_emitter_in_an_empty_scene() {
    let mut scene = Scene::new();
    let added = add_object_to_scene(
        &mut scene,
        "emitter_isotropic",
        from_pixels(100),
        from_pixels(100),
        &canvas(),
    );
    assert_eq!(added, Ok(()));
    assert_eq!(scene.len(), 1);
    let rays = rays_of(&scene.objects[0]);
    assert_eq!(rays.len(), 32);
    assert_eq!(OBJD_RAY_COUNT, 32);
    for ray in rays {
        assert_eq!((ray.start_x, ray.start_y), (from_pixels(100), from_pixels(100)));
    }
    assert_eq!(ends(&rays[0]), (6553600, 6553600, 45875200, 6553600));
    assert_eq!(ends(&rays[8]), (6553600, 6553600, 6553600, 58982400));
    assert_eq!(ends(&rays[16]), (6553600, 6553600, -32768000, 6553600));
    assert_eq!(ends(&rays[24]), (6553600, 6553600, 6553600, -45875200));
    assert_eq!(scene.objects[0].get_pos(), (from_pixels(100), from_pixels(100)));
    assert_eq!(scene.objects[0].get_radius(), OBJD_CIRCLE_RADIUS);
    assert!(scene.is_valid());
}

#[test]
fn creating_each_kind_of_object() {
    let mut scene = Scene::new();
    let extent = canvas();
    for kind in [
        "circle_none",
        "emitter_isotropic",
        "emitter_collimated",
        "emitter_spotlight",
        "absorber_perfect",
    ] {
        assert_eq!(add_object_to_scene(&mut scene, kind, 0, 0, &extent), Ok(()));
    }
    assert_eq!(scene.len(), 5);
    assert!(matches!(scene.objects[0], RaytracerObjects::ObjectCircle(_)));
    assert!(matches!(
        scene.objects[1],
        RaytracerObjects::Emitters(Emitters::EmitterIsotropic(_))
    ));
    match &scene.objects[2] {
        RaytracerObjects::Emitters(Emitters::EmitterCollimated(e)) => {
            assert_eq!(e.orientation, 0);
            assert_eq!(e.collimated_beam_diameter, OBJD_COLLIMATED_BEAM_DIAMETER);
            assert_eq!(e.base_emitter.rays.len(), 32);
            assert_eq!(ends(&e.base_emitter.rays[0]), (0, -3276800, 39321600, -3276800));
        }
        _ => panic!("not a collimated emitter"),
    }
    match &scene.objects[3] {
        RaytracerObjects::Emitters(Emitters::EmitterSpotlight(e)) => {
            assert_eq!(e.orientation, 0);
            assert_eq!(e.spotlight_beam_angle, OBJD_SPOTLIGHT_BEAM_ANGLE);
            assert_eq!(e.base_emitter.rays.len(), 32);
            assert_eq!(ends(&e.base_emitter.rays[0]), (0, 0, 34053600, -26214400));
        }
        _ => panic!("not a spotlight"),
    }
    assert!(matches!(
        scene.objects[4],
        RaytracerObjects::Absorbers(Absorbers::AbsorberPerfect(_))
    ));
    for object in &scene.objects {
        assert_eq!(object.get_radius(), OBJD_CIRCLE_RADIUS);
        assert_eq!(object.base().color_fill, objd_circle_fill());
    }
    assert!(scene.is_valid());
}

#[test]
fn an_unknown_kind_creates_nothing() {
    let mut scene = Scene::new();
    assert_eq!(
        add_object_to_scene(&mut scene, "mirror", 0, 0, &canvas()),
        Err(SceneError::UnknownObjectType)
    );
    assert_eq!(
        add_object_to_scene(&mut scene, "", 0, 0, &canvas()),
        Err(SceneError::UnknownObjectType)
    );
    assert_eq!(
        add_object_to_scene(&mut scene, "Circle_none", 0, 0, &canvas()),
        Err(SceneError::UnknownObjectType)
    );
    assert_eq!(scene.len(), 0);
}

#[test]
fn a_full_scene_refuses_one_more_object() {
    let mut scene = Scene::new();
    let extent = canvas();
    for i in 0..OBJC_MAX_OBJ_COUNT {
        let kind = if i % 2 == 0 { "circle_none" } else { "absorber_perfect" };
        assert_eq!(
            add_object_to_scene(&mut scene, kind, from_pixels(i as i32), 0, &extent),
            Ok(())
        );
    }
    assert_eq!(scene.len(), 100);
    assert!(!scene.has_room());
    assert_eq!(
        add_object_to_scene(&mut scene, "emitter_isotropic", 0, 0, &extent),
        Err(SceneError::CapacityExceeded)
    );
    assert_eq!(
        add_object_to_scene(&mut scene, "no such kind", 0, 0, &extent),
        Err(SceneError::CapacityExceeded)
    );
    assert_eq!(
        add_object_to_collection(&mut scene, absorber(1, 2, 3)),
        Err(SceneError::CapacityExceeded)
    );
    assert_eq!(
        ObjectCircle::new_and_add(&mut scene, 0, 0, objd_circle_fill(), 1),
        Err(SceneError::CapacityExceeded)
    );
    assert_eq!(scene.len(), 100);
    assert_eq!(scene.objects[99].get_pos(), (from_pixels(99), 0));
    assert!(scene.is_valid());
}

#[test]
fn a_circle_is_made_and_added_in_one_step() {
    let mut scene = Scene::new();
    let made = ObjectCircle::new_and_add(&mut scene, 10, 20, objd_ray_color(), 30).unwrap();
    assert_eq!(made, ObjectCircle::new(10, 20, objd_ray_color(), 30));
    assert_eq!(scene.len(), 1);
    match &scene.objects[0] {
        RaytracerObjects::ObjectCircle(c) => assert_eq!(*c, made),
        _ => panic!("not a circle"),
    }
}

#[test]
fn objects_keep_the_order_of_their_creation() {
    let mut scene = Scene::new();
    for i in 0..5 {
        assert_eq!(add_object_to_collection(&mut scene, absorber(i, 0, 1)), Ok(()));
    }
    for i in 0..5 {
        assert_eq!(scene.get(i).unwrap().get_pos(), (from_pixels(i as i32), 0));
    }
    assert!(scene.get(5).is_none());
    let removed = remove_object_at_index(&mut scene, 1).unwrap();
    assert_eq!(removed.get_pos(), (from_pixels(1), 0));
    assert_eq!(scene.len(), 4);
    assert_eq!(scene.objects[0].get_pos(), (0, 0));
    assert_eq!(scene.objects[1].get_pos(), (from_pixels(2), 0));
    assert_eq!(scene.objects[3].get_pos(), (from_pixels(4), 0));
}

#[test]
fn removing_at_a_stale_index_changes_nothing() {
    let mut scene = Scene::new();
    assert!(matches!(remove_object_at_index(&mut scene, 0), Err(SceneError::IndexOutOfRange)));
    assert_eq!(add_object_to_collection(&mut scene, absorber(0, 0, 1)), Ok(()));
    assert!(matches!(remove_object_at_index(&mut scene, 1), Err(SceneError::IndexOutOfRange)));
    assert!(matches!(
        remove_object_at_index(&mut scene, usize::MAX),
        Err(SceneError::IndexOutOfRange)
    ));
    assert_eq!(scene.len(), 1);
    assert!(remove_object_at_index(&mut scene, 0).is_ok());
    assert_eq!(scene.len(), 0);
}

#[test]
fn the_earliest_object_under_the_pointer_is_found() {
    let mut scene = Scene::new();
    assert_eq!(add_object_to_collection(&mut scene, absorber(100, 100, 10)), Ok(()));
    assert_eq!(add_object_to_collection(&mut scene, absorber(110, 100, 10)), Ok(()));
    assert_eq!(add_object_to_collection(&mut scene, absorber(300, 300, 50)), Ok(()));
    assert_eq!(object_at_cursor_index(&scene, from_pixels(105), from_pixels(100)), Some(0));
    assert_eq!(object_at_cursor_index(&scene, from_pixels(120), from_pixels(100)), Some(1));
    assert_eq!(object_at_cursor_index(&scene, from_pixels(300), from_pixels(340)), Some(2));
    assert_eq!(object_at_cursor_index(&scene, from_pixels(200), from_pixels(200)), None);
    assert_eq!(object_at_cursor_index(&scene, i64::MAX, i64::MIN), None);
}

#[test]
fn the_pointer_reaches_the_radius_and_the_tolerance_beyond_the_centre() {
    let object = absorber(100, 100, 10);
    assert!(object_covers(&object, from_pixels(100), from_pixels(100)));
    assert!(object_covers(&object, from_pixels(115) - 1, from_pixels(100)));
    assert!(!object_covers(&object, from_pixels(115), from_pixels(100)));
    assert!(object_covers(&object, from_pixels(85) + 1, from_pixels(115) - 1));
    assert!(!object_covers(&object, from_pixels(85), from_pixels(100)));
    assert!(!object_covers(&object, from_pixels(100), from_pixels(85)));
    assert!(object_covers(&object, from_pixels(114), from_pixels(114)));
    let point = absorber(0, 0, 0);
    assert!(object_covers(&point, from_pixels(4), from_pixels(-4)));
    assert!(!object_covers(&point, from_pixels(5), 0));
}

#[test]
fn the_kind_under_the_pointer_is_named() {
    let mut scene = Scene::new();
    let extent = canvas();
    assert_eq!(add_object_to_scene(&mut scene, "circle_none", 0, 0, &extent), Ok(()));
    for (i, kind) in
        ["emitter_isotropic", "emitter_collimated", "emitter_spotlight", "absorber_perfect"]
            .iter()
            .enumerate()
    {
        let x = from_pixels(200 * (i as i32 + 1));
        assert_eq!(add_object_to_scene(&mut scene, kind, x, 0, &extent), Ok(()));
    }
    let at = |i: i32| from_pixels(200 * i);
    assert_eq!(object_at_cursor_type(&scene, at(0), 0, false), "ObjectCircle");
    assert_eq!(object_at_cursor_type(&scene, at(0), 0, true), "ObjectCircle");
    assert_eq!(object_at_cursor_type(&scene, at(1), 0, false), "Emitter");
    assert_eq!(object_at_cursor_type(&scene, at(1), 0, true), "Isotropic");
    assert_eq!(object_at_cursor_type(&scene, at(2), 0, false), "Emitter");
    assert_eq!(object_at_cursor_type(&scene, at(2), 0, true), "Collimated");
    assert_eq!(object_at_cursor_type(&scene, at(3), 0, true), "Spotlight");
    assert_eq!(object_at_cursor_type(&scene, at(4), 0, false), "Absorber");
    assert_eq!(object_at_cursor_type(&scene, at(4), 0, true), "Perfect");
    assert_eq!(object_at_cursor_type(&scene, at(1), from_pixels(500), true), "None");
    assert_eq!(object_type(&scene.objects[4], true), "Perfect");
}

#[test]
fn the_scope_of_an_object_is_its_centre_and_radius() {
    let object = absorber(3, 4, 5);
    assert_eq!(
        get_object_scope(&object),
        ((from_pixels(3), from_pixels(4)), Some(from_pixels(5)))
    );
    let plain = RaytracerObjects::ObjectCircle(circle(-1, -2, 0));
    assert_eq!(get_object_scope(&plain), ((from_pixels(-1), from_pixels(-2)), Some(0)));
}

#[test]
fn an_absorber_in_the_way_cuts_one_ray_of_the_emitter() {
    let mut scene = Scene::new();
    let extent = canvas();
    assert_eq!(
        add_object_to_scene(&mut scene, "emitter_isotropic", from_pixels(50), from_pixels(50), &extent),
        Ok(())
    );
    assert_eq!(add_object_to_collection(&mut scene, absorber(150, 50, 20)), Ok(()));
    let whole = init_isotropic_rays(from_pixels(50), from_pixels(50), 32, &extent);
    assert_eq!(rays_of(&scene.objects[0]), &whole);
    check_for_occlusion(&mut scene);
    let rays = rays_of(&scene.objects[0]);
    assert_eq!(rays.len(), 32);
    assert_eq!(ends(&rays[0]), (from_pixels(50), from_pixels(50), from_pixels(130), from_pixels(50)));
    assert!(rays[0].end_x < whole[0].end_x);
    for i in 1..32 {
        assert_eq!(rays[i], whole[i]);
    }
    assert_eq!(scene.objects[1].get_pos(), (from_pixels(150), from_pixels(50)));
    assert_eq!(scene.objects[1].get_radius(), from_pixels(20));
    assert!(scene.is_valid());
}

#[test]
fn a_second_pass_leaves_the_cut_rays_as_they_are() {
    let mut scene = Scene::new();
    let extent = canvas();
    assert_eq!(
        add_object_to_scene(&mut scene, "emitter_isotropic", from_pixels(50), from_pixels(50), &extent),
        Ok(())
    );
    assert_eq!(add_object_to_collection(&mut scene, absorber(150, 50, 20)), Ok(()));
    assert_eq!(add_object_to_collection(&mut scene, absorber(50, 250, 20)), Ok(()));
    assert_eq!(add_object_to_collection(&mut scene, absorber(-50, 50, 20)), Ok(()));
    check_for_occlusion(&mut scene);
    let once = rays_of(&scene.objects[0]).clone();
    assert_eq!(ends(&once[0]), (3276800, 3276800, from_pixels(130), 3276800));
    assert_eq!(ends(&once[8]), (3276800, 3276800, 3276800, from_pixels(230)));
    assert_eq!(ends(&once[16]), (3276800, 3276800, from_pixels(-30), 3276800));
    check_for_occlusion(&mut scene);
    assert_eq!(rays_of(&scene.objects[0]), &once);
}

#[test]
fn plain_circles_and_other_emitters_do_not_cut_rays() {
    let mut scene = Scene::new();
    let extent = canvas();
    assert_eq!(
        add_object_to_scene(&mut scene, "emitter_isotropic", from_pixels(50), from_pixels(50), &extent),
        Ok(())
    );
    assert_eq!(
        add_object_to_scene(&mut scene, "circle_none", from_pixels(150), from_pixels(50), &extent),
        Ok(())
    );
    assert_eq!(
        add_object_to_scene(&mut scene, "emitter_spotlight", from_pixels(50), from_pixels(150), &extent),
        Ok(())
    );
    let before: Vec<Vec<ObjectRay>> =
        vec![rays_of(&scene.objects[0]).clone(), rays_of(&scene.objects[2]).clone()];
    check_for_occlusion(&mut scene);
    assert_eq!(rays_of(&scene.objects[0]), &before[0]);
    assert_eq!(rays_of(&scene.objects[2]), &before[1]);
}

#[test]
fn casting_anew_restores_the_cut_rays() {
    let mut scene = Scene::new();
    let extent = canvas();
    assert_eq!(
        add_object_to_scene(&mut scene, "emitter_isotropic", from_pixels(50), from_pixels(50), &extent),
        Ok(())
    );
    assert_eq!(add_object_to_collection(&mut scene, absorber(150, 50, 20)), Ok(()));
    let whole = rays_of(&scene.objects[0]).clone();
    check_for_occlusion(&mut scene);
    assert_ne!(rays_of(&scene.objects[0]), &whole);
    init_all_rays(&mut scene, &extent);
    assert_eq!(rays_of(&scene.objects[0]), &whole);
    assert_eq!(scene.len(), 2);
}

#[test]
fn an_emitter_without_rays_casts_the_default_number() {
    let mut scene = Scene::new();
    let extent = canvas();
    let bare = EmitterIsotropic::new(circle(10, 10, 50), Vec::new());
    assert_eq!(
        add_object_to_collection(
            &mut scene,
            RaytracerObjects::Emitters(Emitters::EmitterIsotropic(bare))
        ),
        Ok(())
    );
    let seven = EmitterSpotlight::new(
        circle(20, 20, 50),
        init_isotropic_rays(0, 0, 7, &extent),
        0,
        65536,
    );
    assert_eq!(
        add_object_to_collection(
            &mut scene,
            RaytracerObjects::Emitters(Emitters::EmitterSpotlight(seven))
        ),
        Ok(())
    );
    init_all_rays(&mut scene, &extent);
    assert_eq!(
        rays_of(&scene.objects[0]),
        &init_isotropic_rays(from_pixels(10), from_pixels(10), 32, &extent)
    );
    let rays = rays_of(&scene.objects[1]);
    assert_eq!(rays.len(), 7);
    for ray in rays {
        assert_eq!((ray.start_x, ray.start_y), (from_pixels(20), from_pixels(20)));
    }
}

#[test]
fn recomputing_twice_is_recomputing_once() {
    let mut scene = Scene::new();
    let extent = canvas();
    for (kind, x, y) in [
        ("emitter_isotropic", 50, 50),
        ("absorber_perfect", 150, 60),
        ("emitter_collimated", 300, 300),
        ("absorber_perfect", 300, 500),
        ("emitter_spotlight", 10, 700),
        ("circle_none", 400, 400),
        ("absorber_perfect", 480, 120),
    ] {
        assert_eq!(
            add_object_to_scene(&mut scene, kind, from_pixels(x), from_pixels(y), &extent),
            Ok(())
        );
    }
    recompute(&mut scene, &extent);
    let once: Vec<Vec<ObjectRay>> =
        [0, 2, 4].iter().map(|&i| rays_of(&scene.objects[i]).clone()).collect();
    let whole = init_isotropic_rays(from_pixels(50), from_pixels(50), 32, &extent);
    assert_ne!(once[0], whole);
    recompute(&mut scene, &extent);
    for (k, &i) in [0, 2, 4].iter().enumerate() {
        assert_eq!(rays_of(&scene.objects[i]), &once[k]);
    }
    assert!(scene.is_valid());
}

#[test]
fn a_second_pass_changes_nothing_where_a_cut_is_rounded() {
    let extent = canvas();
    let mut scene = Scene::new();
    let rays = vec![
        ObjectRay::new(0, 0, from_pixels(1), from_pixels(2), 65536, objd_ray_color()),
        ObjectRay::new(0, 0, 100, 1, 65536, objd_ray_color()),
        ObjectRay::new(0, 0, 4, 0, 65536, objd_ray_color()),
    ];
    let emitter = EmitterIsotropic::new(circle(0, 0, 1), rays);
    assert_eq!(
        add_object_to_collection(
            &mut scene,
            RaytracerObjects::Emitters(Emitters::EmitterIsotropic(emitter))
        ),
        Ok(())
    );
    assert_eq!(add_object_to_collection(&mut scene, absorber(1, 0, 1)), Ok(()));
    check_for_occlusion(&mut scene);
    let once = rays_of(&scene.objects[0]).clone();
    assert_eq!(ends(&once[0]), (0, 0, 26214, 52428));
    check_for_occlusion(&mut scene);
    assert_eq!(rays_of(&scene.objects[0]), &once);
    recompute(&mut scene, &extent);
    let whole = rays_of(&scene.objects[0]).clone();
    recompute(&mut scene, &extent);
    assert_eq!(rays_of(&scene.objects[0]), &whole);
}

#[test]
fn a_second_pass_changes_nothing_for_an_emitter_inside_an_absorber() {
    let mut scene = Scene::new();
    let extent = canvas();
    assert_eq!(
        add_object_to_scene(&mut scene, "emitter_isotropic", from_pixels(50), from_pixels(50), &extent),
        Ok(())
    );
    assert_eq!(add_object_to_collection(&mut scene, absorber(60, 50, 20)), Ok(()));
    check_for_occlusion(&mut scene);
    let once = rays_of(&scene.objects[0]).clone();
    assert_eq!(ends(&once[7]), (3276800, 3276800, 3459155, 4499196));
    assert_eq!(ends(&once[25]), (3276800, 3276800, 3459155, 2054404));
    check_for_occlusion(&mut scene);
    assert_eq!(rays_of(&scene.objects[0]), &once);
}

#[test]
fn the_order_of_the_absorbers_does_not_change_the_pass() {
    let extent = canvas();
    let stops = [absorber(150, 60, 20), absorber(50, 250, 30), absorber(100, 100, 25)];
    let mut results = Vec::new();
    for order in [[0, 1, 2], [2, 1, 0], [1, 0, 2], [1, 2, 0]] {
        let mut scene = Scene::new();
        assert_eq!(
            add_object_to_scene(&mut scene, "emitter_isotropic", from_pixels(50), from_pixels(50), &extent),
            Ok(())
        );
        for index in order {
            assert_eq!(add_object_to_collection(&mut scene, stops[index].duplicate()), Ok(()));
        }
        check_for_occlusion(&mut scene);
        results.push(rays_of(&scene.objects[0]).clone());
    }
    let whole = init_isotropic_rays(from_pixels(50), from_pixels(50), 32, &extent);
    assert_ne!(results[0], whole);
    for result in &results {
        assert_eq!(result, &results[0]);
    }
}

#[test]
fn resizing_the_object_under_the_pointer() {
    let mut scene = Scene::new();
    let extent = canvas();
    assert_eq!(add_object_to_scene(&mut scene, "circle_none", 0, 0, &extent), Ok(()));
    assert_eq!(
        add_object_to_scene(&mut scene, "emitter_isotropic", from_pixels(300), 0, &extent),
        Ok(())
    );
    object_change_size(&mut scene, 0, 0, from_pixels(5));
    assert_eq!(scene.objects[0].get_radius(), from_pixels(55));
    assert_eq!(scene.objects[1].get_radius(), from_pixels(50));
    object_change_size(&mut scene, 0, 0, from_pixels(-100));
    assert_eq!(scene.objects[0].get_radius(), 0);
    object_change_size(&mut scene, from_pixels(300), 0, from_pixels(-5));
    assert_eq!(scene.objects[1].get_radius(), from_pixels(45));
    object_change_size(&mut scene, from_pixels(300), 0, from_pixels(-100));
    assert_eq!(scene.objects[1].get_radius(), from_pixels(30));
    object_change_size(&mut scene, from_pixels(300), 0, from_pixels(-1));
    assert_eq!(scene.objects[1].get_radius(), from_pixels(30));
    object_change_size(&mut scene, from_pixels(300), from_pixels(700), from_pixels(5));
    assert_eq!(scene.objects[0].get_radius(), 0);
    assert_eq!(scene.objects[1].get_radius(), from_pixels(30));
    assert!(scene.is_valid());
}

#[test]
fn enlarging_adds_the_factor_and_reducing_stops_at_the_floor() {
    let mut plain = circle(0, 0, 10);
    plain.change_radius((1 << 30) - from_pixels(10));
    assert_eq!(plain.get_radius(), 1 << 30);
    plain.change_radius(i64::MIN);
    assert_eq!(plain.get_radius(), 0);
    plain.change_radius(7);
    assert_eq!(plain.get_radius(), 7);
    plain.change_radius(-7);
    assert_eq!(plain.get_radius(), 0);
    plain.change_radius(-7);
    assert_eq!(plain.get_radius(), 0);
    let mut stop = Absorbers::AbsorberPerfect(AbsorberPerfect::new(circle(0, 0, 10)));
    stop.change_radius(from_pixels(-3));
    assert_eq!(stop.get_radius(), from_pixels(7));
    stop.change_radius(from_pixels(-8));
    assert_eq!(stop.get_radius(), 0);
    stop.change_radius(from_pixels(2));
    assert_eq!(stop.get_radius(), from_pixels(2));
    let mut light = Emitters::EmitterIsotropic(EmitterIsotropic::new(circle(0, 0, 10), Vec::new()));
    light.change_radius(from_pixels(5));
    assert_eq!(light.get_radius(), from_pixels(15));
    light.change_radius(from_pixels(-5));
    assert_eq!(light.get_radius(), from_pixels(15));
    light.change_radius(from_pixels(20));
    assert_eq!(light.get_radius(), from_pixels(35));
    light.change_radius(from_pixels(-1));
    assert_eq!(light.get_radius(), from_pixels(34));
    light.change_radius(i64::MIN);
    assert_eq!(light.get_radius(), from_pixels(30));
    light.change_radius(0);
    assert_eq!(light.get_radius(), from_pixels(30));
    light.change_radius((1 << 30) - from_pixels(30));
    assert_eq!(light.get_radius(), 1 << 30);
}

#[test]
fn turning_the_object_under_the_pointer() {
    let mut scene = Scene::new();
    let extent = canvas();
    assert_eq!(add_object_to_scene(&mut scene, "emitter_collimated", 0, 0, &extent), Ok(()));
    assert_eq!(
        add_object_to_scene(&mut scene, "circle_none", from_pixels(300), 0, &extent),
        Ok(())
    );
    object_change_orientation(&mut scene, 0, 0, 102944, &extent);
    match &scene.objects[0] {
        RaytracerObjects::Emitters(Emitters::EmitterCollimated(e)) => {
            assert_eq!(e.orientation, 102944);
            assert_eq!(e.base_emitter.rays.len(), 32);
            assert_eq!(ends(&e.base_emitter.rays[15]), (105704, 0, 105704, from_pixels(800)));
            assert_eq!(ends(&e.base_emitter.rays[16]), (-105703, 0, -105703, from_pixels(800)));
        }
        _ => panic!("not a collimated emitter"),
    }
    object_change_orientation(&mut scene, 0, 0, -102945, &extent);
    match &scene.objects[0] {
        RaytracerObjects::Emitters(Emitters::EmitterCollimated(e)) => {
            assert_eq!(e.orientation, 411775)
        }
        _ => panic!("not a collimated emitter"),
    }
    object_change_orientation(&mut scene, from_pixels(300), 0, 5, &extent);
    assert_eq!(scene.objects[1].get_pos(), (from_pixels(300), 0));
    assert!(scene.is_valid());
}

#[test]
fn moving_an_object_casts_its_rays_from_the_new_place() {
    let extent = canvas();
    let mut plain = RaytracerObjects::ObjectCircle(circle(0, 0, 10));
    plain.move_object(5, 6, &extent);
    assert_eq!(plain.get_pos(), (5, 6));
    assert_eq!(plain.get_radius(), from_pixels(10));
    let mut stop = absorber(0, 0, 10);
    stop.move_object(-5, -6, &extent);
    assert_eq!(stop.get_pos(), (-5, -6));
    let collimated = EmitterCollimated::new(circle(0, 0, 50), Vec::new(), 0, from_pixels(90));
    let mut light = RaytracerObjects::Emitters(Emitters::EmitterCollimated(collimated));
    light.move_object(from_pixels(100), from_pixels(100), &extent);
    assert_eq!(light.get_pos(), (from_pixels(100), from_pixels(100)));
    assert_eq!(rays_of(&light).len(), 32);
    let mut four = RaytracerObjects::Emitters(Emitters::EmitterCollimated(EmitterCollimated::new(
        circle(0, 0, 50),
        init_isotropic_rays(0, 0, 4, &extent),
        0,
        from_pixels(90),
    )));
    four.move_object(from_pixels(100), from_pixels(100), &extent);
    let rays = rays_of(&four);
    assert_eq!(rays.len(), 4);
    assert_eq!(ends(&rays[0]), (6553600, 3604480, 45875200, 3604480));
    assert_eq!(ends(&rays[3]), (6553600, 9502720, 45875200, 9502720));
}

#[test]
fn an_emitter_is_drawn_as_its_circle_and_its_rays() {
    let extent = canvas();
    let base = circle(1, 2, 3);
    let rays = init_isotropic_rays(from_pixels(1), from_pixels(2), 3, &extent);
    let light = RaytracerObjects::Emitters(Emitters::EmitterIsotropic(EmitterIsotropic::new(
        base,
        rays.clone(),
    )));
    let shapes = light.draw_object();
    assert_eq!(shapes.len(), 4);
    assert_eq!(
        shapes[0],
        DrawCommand::Circle {
            x: from_pixels(1),
            y: from_pixels(2),
            radius: from_pixels(3),
            color: objd_circle_fill()
        }
    );
    for i in 0..3 {
        assert_eq!(shapes[i + 1], rays[i].line());
    }
    assert_eq!(absorber(1, 2, 3).draw_object(), vec![shapes[0]]);
    assert_eq!(RaytracerObjects::ObjectCircle(base).draw_object(), vec![shapes[0]]);
    assert_eq!(base.draw_object(), vec![shapes[0]]);
}

#[test]
fn validity_is_checked_at_run_time() {
    assert!(circle(4096, -4096, 16384).is_valid());
    assert!(!circle(4097, 0, 1).is_valid());
    assert!(!ObjectCircle::new(0, 0, objd_circle_fill(), -1).is_valid());
    assert!(!ObjectCircle::new(0, 0, objd_circle_fill(), (1 << 30) + 1).is_valid());
    let extent = canvas();
    let two = Emitters::EmitterIsotropic(EmitterIsotropic::new(
        circle(0, 0, 1),
        init_isotropic_rays(0, 0, 2, &extent),
    ));
    assert!(!two.is_valid());
    let three = Emitters::EmitterIsotropic(EmitterIsotropic::new(
        circle(0, 0, 1),
        init_isotropic_rays(0, 0, 3, &extent),
    ));
    assert!(three.is_valid());
    let none = Emitters::EmitterIsotropic(EmitterIsotropic::new(circle(0, 0, 1), Vec::new()));
    assert!(none.is_valid());
    let narrow = Emitters::EmitterCollimated(EmitterCollimated::new(circle(0, 0, 1), Vec::new(), 0, -1));
    assert!(!narrow.is_valid());
    let mut scene = Scene::new();
    scene.objects.push(RaytracerObjects::Emitters(two));
    assert!(!scene.is_valid());
}

#[test]
fn a_scene_is_drawn_object_after_object() {
    let mut scene = Scene::new();
    assert!(scene.draw_object().is_empty());
    let first = ObjectCircle::new(1, 2, objd_circle_fill(), 3);
    let second = ObjectCircle::new(4, 5, objd_circle_fill(), 6);
    assert_eq!(
        add_object_to_collection(&mut scene, RaytracerObjects::ObjectCircle(first)),
        Ok(())
    );
    assert_eq!(
        add_object_to_scene(&mut scene, "emitter_isotropic", 0, 0, &canvas()),
        Ok(())
    );
    assert_eq!(
        add_object_to_collection(&mut scene, RaytracerObjects::ObjectCircle(second)),
        Ok(())
    );
    let shapes = scene.draw_object();
    assert_eq!(shapes.len(), 1 + 33 + 1);
    assert_eq!(
        shapes[0],
        DrawCommand::Circle { x: 1, y: 2, radius: 3, color: objd_circle_fill() }
    );
    assert_eq!(shapes[1..34].to_vec(), scene.objects[1].draw_object());
    assert_eq!(
        shapes[34],
        DrawCommand::Circle { x: 4, y: 5, radius: 6, color: objd_circle_fill() }
    );
}

#[test]
fn a_copy_of_a_scene_holds_the_same_objects() {
    let mut scene = Scene::new();
    let extent = canvas();
    for (kind, x) in
        [("emitter_spotlight", 100), ("absorber_perfect", 300), ("circle_none", 500)]
    {
        assert_eq!(add_object_to_scene(&mut scene, kind, from_pixels(x), 0, &extent), Ok(()));
    }
    let copy = scene.duplicate();
    assert_eq!(copy.len(), 3);
    assert!(copy.is_valid());
    assert_eq!(copy.draw_object(), scene.draw_object());
    assert!(remove_object_at_index(&mut scene, 1).is_ok());
    assert_eq!(copy.len(), 3);
    assert_eq!(scene.len(), 2);
    match (&copy.objects[0], &copy.objects[0].duplicate()) {
        (RaytracerObjects::Emitters(a), RaytracerObjects::Emitters(b)) => {
            assert_eq!(a.rays(), b.rays());
            assert_eq!(a.base(), b.base());
            assert_eq!(a.duplicate().rays(), a.rays());
        }
        _ => panic!("not an emitter"),
    }
    assert_eq!(copy.objects[1].duplicate().get_pos(), (from_pixels(300), 0));
}
