use raytracer::color::{objd_circle_fill, objd_ray_color};
use raytracer::fixed::from_pixels;
use raytracer::objects::absorber::{AbsorberPerfect, Absorbers};
use raytracer::objects::circle::ObjectCircle;
use raytracer::objects::occlusion::{cut_ray, occlusion, settle_ray};
use raytracer::objects::ray::ObjectRay;

fn absorber(x: i32, y: i32, radius: i32) -> Absorbers {
    Absorbers::AbsorberPerfect(AbsorberPerfect::new(ObjectCircle::new(
        from_pixels(x),
        from_pixels(y),
        objd_circle_fill(),
        from_pixels(radius),
    )))
}

fn ray(sx: i32, sy: i32, ex: i32, ey: i32) -> ObjectRay {
    ObjectRay::new(
        from_pixels(sx),
        from_pixels(sy),
        from_pixels(ex),
        from_pixels(ey),
        65536,
        objd_ray_color(),
    )
}

fn unit_absorber(x: i64, y: i64, radius: i64) -> Absorbers {
    Absorbers::AbsorberPerfect(AbsorberPerfect::new(ObjectCircle::new(
        x,
        y,
        objd_circle_fill(),
        radius,
    )))
}

#[test]
fn a_ray_through_the_centre_is_struck_on_the_near_side() {
    assert_eq!(
        occlusion(&absorber(150, 50, 20), &ray(50, 50, 650, 50)),
        Some((from_pixels(130), from_pixels(50)))
    );
}

#[test]
fn a_ray_that_passes_beside_the_disk_is_not_struck() {
    assert_eq!(occlusion(&absorber(150, 100, 20), &ray(50, 50, 650, 50)), None);
}

#[test]
fn a_ray_that_runs_away_from_the_disk_is_not_struck() {
    assert_eq!(occlusion(&absorber(-150, 50, 20), &ray(50, 50, 650, 50)), None);
}

#[test]
fn a_ray_that_ends_before_the_disk_is_not_struck() {
    assert_eq!(occlusion(&absorber(150, 50, 20), &ray(50, 50, 120, 50)), None);
}

#[test]
fn a_ray_that_ends_on_the_boundary_is_struck_at_its_end() {
    assert_eq!(
        occlusion(&absorber(150, 50, 20), &ray(50, 50, 130, 50)),
        Some((from_pixels(130), from_pixels(50)))
    );
    assert_eq!(
        occlusion(&absorber(150, 50, 20), &ray(50, 50, 131, 50)),
        Some((from_pixels(130), from_pixels(50)))
    );
}

#[test]
fn a_ray_that_touches_the_disk_is_struck_at_the_point_of_contact() {
    assert_eq!(
        occlusion(&absorber(150, 70, 20), &ray(50, 50, 650, 50)),
        Some((from_pixels(150), from_pixels(50)))
    );
}

#[test]
fn a_ray_that_starts_inside_the_disk_is_struck_where_it_leaves() {
    assert_eq!(
        occlusion(&absorber(0, 0, 20), &ray(0, 0, 100, 0)),
        Some((from_pixels(20), 0))
    );
    assert_eq!(
        occlusion(&absorber(0, 0, 20), &ray(5, 5, 105, 105)),
        Some((926819, 926819))
    );
}

#[test]
fn a_ray_that_stays_inside_the_disk_is_not_struck() {
    assert_eq!(occlusion(&absorber(0, 0, 20), &ray(1, 1, 5, 5)), None);
}

#[test]
fn a_ray_without_length_is_not_struck() {
    assert_eq!(occlusion(&absorber(0, 0, 20), &ray(50, 50, 50, 50)), None);
    assert_eq!(occlusion(&absorber(0, 0, 20), &ray(0, 0, 0, 0)), None);
    assert_eq!(occlusion(&absorber(0, 0, 20), &ray(20, 0, 20, 0)), None);
}

#[test]
fn a_disk_without_radius_strikes_the_ray_through_its_centre() {
    assert_eq!(
        occlusion(&absorber(100, 0, 0), &ray(0, 0, 200, 0)),
        Some((from_pixels(100), 0))
    );
    assert_eq!(occlusion(&absorber(100, 1, 0), &ray(0, 0, 200, 0)), None);
}

#[test]
fn the_point_of_a_slanted_ray_lies_on_the_boundary_but_for_rounding() {
    let hit = occlusion(&absorber(100, 100, 10), &ray(0, 0, 200, 200)).unwrap();
    assert_eq!(hit, (6090190, 6090190));
    let hit = occlusion(&absorber(120, 40, 25), &ray(10, 10, 310, 110)).unwrap();
    assert_eq!(hit, (6229486, 2513402));
}

#[test]
fn every_point_returned_lies_within_four_radii_of_the_squared_radius() {
    let mut seed: u64 = 12345;
    let mut next = move |bound: i64| -> i64 {
        seed = seed.wrapping_mul(6364136223846793005).wrapping_add(1442695040888963407);
        ((seed >> 33) as i64) % bound
    };
    let mut struck = 0;
    for _ in 0..20000 {
        let cx = next(1 << 25) - (1 << 24);
        let cy = next(1 << 25) - (1 << 24);
        let radius = next(1 << 23);
        let sx = next(1 << 26) - (1 << 25);
        let sy = next(1 << 26) - (1 << 25);
        let ex = next(1 << 26) - (1 << 25);
        let ey = next(1 << 26) - (1 << 25);
        let occluder = unit_absorber(cx, cy, radius);
        let segment = ObjectRay::new(sx, sy, ex, ey, 1, objd_ray_color());
        if let Some((hx, hy)) = occlusion(&occluder, &segment) {
            struck += 1;
            let gap = (hx - cx) as i128 * (hx - cx) as i128 + (hy - cy) as i128 * (hy - cy) as i128
                - radius as i128 * radius as i128;
            assert!(-4 * radius as i128 <= gap && gap <= 2 * radius as i128);
            assert!(sx.min(ex) <= hx && hx <= sx.max(ex));
            assert!(sy.min(ey) <= hy && hy <= sy.max(ey));
        }
    }
    assert!(struck > 100);
}

#[test]
fn a_ray_is_cut_where_it_is_struck() {
    let mut segment = ray(50, 50, 650, 50);
    assert!(cut_ray(&mut segment, &vec![absorber(150, 50, 20)]));
    assert_eq!(segment, ray(50, 50, 130, 50));
    assert!(!cut_ray(&mut segment, &vec![absorber(150, 50, 20)]));
    assert_eq!(segment, ray(50, 50, 130, 50));
}

#[test]
fn a_ray_is_not_cut_where_nothing_strikes_it() {
    let mut missed = ray(50, 50, 650, 50);
    assert!(!cut_ray(&mut missed, &vec![absorber(150, 100, 20)]));
    assert_eq!(missed, ray(50, 50, 650, 50));
    assert!(!cut_ray(&mut missed, &Vec::new()));
    assert_eq!(missed, ray(50, 50, 650, 50));
    settle_ray(&mut missed, &vec![absorber(150, 100, 20), absorber(-150, 50, 20)]);
    assert_eq!(missed, ray(50, 50, 650, 50));
}

#[test]
fn the_nearest_of_two_absorbers_cuts_the_ray_in_either_order() {
    let near = absorber(150, 50, 20);
    let far = absorber(300, 50, 20);
    let mut alone = ray(50, 50, 650, 50);
    assert!(cut_ray(&mut alone, &vec![far]));
    assert_eq!(alone, ray(50, 50, 280, 50));
    let mut first = ray(50, 50, 650, 50);
    assert!(cut_ray(&mut first, &vec![far, near]));
    assert_eq!(first, ray(50, 50, 130, 50));
    let mut second = ray(50, 50, 650, 50);
    assert!(cut_ray(&mut second, &vec![near, far]));
    assert_eq!(second, ray(50, 50, 130, 50));
    let mut settled = ray(50, 50, 650, 50);
    settle_ray(&mut settled, &vec![far, near, far]);
    assert_eq!(settled, ray(50, 50, 130, 50));
}

#[test]
fn a_cut_keeps_the_start_the_thickness_and_the_colour() {
    let mut segment = ray(10, 10, 310, 110);
    settle_ray(&mut segment, &vec![absorber(120, 40, 25)]);
    assert_eq!((segment.start_x, segment.start_y), (from_pixels(10), from_pixels(10)));
    assert_eq!((segment.end_x, segment.end_y), (6229486, 2513402));
    assert_eq!(segment.thickness, 65536);
    assert_eq!(segment.color, objd_ray_color());
}

#[test]
fn a_ray_is_cut_again_until_it_is_settled() {
    let stop = vec![unit_absorber(4, 1, 2)];
    let mut once = ObjectRay::new(0, 0, 4, 0, 1, objd_ray_color());
    assert!(cut_ray(&mut once, &stop));
    assert_eq!((once.end_x, once.end_y), (3, 0));
    let mut settled = ObjectRay::new(0, 0, 4, 0, 1, objd_ray_color());
    settle_ray(&mut settled, &stop);
    assert_eq!((settled.end_x, settled.end_y), (2, 0));
    assert!(!cut_ray(&mut settled, &stop));
    settle_ray(&mut settled, &stop);
    assert_eq!((settled.end_x, settled.end_y), (2, 0));
}

#[test]
fn a_settled_ray_does_not_depend_on_the_order_of_the_absorbers() {
    let low = unit_absorber(50, -9, 10);
    let ahead = unit_absorber(59, 0, 10);
    let whole = ObjectRay::new(0, 0, 100, 1, 1, objd_ray_color());
    let mut alone = whole;
    assert!(cut_ray(&mut alone, &vec![low]));
    assert_eq!((alone.end_x, alone.end_y), (47, 0));
    let mut first = whole;
    settle_ray(&mut first, &vec![low, ahead]);
    let mut second = whole;
    settle_ray(&mut second, &vec![ahead, low]);
    assert_eq!((first.end_x, first.end_y), (46, 0));
    assert_eq!(first, second);
    let mut again = first;
    settle_ray(&mut again, &vec![ahead, low]);
    assert_eq!(again, first);
    let mut only = whole;
    settle_ray(&mut only, &vec![low]);
    assert_eq!((only.end_x, only.end_y), (46, 0));
}

#[test]
fn settling_twice_is_settling_once_for_many_rays() {
    let mut seed: u64 = 99;
    let mut next = move |bound: i64| -> i64 {
        seed = seed.wrapping_mul(6364136223846793005).wrapping_add(1442695040888963407);
        ((seed >> 33) as i64) % bound
    };
    let mut cut = 0;
    for _ in 0..3000 {
        let mut stops = Vec::new();
        for _ in 0..3 {
            stops.push(unit_absorber(
                next(1 << 25) - (1 << 24),
                next(1 << 25) - (1 << 24),
                next(1 << 23),
            ));
        }
        let whole = ObjectRay::new(
            next(1 << 26) - (1 << 25),
            next(1 << 26) - (1 << 25),
            next(1 << 26) - (1 << 25),
            next(1 << 26) - (1 << 25),
            1,
            objd_ray_color(),
        );
        let mut once = whole;
        settle_ray(&mut once, &stops);
        let mut twice = once;
        settle_ray(&mut twice, &stops);
        assert_eq!(once, twice);
        assert!(!cut_ray(&mut twice, &stops));
        stops.reverse();
        let mut reversed = whole;
        settle_ray(&mut reversed, &stops);
        assert_eq!(once, reversed);
        assert!(whole.start_x.min(whole.end_x) <= once.end_x);
        assert!(once.end_x <= whole.start_x.max(whole.end_x));
        assert!(whole.start_y.min(whole.end_y) <= once.end_y);
        assert!(once.end_y <= whole.start_y.max(whole.end_y));
        if once != whole {
            cut += 1;
        }
    }
    assert!(cut > 100);
}
