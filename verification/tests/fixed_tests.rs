use raytracer::fixed::{floor_div, from_pixels, isqrt, round_div_exec, scale_exec, ONE};
use raytracer::helpers::object_utils::linspace;
use raytracer::objects::utils::vec_to_coords;
use raytracer::trig::{
    cos_fixed, cos_sin, sin_fixed, FULL_TURN, HALF_TURN, OCTANT, QUARTER_TURN,
};

#[test]
fn one_pixel_is_one_unit_of_the_scale() {
    assert_eq!(ONE, 65536);
    assert_eq!(from_pixels(1), 65536);
    assert_eq!(from_pixels(600), 39321600);
    assert_eq!(from_pixels(-3), -196608);
    assert_eq!(from_pixels(0), 0);
}

#[test]
fn floor_div_rounds_towards_minus_infinity() {
    assert_eq!(floor_div(7, 2), 3);
    assert_eq!(floor_div(-7, 2), -4);
    assert_eq!(floor_div(-8, 2), -4);
    assert_eq!(floor_div(0, 5), 0);
    assert_eq!(floor_div(-1, 65536), -1);
    assert_eq!(floor_div(65535, 65536), 0);
}

#[test]
fn round_div_rounds_to_the_nearest_and_halves_up() {
    assert_eq!(round_div_exec(7, 2), 4);
    assert_eq!(round_div_exec(5, 2), 3);
    assert_eq!(round_div_exec(-5, 2), -2);
    assert_eq!(round_div_exec(-7, 2), -3);
    assert_eq!(round_div_exec(10, 4), 3);
    assert_eq!(round_div_exec(9, 4), 2);
    assert_eq!(round_div_exec(-9, 4), -2);
    assert_eq!(round_div_exec(0, 7), 0);
}

#[test]
fn scale_multiplies_fixed_point_numbers() {
    assert_eq!(scale_exec(65536, 39321600), 39321600);
    assert_eq!(scale_exec(-65536, 39321600), -39321600);
    assert_eq!(scale_exec(32768, 39321600), 19660800);
    assert_eq!(scale_exec(1, 65535), 0);
    assert_eq!(scale_exec(-1, 65535), -1);
    assert_eq!(scale_exec(0, 12345), 0);
}

#[test]
fn isqrt_is_the_square_root_rounded_down() {
    assert_eq!(isqrt(0), 0);
    assert_eq!(isqrt(1), 1);
    assert_eq!(isqrt(3), 1);
    assert_eq!(isqrt(4), 2);
    assert_eq!(isqrt(99), 9);
    assert_eq!(isqrt(100), 10);
    assert_eq!(isqrt(1_000_000_000_000_000_000_000_000_000_000), 1_000_000_000_000_000);
    assert_eq!(isqrt(u128::MAX), 18446744073709551615);
}

#[test]
fn isqrt_brackets_its_argument() {
    let mut n: u128 = 1;
    for _ in 0..120 {
        let r = isqrt(n);
        assert!(r * r <= n);
        assert!((r + 1) * (r + 1) > n);
        n = n * 2 + 1;
    }
}

#[test]
fn the_axes_are_exact() {
    assert_eq!(cos_sin(0), (65536, 0));
    assert_eq!(cos_sin(QUARTER_TURN), (0, 65536));
    assert_eq!(cos_sin(HALF_TURN), (-65536, 0));
    assert_eq!(cos_sin(3 * QUARTER_TURN), (0, -65536));
    assert_eq!(cos_sin(FULL_TURN), (65536, 0));
    assert_eq!(cos_sin(-QUARTER_TURN), (0, -65536));
}

#[test]
fn sine_and_cosine_of_known_angles() {
    assert_eq!(cos_sin(65536), (35409, 55146));
    assert_eq!(cos_sin(-65536), (35409, -55146));
    assert_eq!(cos_sin(34314), (56756, 32768));
    assert_eq!(cos_sin(12868), (64277, 12785));
    assert_eq!(cos_sin(25736), (60547, 25080));
    assert_eq!(cos_sin(OCTANT), (46341, 46341));
    assert_eq!(cos_sin(OCTANT + 1), (46340, 46341));
    assert_eq!(cos_sin(QUARTER_TURN - 1), (1, 65536));
    assert_eq!(cos_sin(1), (65536, 1));
    assert_eq!(cos_sin(-1), (65536, -1));
    assert_eq!(cos_fixed(65536), 35409);
    assert_eq!(sin_fixed(65536), 55146);
}

#[test]
fn sine_and_cosine_repeat_after_a_full_turn() {
    let mut angle: i64 = -900_000;
    while angle < 900_000 {
        assert_eq!(cos_sin(angle), cos_sin(angle + FULL_TURN));
        assert_eq!(cos_sin(angle), cos_sin(angle - 3 * FULL_TURN));
        angle += 7919;
    }
    assert_eq!(cos_sin(i64::MAX), cos_sin(i64::MAX % FULL_TURN));
    assert_eq!(cos_sin(i64::MIN), cos_sin(i64::MIN.rem_euclid(FULL_TURN)));
}

#[test]
fn sine_and_cosine_stay_within_one() {
    let mut angle: i64 = -500_000;
    while angle < 500_000 {
        let (c, s) = cos_sin(angle);
        assert!(-65536 <= c && c <= 65536);
        assert!(-65536 <= s && s <= 65536);
        angle += 101;
    }
}

#[test]
fn sine_and_cosine_follow_the_true_functions() {
    let mut angle: i64 = 0;
    while angle < FULL_TURN {
        let (c, s) = cos_sin(angle);
        let t = angle as f64 / FULL_TURN as f64 * 2.0 * std::f64::consts::PI;
        assert!((c as f64 - 65536.0 * t.cos()).abs() < 1.0);
        assert!((s as f64 - 65536.0 * t.sin()).abs() < 1.0);
        angle += 53;
    }
}

#[test]
fn the_direction_vector_has_nearly_unit_length() {
    let mut angle: i64 = 0;
    while angle < FULL_TURN {
        let (c, s) = cos_sin(angle);
        let norm = ((c * c + s * s) as f64).sqrt();
        assert!((norm - 65536.0).abs() < 1.5);
        angle += 211;
    }
}

#[test]
fn linspace_needs_two_samples() {
    assert_eq!(linspace(0, 10, 1), None);
    assert_eq!(linspace(0, 10, 0), None);
    assert_eq!(linspace(0, 10, -5), None);
    assert_eq!(linspace(0, 10, i32::MIN), None);
}

#[test]
fn linspace_of_two_is_the_two_ends() {
    assert_eq!(linspace(-3, 9, 2), Some(vec![-3, 9]));
    assert_eq!(linspace(9, -3, 2), Some(vec![9, -3]));
    assert_eq!(linspace(i64::MIN, i64::MAX, 2), Some(vec![i64::MIN, i64::MAX]));
}

#[test]
fn linspace_spaces_evenly_and_rounds_down() {
    assert_eq!(linspace(0, 10, 5), Some(vec![0, 2, 5, 7, 10]));
    assert_eq!(linspace(10, 0, 5), Some(vec![10, 7, 5, 2, 0]));
    assert_eq!(linspace(-7, 8, 4), Some(vec![-7, -2, 3, 8]));
    assert_eq!(linspace(3, 3, 3), Some(vec![3, 3, 3]));
    assert_eq!(linspace(0, 1, 3), Some(vec![0, 0, 1]));
    assert_eq!(linspace(0, -1, 3), Some(vec![0, -1, -1]));
}

#[test]
fn linspace_keeps_both_ends_for_any_count() {
    for n in 2..40 {
        let points = linspace(-34314, 34314, n).unwrap();
        assert_eq!(points.len(), n as usize);
        assert_eq!(points[0], -34314);
        assert_eq!(points[n as usize - 1], 34314);
        for i in 1..points.len() {
            let step = points[i] - points[i - 1];
            assert!(step == 68628 / (n as i64 - 1) || step == 68628 / (n as i64 - 1) + 1);
        }
    }
}

#[test]
fn vec_to_coords_runs_from_the_start_along_the_angle() {
    let start = (from_pixels(400), from_pixels(300));
    let reach = (from_pixels(600), from_pixels(800));
    assert_eq!(vec_to_coords(0, reach, start), (26214400, 19660800, 65536000, 19660800));
    assert_eq!(
        vec_to_coords(QUARTER_TURN, reach, start),
        (26214400, 19660800, 26214400, 58982400)
    );
    assert_eq!(
        vec_to_coords(65536, reach, start),
        (26214400, 19660800, 26214400 + 21245400, 19660800 + 33087600)
    );
}
