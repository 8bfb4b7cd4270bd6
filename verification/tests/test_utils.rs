use sdl2sketch::utils::constrain;
use sdl2sketch::utils::constrain_rat;
use sdl2sketch::utils::hsv_to_rgb;
use sdl2sketch::utils::norm;
use sdl2sketch::utils::rgb_to_hsv;
use sdl2sketch::utils::Rat;

#[test]
fn test_constrain() {
    assert_eq!(constrain(15, 10, 20), 15);
    assert_eq!(constrain(9, 10, 20), 10);
    assert_eq!(constrain(100, 10, 20), 20);
}

#[test]
fn test_map() {
    assert_eq!(
        sdl2sketch::utils::map(
            Rat::new(1, 1),
            Rat::new(0, 1),
            Rat::new(10, 1),
            Rat::new(0, 1),
            Rat::new(100, 1)
        ),
        Rat::new(10, 1)
    );
    assert_eq!(
        sdl2sketch::utils::map(
            Rat::new(1, 1),
            Rat::new(0, 1),
            Rat::new(10, 1),
            Rat::new(100, 1),
            Rat::new(0, 1)
        ),
        Rat::new(90, 1)
    );
    assert_eq!(
        sdl2sketch::utils::map(
            Rat::new(1, 1),
            Rat::new(10, 1),
            Rat::new(0, 1),
            Rat::new(0, 1),
            Rat::new(100, 1)
        ),
        Rat::new(90, 1)
    );
    assert_eq!(
        sdl2sketch::utils::map(
            Rat::new(0, 1),
            Rat::new(-1, 1),
            Rat::new(1, 1),
            Rat::new(0, 1),
            Rat::new(100, 1)
        ),
        Rat::new(50, 1)
    );
    assert_eq!(
        sdl2sketch::utils::map(
            Rat::new(0, 1),
            Rat::new(-1, 1),
            Rat::new(1, 1),
            Rat::new(0, 1),
            Rat::new(-100, 1)
        ),
        Rat::new(-50, 1)
    );
    assert_eq!(
        sdl2sketch::utils::map(
            Rat::new(8, 1),
            Rat::new(0, 1),
            Rat::new(10, 1),
            Rat::new(-10, 1),
            Rat::new(0, 1)
        ),
        Rat::new(-2, 1)
    );
    assert_eq!(
        sdl2sketch::utils::map(
            Rat::new(8, 1),
            Rat::new(0, 1),
            Rat::new(10, 1),
            Rat::new(0, 1),
            Rat::new(-10, 1)
        ),
        Rat::new(-8, 1)
    );
    assert_eq!(
        sdl2sketch::utils::map(
            Rat::new(15, 1),
            Rat::new(0, 1),
            Rat::new(10, 1),
            Rat::new(0, 1),
            Rat::new(100, 1)
        ),
        Rat::new(150, 1)
    );
    assert_eq!(
        sdl2sketch::utils::map(
            Rat::new(-1, 1),
            Rat::new(0, 1),
            Rat::new(10, 1),
            Rat::new(0, 1),
            Rat::new(100, 1)
        ),
        Rat::new(-10, 1)
    );
}

#[test]
fn test_norm() {
    assert_eq!(
        norm(Rat::new(11, 1), Rat::new(10, 1), Rat::new(20, 1)),
        Rat::new(1, 10)
    );
    assert_eq!(
        norm(Rat::new(10, 1), Rat::new(10, 1), Rat::new(20, 1)),
        Rat::new(0, 1)
    );
    assert_eq!(
        norm(Rat::new(20, 1), Rat::new(10, 1), Rat::new(20, 1)),
        Rat::new(1, 1)
    );
    assert_eq!(
        norm(Rat::new(-15, 1), Rat::new(-20, 1), Rat::new(-10, 1)),
        Rat::new(1, 2)
    );
    assert_eq!(
        norm(Rat::new(1, 1), Rat::new(-5, 1), Rat::new(5, 1)),
        Rat::new(3, 5)
    );
    assert_eq!(
        norm(Rat::new(9, 1), Rat::new(10, 1), Rat::new(20, 1)),
        Rat::new(-1, 10)
    );
    assert_eq!(
        norm(Rat::new(25, 1), Rat::new(10, 1), Rat::new(20, 1)),
        Rat::new(3, 2)
    );
}

#[test]
fn test_hsv_to_rgb() {
    let zero = Rat::new(0, 1);
    let one = Rat::new(1, 1);
    let half = Rat::new(1, 2);
    let three_quarters = Rat::new(3, 4);
    assert_eq!(hsv_to_rgb(0, zero, zero), (0, 0, 0)); // Black
    assert_eq!(hsv_to_rgb(0, zero, one), (255, 255, 255)); // White
    assert_eq!(hsv_to_rgb(0, one, one), (255, 0, 0)); // Red
    assert_eq!(hsv_to_rgb(120, one, one), (0, 255, 0)); // Lime
    assert_eq!(hsv_to_rgb(240, one, one), (0, 0, 255)); // Blue
    assert_eq!(hsv_to_rgb(60, one, one), (255, 255, 0)); // Yellow
    assert_eq!(hsv_to_rgb(180, one, one), (0, 255, 255)); // Cyan
    assert_eq!(hsv_to_rgb(300, one, one), (255, 0, 255)); // Magenta
    assert_eq!(hsv_to_rgb(0, zero, three_quarters), (192, 192, 192)); // Silver
    assert_eq!(hsv_to_rgb(0, zero, half), (128, 128, 128)); // Gray
    assert_eq!(hsv_to_rgb(0, one, half), (128, 0, 0)); // Maroon
    assert_eq!(hsv_to_rgb(60, one, half), (128, 128, 0)); // Olive
    assert_eq!(hsv_to_rgb(120, one, half), (0, 128, 0)); // Green
    assert_eq!(hsv_to_rgb(300, one, half), (128, 0, 128)); // Purple
    assert_eq!(hsv_to_rgb(180, one, half), (0, 128, 128)); // Teal
    assert_eq!(hsv_to_rgb(240, one, half), (0, 0, 128)); // Navy
}

#[test]
fn test_rgb_to_hsv() {
    let zero = Rat::new(0, 1);
    let one = Rat::new(1, 1);
    // The value channel is exactly max/255, so the half-intensity rows
    // recover 128/255 (not exactly one half) and the silver row 192/255.
    let v128 = Rat::new(128, 255);
    let v192 = Rat::new(192, 255);
    assert_eq!(rgb_to_hsv(0, 0, 0), (0, zero, zero)); // Black
    assert_eq!(rgb_to_hsv(255, 255, 255), (0, zero, one)); // White
    assert_eq!(rgb_to_hsv(255, 0, 0), (0, one, one)); // Red
    assert_eq!(rgb_to_hsv(0, 255, 0), (120, one, one)); // Lime
    assert_eq!(rgb_to_hsv(0, 0, 255), (240, one, one)); // Blue
    assert_eq!(rgb_to_hsv(255, 255, 0), (60, one, one)); // Yellow
    assert_eq!(rgb_to_hsv(0, 255, 255), (180, one, one)); // Cyan
    assert_eq!(rgb_to_hsv(255, 0, 255), (300, one, one)); // Magenta
    assert_eq!(rgb_to_hsv(192, 192, 192), (0, zero, v192)); // Silver
    assert_eq!(rgb_to_hsv(128, 128, 128), (0, zero, v128)); // Gray
    assert_eq!(rgb_to_hsv(128, 0, 0), (0, one, v128)); // Maroon
    assert_eq!(rgb_to_hsv(128, 128, 0), (60, one, v128)); // Olive
    assert_eq!(rgb_to_hsv(0, 128, 0), (120, one, v128)); // Green
    assert_eq!(rgb_to_hsv(128, 0, 128), (300, one, v128)); // Purple
    assert_eq!(rgb_to_hsv(0, 128, 128), (180, one, v128)); // Teal
    assert_eq!(rgb_to_hsv(0, 0, 128), (240, one, v128)); // Navy
}

#[test]
fn map_identity_on_same_range() {
    // mapping onto the source range returns the value unchanged
    for x in [-7i64, 0, 3, 12, 99] {
        assert_eq!(
            sdl2sketch::utils::map(
                Rat::new(x, 1),
                Rat::new(-20, 1),
                Rat::new(30, 1),
                Rat::new(-20, 1),
                Rat::new(30, 1)
            ),
            Rat::new(x, 1)
        );
    }
    assert_eq!(
        sdl2sketch::utils::map(
            Rat::new(7, 3),
            Rat::new(0, 1),
            Rat::new(10, 1),
            Rat::new(0, 1),
            Rat::new(10, 1)
        ),
        Rat::new(7, 3)
    );
}

#[test]
fn norm_equals_map_to_unit_range() {
    let cases = [(11i64, 10i64, 20i64), (-3, -5, 5), (25, 10, 20), (9, 10, 20)];
    for (x, a, b) in cases {
        assert_eq!(
            norm(Rat::new(x, 1), Rat::new(a, 1), Rat::new(b, 1)),
            sdl2sketch::utils::map(
                Rat::new(x, 1),
                Rat::new(a, 1),
                Rat::new(b, 1),
                Rat::new(0, 1),
                Rat::new(1, 1)
            )
        );
    }
}

#[test]
fn constrain_boundaries() {
    assert_eq!(constrain(10, 10, 20), 10);
    assert_eq!(constrain(20, 10, 20), 20);
    assert_eq!(constrain(-5, -3, 3), -3);
    assert_eq!(constrain(i32::MAX, i32::MIN, i32::MAX), i32::MAX);
}

#[test]
fn constrain_rat_clamps_fractions() {
    // 9.9 clamped into [10, 20] is 10
    assert_eq!(
        constrain_rat(Rat::new(99, 10), Rat::new(10, 1), Rat::new(20, 1)),
        Rat::new(10, 1)
    );
    assert_eq!(
        constrain_rat(Rat::new(15, 1), Rat::new(10, 1), Rat::new(20, 1)),
        Rat::new(15, 1)
    );
    assert_eq!(
        constrain_rat(Rat::new(41, 2), Rat::new(10, 1), Rat::new(20, 1)),
        Rat::new(20, 1)
    );
    assert_eq!(
        constrain_rat(Rat::new(-1, 3), Rat::new(-1, 4), Rat::new(1, 4)),
        Rat::new(-1, 4)
    );
}

#[test]
fn hsv_wraps_beyond_full_circle() {
    let one = Rat::new(1, 1);
    assert_eq!(hsv_to_rgb(360, one, one), hsv_to_rgb(0, one, one));
    assert_eq!(hsv_to_rgb(480, one, one), hsv_to_rgb(120, one, one));
}

#[test]
fn hsv_intermediate_hue() {
    let one = Rat::new(1, 1);
    // 30 degrees: full red, half green (rounded up from 127.5), no blue
    assert_eq!(hsv_to_rgb(30, one, one), (255, 128, 0));
    // and the hue is recovered by the inverse conversion
    let (h, s, v) = rgb_to_hsv(255, 128, 0);
    assert_eq!(h, 30);
    assert_eq!(s, one);
    assert_eq!(v, one);
}

#[test]
fn hsv_round_trip_within_tolerance() {
    // the value channel comes back within the ceiling rounding step 1/255,
    // the saturation within 2/255, and the hue within one degree
    let cases = [
        (0u16, 1i64, 1i64, 1i64, 1i64),
        (45, 1, 2, 3, 4),
        (100, 9, 10, 1, 2),
        (200, 1, 3, 2, 3),
        (310, 4, 5, 9, 10),
    ];
    for (h, sn, sd, vn, vd) in cases {
        let s = Rat::new(sn, sd);
        let v = Rat::new(vn, vd);
        let (r, g, b) = hsv_to_rgb(h, s, v);
        let (h2, s2, v2) = rgb_to_hsv(r, g, b);
        let dh = (h as i32 - h2 as i32).abs();
        assert!(dh <= 1 || dh >= 359, "hue {} came back as {}", h, h2);
        // |v2 - v| < 1/255  <=>  |v2.num * v.den - v.num * v2.den| * 255 < v.den * v2.den
        let dv = (v2.num * v.den - v.num * v2.den).abs() * 255;
        assert!(dv < v.den * v2.den, "value {}/{} came back as {}/{}", vn, vd, v2.num, v2.den);
        let ds = (s2.num * s.den - s.num * s2.den).abs() * 255;
        assert!(ds < 2 * s.den * s2.den, "sat {}/{} came back as {}/{}", sn, sd, s2.num, s2.den);
    }
}

#[test]
fn hsv_saturated_hue_round_trip_is_exact() {
    // for fully saturated, full-value colors every hue survives the
    // round trip unchanged
    let one = Rat::new(1, 1);
    for h in 0..360u16 {
        let (r, g, b) = hsv_to_rgb(h, one, one);
        let (h2, _, _) = rgb_to_hsv(r, g, b);
        assert_eq!(h2, h, "hue {} came back as {}", h, h2);
    }
}

#[test]
fn rat_normalizes_to_lowest_terms() {
    assert_eq!(Rat::new(2, 4), Rat::new(1, 2));
    assert_eq!(Rat::new(-6, -8), Rat::new(3, 4));
    assert_eq!(Rat::new(5, -10), Rat::new(-1, 2));
    assert_eq!(Rat::new(0, -7), Rat::new(0, 1));
    let r = Rat::new(10, 4);
    assert_eq!(r.num, 5);
    assert_eq!(r.den, 2);
}
