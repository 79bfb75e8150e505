//! Vector algebra and scalar utility tests. All values are fixed-point
//! with 65536 raw units to one.

use raytracer::{clamp, cross, dot, reflect, refract, Vec3, SCALE};

const S: i64 = SCALE;

#[test]
fn vec3_new_holds_components() {
    let v = Vec3::new(1, -2, 3);
    assert_eq!(v.x, 1);
    assert_eq!(v.y, -2);
    assert_eq!(v.z, 3);
}

#[test]
fn vec3_add_sub_neg() {
    let u = Vec3::new(S, 2 * S, -3 * S);
    let v = Vec3::new(4 * S, -5 * S, 6 * S);
    assert_eq!(u.add(v), Vec3::new(5 * S, -3 * S, 3 * S));
    assert_eq!(u.sub(v), Vec3::new(-3 * S, 7 * S, -9 * S));
    assert_eq!(u.neg(), Vec3::new(-S, -2 * S, 3 * S));
}

#[test]
fn vec3_component_mul_and_scale() {
    let u = Vec3::new(S, 2 * S, -3 * S);
    let v = Vec3::new(2 * S, S / 2, S);
    assert_eq!(u.mul(v), Vec3::new(2 * S, S, -3 * S));
    assert_eq!(u.scale(2 * S), Vec3::new(2 * S, 4 * S, -6 * S));
    // Truncation rounds toward zero on both signs.
    assert_eq!(Vec3::new(3, -3, 0).scale(S / 2), Vec3::new(1, -1, 0));
}

#[test]
fn vec3_div_uses_reciprocal() {
    let u = Vec3::new(4 * S, -6 * S, 0);
    assert_eq!(u.div(2 * S), Vec3::new(2 * S, -3 * S, 0));
}

#[test]
fn vec3_div_by_negative_divisor() {
    let u = Vec3::new(4 * S, -6 * S, 0);
    assert_eq!(u.div(-2 * S), Vec3::new(-2 * S, 3 * S, 0));
}

#[test]
fn dot_matches_hand_value() {
    let u = Vec3::new(S, 2 * S, 3 * S);
    let v = Vec3::new(4 * S, -5 * S, 6 * S);
    // 4 - 10 + 18 = 12
    assert_eq!(dot(u, v), 12 * S);
}

#[test]
fn dot_of_self_is_length_squared() {
    let v = Vec3::new(3 * S, 4 * S, 12 * S);
    assert_eq!(dot(v, v), v.length_squared());
    let w = Vec3::new(-12345, 6789, 321);
    assert_eq!(dot(w, w), w.length_squared());
}

#[test]
fn length_is_sqrt_of_length_squared() {
    let v = Vec3::new(3 * S, 4 * S, 0);
    assert_eq!(v.length_squared(), 25 * S);
    assert_eq!(v.length(), 5 * S);
    let w = Vec3::new(2 * S, 3 * S, 6 * S);
    assert_eq!(w.length(), 7 * S);
}

#[test]
fn unit_vector_has_length_near_one() {
    let cases = [
        Vec3::new(3 * S, 4 * S, 0),
        Vec3::new(S, S, S),
        Vec3::new(-7 * S, 2 * S, 5 * S),
    ];
    for v in cases {
        let u = v.unit_vector();
        let l = u.length();
        assert!((l - S).abs() <= 16, "unit length {l} too far from one");
    }
    // A vector much shorter than one unit normalizes with a coarser error.
    let tiny = Vec3::new(1000, 2000, -3000).unit_vector();
    assert!((tiny.length() - S).abs() <= 512);
}

#[test]
fn cross_of_axes() {
    let x = Vec3::new(S, 0, 0);
    let y = Vec3::new(0, S, 0);
    assert_eq!(cross(x, y), Vec3::new(0, 0, S));
    assert_eq!(cross(y, x), Vec3::new(0, 0, -S));
}

#[test]
fn reflect_about_y_axis() {
    let v = Vec3::new(S, -S, 0);
    let n = Vec3::new(0, S, 0);
    assert_eq!(reflect(v, n), Vec3::new(S, S, 0));
}

#[test]
fn refract_straight_through_identity_ratio() {
    // Ratio 1: a perpendicular ray passes unbent.
    let r = Vec3::new(0, 0, S);
    let n = Vec3::new(0, 0, -S);
    assert_eq!(refract(r, n, S), Vec3::new(0, 0, S));
}

#[test]
fn near_zero_threshold() {
    assert!(Vec3::new(0, 0, 0).near_zero());
    assert!(!Vec3::new(1, 0, 0).near_zero());
    assert!(!Vec3::new(0, 0, -1).near_zero());
}

#[test]
fn clamp_bounds() {
    assert_eq!(clamp(5, 0, 3), 3);
    assert_eq!(clamp(-1, 0, 3), 0);
    assert_eq!(clamp(2, 0, 3), 2);
}

#[test]
fn random_components_in_unit_cube() {
    for _ in 0..32 {
        let v = Vec3::new_random();
        assert!(0 <= v.x && v.x < S);
        assert!(0 <= v.y && v.y < S);
        assert!(0 <= v.z && v.z < S);
    }
}

#[test]
fn random_bounded_in_range() {
    for _ in 0..32 {
        let v = Vec3::new_random_bounded(-5 * S, 10 * S);
        assert!(-5 * S <= v.x && v.x < 10 * S);
        assert!(-5 * S <= v.y && v.y < 10 * S);
        assert!(-5 * S <= v.z && v.z < 10 * S);
    }
}

#[test]
fn random_in_unit_sphere_is_interior() {
    for _ in 0..32 {
        let v = Vec3::new_random_in_unit_sphere();
        let d = dot(v, v);
        assert!(S / 4 <= d && d < S);
        assert!(-S < v.x && v.x < S);
        assert!(-S < v.y && v.y < S);
        assert!(-S < v.z && v.z < S);
    }
}

#[test]
fn random_in_unit_sphere_covers_all_signs() {
    // Over enough draws every axis must produce a negative component:
    // samples fill the whole ball, not one octant.
    let mut neg = [false; 3];
    for _ in 0..256 {
        let v = Vec3::new_random_in_unit_sphere();
        neg[0] |= v.x < 0;
        neg[1] |= v.y < 0;
        neg[2] |= v.z < 0;
    }
    assert!(neg[0] && neg[1] && neg[2]);
}

#[test]
fn random_in_hemisphere_aligns_with_normal() {
    let n = Vec3::new(0, S, 0);
    for _ in 0..32 {
        let v = Vec3::new_random_in_hemisphere(n);
        assert!(dot(v, n) >= 0);
    }
}

#[test]
fn random_unit_vector_is_normalized() {
    for _ in 0..32 {
        let v = Vec3::new_random_unit_vector();
        assert!((v.length() - S).abs() <= 64);
    }
}
