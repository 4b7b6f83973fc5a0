//! Vector arithmetic and color conversions, on exact fixed-point values.

use ray_trace::color::Color;
use ray_trace::fixed::SCALE;
use ray_trace::ray::Ray;
use ray_trace::vec3::{Point3, Vec3};

fn fp(units: i64) -> i64 {
    units * SCALE
}

#[test]
fn test_neg() {
    {
        let vec3 = Vec3::new(fp(3), fp(5), fp(7));
        assert_eq!(vec3.neg(), Vec3::new(fp(-3), fp(-5), fp(-7)));
    }
    {
        let vec3 = Vec3::new(fp(11), fp(13), fp(17));
        assert_eq!(vec3.neg(), Vec3::new(fp(-11), fp(-13), fp(-17)));
    }
}

#[test]
fn vec3_test_add() {
    {
        let vec3_1 = Vec3::new(fp(3), fp(5), fp(7));
        let vec3_2 = Vec3::new(fp(11), fp(13), fp(17));
        assert_eq!(vec3_1.add(&vec3_2), Vec3::new(fp(14), fp(18), fp(24)));
        assert_eq!(vec3_1.add(&vec3_2), Vec3::new(fp(14), fp(18), fp(24)));
        assert_eq!(vec3_1.add(&vec3_2), Vec3::new(fp(14), fp(18), fp(24)));
        assert_eq!(vec3_1.add(&vec3_2), Vec3::new(fp(14), fp(18), fp(24)));
    }
    {
        let mut vec_lhs = Vec3::new(fp(3), fp(5), fp(7));
        let vec_rhs = Vec3::new(fp(11), fp(13), fp(17));
        vec_lhs = vec_lhs.add(&vec_rhs);
        assert_eq!(vec_lhs, Vec3::new(fp(14), fp(18), fp(24)));
        vec_lhs = vec_lhs.add(&vec_rhs);
        assert_eq!(vec_lhs, Vec3::new(fp(25), fp(31), fp(41)));
    }
}

#[test]
fn test_sub() {
    {
        let vec3_1 = Vec3::new(fp(3), fp(5), fp(7));
        let vec3_2 = Vec3::new(fp(11), fp(13), fp(17));
        assert_eq!(vec3_1.sub(&vec3_2), Vec3::new(fp(-8), fp(-8), fp(-10)));
        assert_eq!(vec3_1.sub(&vec3_2), Vec3::new(fp(-8), fp(-8), fp(-10)));
        assert_eq!(vec3_1.sub(&vec3_2), Vec3::new(fp(-8), fp(-8), fp(-10)));
        assert_eq!(vec3_1.sub(&vec3_2), Vec3::new(fp(-8), fp(-8), fp(-10)));
    }
    {
        let mut vec_lhs = Vec3::new(fp(3), fp(5), fp(7));
        let vec_rhs = Vec3::new(fp(11), fp(13), fp(17));
        vec_lhs = vec_lhs.sub(&vec_rhs);
        assert_eq!(vec_lhs, Vec3::new(fp(-8), fp(-8), fp(-10)));
        vec_lhs = vec_lhs.sub(&vec_rhs);
        assert_eq!(vec_lhs, Vec3::new(fp(-19), fp(-21), fp(-27)));
    }
}

#[test]
fn test_mul_between_f64_and_vec3() {
    {
        let vec3_1 = Vec3::new(fp(3), fp(5), fp(7));
        let vec3_2 = Vec3::new(fp(11), fp(13), fp(17));
        assert_eq!(vec3_1.mul(fp(10)), Vec3::new(fp(30), fp(50), fp(70)));
        assert_eq!(vec3_1.mul(fp(10)), Vec3::new(fp(30), fp(50), fp(70)));
        assert_eq!(vec3_2.mul(fp(10)), Vec3::new(fp(110), fp(130), fp(170)));
        assert_eq!(vec3_2.mul(fp(10)), Vec3::new(fp(110), fp(130), fp(170)));
    }
    {
        let mut vec3 = Vec3::new(fp(3), fp(5), fp(7));
        vec3 = vec3.mul(fp(10));
        assert_eq!(vec3, Vec3::new(fp(30), fp(50), fp(70)));
    }
}

#[test]
fn test_div() {
    {
        let vec3 = Vec3::new(fp(30), fp(50), fp(70));
        assert_eq!(vec3.div(fp(10)), Vec3::new(fp(3), fp(5), fp(7)));
        assert_eq!(vec3.div(fp(10)), Vec3::new(fp(3), fp(5), fp(7)));
    }
    {
        let mut vec3 = Vec3::new(fp(3), fp(5), fp(7));
        vec3 = vec3.div(fp(10));
        assert_eq!(vec3, Vec3::new(300_000, 500_000, 700_000));
    }
}

#[test]
fn test_length_squared() {
    let vec3 = Vec3::new(fp(3), fp(4), fp(0));
    assert_eq!(fp(25), vec3.length_squared());
}

#[test]
fn test_length() {
    let vec3 = Vec3::new(fp(5), fp(12), fp(0));
    assert_eq!(fp(13), vec3.length());
}

#[test]
fn test_dot() {
    let v_1 = Vec3::new(fp(3), fp(5), fp(7));
    let v_2 = Vec3::new(fp(11), fp(13), fp(17));
    assert_eq!(v_1.dot(&v_2), fp(217));
}

#[test]
fn test_cross() {
    let v_1 = Vec3::new(fp(3), fp(5), fp(7));
    let v_2 = Vec3::new(fp(11), fp(13), fp(17));
    assert_eq!(v_1.cross(&v_2), Vec3::new(fp(-6), fp(26), fp(-16)));
}

#[test]
fn test_unit() {
    let v = Vec3::new(fp(3), fp(4), fp(0));
    assert_eq!(v.unit(), Vec3::new(600_000, 800_000, 0));
}

#[test]
fn test_at() {
    let ray = Ray::new(Point3::new(fp(0), fp(1), fp(0)), Vec3::new(fp(1), fp(2), fp(3)));
    assert_eq!(ray.at(fp(2)), Vec3::new(fp(2), fp(5), fp(6)));
}

#[test]
fn test_mul() {
    {
        let c = Color::newf(SCALE, SCALE, SCALE);
        assert_eq!(c.mul(500_000).int_form().r, 127);
    }
    {
        let c = Color::newf(SCALE, SCALE, SCALE);
        assert_eq!(c.mul(400_000).int_form().r, 102);
    }
    {
        let c = Color::newf(SCALE, SCALE, SCALE);
        assert_eq!(c.mul(400_000).int_form().g, 102);
    }
    {
        let c = Color::newf(SCALE, SCALE, SCALE);
        assert_eq!(c.mul(500_000).int_form().b, 127);
    }
}

#[test]
fn color_test_mul() {
    {
        let c = Color::newf(SCALE, SCALE, SCALE);
        assert_eq!(c.mul(500_000).int_form().g, 127);
    }
    {
        let c = Color::newf(SCALE, SCALE, SCALE);
        assert_eq!(c.mul(400_000).int_form().b, 102);
    }
}

#[test]
fn color_test_add() {
    // Black plus white: every channel saturates at the displayable maximum.
    let c_1 = Color::newf(0, 0, 0);
    let c_2 = Color::newf(SCALE, SCALE, SCALE);
    assert_eq!((c_1.add(&c_2)).int_form().r, 255);
    assert_eq!((c_1.add(&c_2)).int_form().g, 255);
    assert_eq!((c_1.add(&c_2)).int_form().b, 255);
}

#[test]
fn color_add_clamps() {
    let c_1 = Color::newf(300_000, 0, 900_000);
    let c_2 = Color::newf(400_000, SCALE, 900_000);
    let sum = c_1.add(&c_2);
    let ints = sum.int_form();
    // 0.3 + 0.4 stays linear; 0.0 + 1.0 and 0.9 + 0.9 clamp at white.
    assert_eq!(ints.r, 178);
    assert_eq!(ints.g, 255);
    assert_eq!(ints.b, 255);
}

#[test]
fn gradient_endpoints_and_midpoint() {
    let black = Color::newf(0, 0, 0);
    let white = Color::newf(SCALE, SCALE, SCALE);
    // The endpoints reproduce the inputs exactly.
    assert_eq!(black.gradient(0, white), black);
    assert_eq!(black.gradient(SCALE, white), white);
    // The midpoint of black and white lands on integer channel 127.
    let mid = black.gradient(SCALE / 2, white);
    let ints = mid.int_form();
    assert_eq!(ints.r, 127);
    assert_eq!(ints.g, 127);
    assert_eq!(ints.b, 127);
}

#[test]
fn mix_mirrors_gradient() {
    let black = Color::newf(0, 0, 0);
    let white = Color::newf(SCALE, SCALE, SCALE);
    // A full-ratio mix keeps the left color; a zero ratio keeps the right.
    assert_eq!(black.mix(SCALE, white), black.gradient(0, white));
    assert_eq!(black.mix(0, white), white.gradient(0, black));
    let mid = black.mix(SCALE / 2, white).int_form();
    assert_eq!(mid.r, 127);
}

#[test]
fn color_round_trip_error_is_small() {
    // Quantizing and scaling back moves a channel by less than one step.
    let mut f: i64 = 0;
    while f <= SCALE {
        let c = Color::newf(f, f, f);
        let back = Color::new(c.int_form().r, c.int_form().g, c.int_form().b).float_form();
        let err = f - back.r;
        assert!(err >= 0);
        assert!(255 * err < SCALE + 255);
        f += 37_123;
    }
}

#[test]
fn color_blend_is_channelwise() {
    let a = Color::newf(500_000, SCALE, 0);
    let b = Color::newf(500_000, 250_000, SCALE);
    let p = a.blend(&b);
    let f = p.float_form();
    assert_eq!(f.r, 250_000);
    assert_eq!(f.g, 250_000);
    assert_eq!(f.b, 0);
}

#[test]
fn into_color_averages_and_gamma() {
    // Four samples of half intensity average back to one half.
    let acc = Vec3::new(4 * 500_000, 4 * 250_000, 0);
    let c = acc.into_color(4, false);
    let f = c.float_form();
    assert_eq!(f.r, 500_000);
    assert_eq!(f.g, 250_000);
    assert_eq!(f.b, 0);
    // Gamma takes the square root: 0.25 becomes 0.5.
    let g = Vec3::new(250_000, 0, SCALE).into_color(1, true);
    let fg = g.float_form();
    assert_eq!(fg.r, 500_000);
    assert_eq!(fg.g, 0);
    assert_eq!(fg.b, SCALE);
}
