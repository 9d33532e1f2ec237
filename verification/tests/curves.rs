use whoosh::curve::{curve_lerp, parse_point, Point};
use whoosh::error::Error;

fn demo_curve() -> Vec<Point> {
    vec![
        Point { temp: 30000, fan_speed: 51 },
        Point { temp: 60000, fan_speed: 204 },
    ]
}

#[test]
fn parse_point_scales_degrees_and_percent() {
    assert_eq!(parse_point("30C/20%"), Ok(Point { temp: 30000, fan_speed: 51 }));
    assert_eq!(parse_point("60C/80%"), Ok(Point { temp: 60000, fan_speed: 204 }));
    assert_eq!(parse_point("0C/0%"), Ok(Point { temp: 0, fan_speed: 0 }));
    assert_eq!(parse_point("100C/100%"), Ok(Point { temp: 100000, fan_speed: 255 }));
    assert_eq!(parse_point("-10C/50%"), Ok(Point { temp: -10000, fan_speed: 127 }));
}

#[test]
fn parse_point_rejects_malformed_specs() {
    assert_eq!(parse_point(""), Err(Error::InvalidPointSpec));
    assert_eq!(parse_point("30C"), Err(Error::InvalidPointSpec));
    assert_eq!(parse_point("C/%"), Err(Error::InvalidPointSpec));
    assert_eq!(parse_point("30X/20%"), Err(Error::InvalidPointSpec));
    assert_eq!(parse_point("30C/120%"), Err(Error::InvalidPointSpec));
    assert_eq!(parse_point("30C/-5%"), Err(Error::InvalidPointSpec));
    assert_eq!(parse_point("9999999999C/20%"), Err(Error::InvalidPointSpec));
}

#[test]
fn point_text_round_trips() {
    // Writing a degrees/percent pair in the point grammar and parsing it
    // back yields exactly the scaled pair.
    for (t, p) in [(30, 20), (60, 80), (0, 0), (-5, 100), (85, 33)] {
        let text = format!("{}C/{}%", t, p);
        let expected = Point { temp: t * 1000, fan_speed: (p * 255 / 100) as u8 };
        assert_eq!(parse_point(&text), Ok(expected));
    }
}

#[test]
fn lerp_saturates_below_first_point() {
    let curve = demo_curve();
    assert_eq!(curve_lerp(25000, &curve), 51);
    assert_eq!(curve_lerp(30000, &curve), 51);
    assert_eq!(curve_lerp(i32::MIN, &curve), 51);
}

#[test]
fn lerp_saturates_above_last_point() {
    let curve = demo_curve();
    assert_eq!(curve_lerp(60000, &curve), 204);
    assert_eq!(curve_lerp(90000, &curve), 204);
    assert_eq!(curve_lerp(i32::MAX, &curve), 204);
}

#[test]
fn lerp_interpolates_interior_points() {
    let curve = demo_curve();
    // 51 + 15000 * 153 / 30000 = 51 + 76 = 127.
    assert_eq!(curve_lerp(45000, &curve), 127);
    // 51 + 25000 * 153 / 30000 = 51 + 127 = 178.
    assert_eq!(curve_lerp(55000, &curve), 178);
}

#[test]
fn lerp_is_monotone_on_increasing_curves() {
    let curve = vec![
        Point { temp: 20000, fan_speed: 30 },
        Point { temp: 40000, fan_speed: 90 },
        Point { temp: 70000, fan_speed: 255 },
    ];
    let mut last = 0u8;
    let mut t = 15000;
    while t <= 75000 {
        let v = curve_lerp(t, &curve);
        assert!(v >= last);
        last = v;
        t += 500;
    }
}

#[test]
fn lerp_single_point_curve_is_constant() {
    let curve = vec![Point { temp: 50000, fan_speed: 128 }];
    assert_eq!(curve_lerp(0, &curve), 128);
    assert_eq!(curve_lerp(50000, &curve), 128);
    assert_eq!(curve_lerp(99000, &curve), 128);
}

#[test]
fn lerp_handles_decreasing_pwm_windows() {
    let curve = vec![
        Point { temp: 0, fan_speed: 200 },
        Point { temp: 10000, fan_speed: 100 },
    ];
    // 200 - 5000 * 100 / 10000 = 150 (division truncating toward zero).
    assert_eq!(curve_lerp(5000, &curve), 150);
    assert_eq!(curve_lerp(10000, &curve), 100);
}
