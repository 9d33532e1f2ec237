//! Piecewise-linear fan curves: the `Point` type, well-formedness, and the
//! `curve_lerp` evaluator mapping a temperature in milli-degrees Celsius to
//! a PWM duty value on the kernel's 0-255 scale.

use vstd::prelude::*;
use vstd::arithmetic::div_mod::lemma_div_is_ordered;
use vstd::arithmetic::div_mod::lemma_div_pos_is_pos;
use vstd::string::StrSliceExecFns;
use crate::arith::lemma_div_bound;
use crate::error::Error;
use crate::text::find_char;
use crate::text::find_char_at;
use crate::text::int_str_val;
use crate::text::is_digit;
use crate::text::lemma_find_char_first;
use crate::text::lemma_spec_int_str;
use crate::text::lemma_strip_trailing_once;
use crate::text::parse_i32;
use crate::text::spec_int_str;
use crate::text::strip_trailing;
use crate::text::strip_trailing_end;
use crate::text::valid_int_str;

verus! {

/// One anchor point of a fan curve: a temperature in milli-degrees Celsius
/// and the PWM duty value (0-255) the fan should run at from there on.
#[derive(Clone, Copy, Debug, PartialEq, Eq, Structural)]
pub struct Point {
    pub temp: i32,
    pub fan_speed: u8,
}

/// A curve is well-formed when it has at least one point and its
/// temperatures are strictly increasing along the sequence.
pub open spec fn curve_wf(c: Seq<Point>) -> bool {
    &&& c.len() > 0
    &&& forall|i: int, j: int| 0 <= i < j < c.len() ==> c[i].temp < c[j].temp
}

/// The PWM values of the curve never decrease as temperature rises.
pub open spec fn curve_pwm_nondecreasing(c: Seq<Point>) -> bool {
    forall|i: int, j: int| 0 <= i < j < c.len() ==> c[i].fan_speed <= c[j].fan_speed
}

/// Linear interpolation inside one window, with the division truncating
/// toward zero. Both numerators below are non-negative whenever
/// `lt <= t < ut`, so the Euclidean division written here coincides with
/// truncation toward zero.
pub open spec fn window_val(lt: int, lp: int, ut: int, up: int, t: int) -> int {
    if up >= lp {
        lp + (t - lt) * (up - lp) / (ut - lt)
    } else {
        lp - (t - lt) * (lp - up) / (ut - lt)
    }
}

/// The value of a well-formed curve at temperature `t`: the first point's
/// PWM below the curve, the last point's PWM at and above its temperature,
/// and linear interpolation over the enclosing window in between.
pub open spec fn spec_lerp(c: Seq<Point>, t: int) -> int
    recommends
        curve_wf(c),
    decreases c.len(),
{
    if c.len() <= 1 {
        c[0].fan_speed as int
    } else if t < c[1].temp {
        if t < c[0].temp {
            c[0].fan_speed as int
        } else {
            window_val(c[0].temp as int, c[0].fan_speed as int, c[1].temp as int,
                c[1].fan_speed as int, t)
        }
    } else {
        spec_lerp(c.drop_first(), t)
    }
}

/// The interpolated value inside a window lies between the two endpoint
/// PWM values.
proof fn lemma_window_bounds(lt: int, lp: int, ut: int, up: int, t: int)
    requires
        lt <= t < ut,
    ensures
        up >= lp ==> lp <= window_val(lt, lp, ut, up, t) <= up,
        up < lp ==> up <= window_val(lt, lp, ut, up, t) <= lp,
{
    let c = ut - lt;
    let a = t - lt;
    if up >= lp {
        let r = up - lp;
        assert(a * r <= r * c) by (nonlinear_arith)
            requires
                0 <= a < c,
                0 <= r,
        ;
        lemma_div_bound(a * r, r, c);
        assert(a * r >= 0) by (nonlinear_arith)
            requires
                0 <= a,
                0 <= r,
        ;
        lemma_div_pos_is_pos(a * r, c);
    } else {
        let r = lp - up;
        assert(a * r <= r * c) by (nonlinear_arith)
            requires
                0 <= a < c,
                0 < r,
        ;
        lemma_div_bound(a * r, r, c);
        assert(a * r >= 0) by (nonlinear_arith)
            requires
                0 <= a,
                0 <= r,
        ;
        lemma_div_pos_is_pos(a * r, c);
    }
}

/// Inside one window with a non-decreasing pair of endpoint PWM values,
/// the interpolated value is monotone in the temperature.
proof fn lemma_window_monotone(lt: int, lp: int, ut: int, up: int, t1: int, t2: int)
    requires
        lt <= t1 <= t2 < ut,
        lp <= up,
    ensures
        window_val(lt, lp, ut, up, t1) <= window_val(lt, lp, ut, up, t2),
{
    let c = ut - lt;
    let r = up - lp;
    assert((t1 - lt) * r <= (t2 - lt) * r) by (nonlinear_arith)
        requires
            t1 <= t2,
            0 <= r,
    ;
    lemma_div_is_ordered((t1 - lt) * r, (t2 - lt) * r, c);
}

/// Dropping the first point of a well-formed curve of two or more points
/// leaves a well-formed curve, and preserves non-decreasing PWM values.
proof fn lemma_drop_first_wf(c: Seq<Point>)
    requires
        curve_wf(c),
        c.len() >= 2,
    ensures
        curve_wf(c.drop_first()),
        curve_pwm_nondecreasing(c) ==> curve_pwm_nondecreasing(c.drop_first()),
{
    assert forall|i: int, j: int| 0 <= i < j < c.drop_first().len() implies
        c.drop_first()[i].temp < c.drop_first()[j].temp by {
        assert(c.drop_first()[i] == c[i + 1]);
        assert(c.drop_first()[j] == c[j + 1]);
    }
    if curve_pwm_nondecreasing(c) {
        assert forall|i: int, j: int| 0 <= i < j < c.drop_first().len() implies
            c.drop_first()[i].fan_speed <= c.drop_first()[j].fan_speed by {
            assert(c.drop_first()[i] == c[i + 1]);
            assert(c.drop_first()[j] == c[j + 1]);
        }
    }
}

/// The curve value always lies between 0 and 255: it is bounded by the
/// PWM values of the curve's points.
pub proof fn lemma_lerp_in_range(c: Seq<Point>, t: int)
    requires
        curve_wf(c),
    ensures
        0 <= spec_lerp(c, t) <= 255,
    decreases c.len(),
{
    if c.len() <= 1 {
    } else if t < c[1].temp {
        if t >= c[0].temp {
            lemma_window_bounds(c[0].temp as int, c[0].fan_speed as int, c[1].temp as int,
                c[1].fan_speed as int, t);
        }
    } else {
        lemma_drop_first_wf(c);
        lemma_lerp_in_range(c.drop_first(), t);
    }
}

/// Saturation below: at and below the first point's temperature the curve
/// returns the first point's PWM value.
pub proof fn lemma_lerp_saturates_low(c: Seq<Point>, t: int)
    requires
        curve_wf(c),
        t <= c[0].temp,
    ensures
        spec_lerp(c, t) == c[0].fan_speed,
{
    if c.len() >= 2 {
        assert(c[0].temp < c[1].temp);
        if t == c[0].temp {
            let lp = c[0].fan_speed as int;
            let up = c[1].fan_speed as int;
            assert((t - c[0].temp) * (up - lp) == 0) by (nonlinear_arith)
                requires
                    t == c[0].temp,
            ;
            assert((t - c[0].temp) * (lp - up) == 0) by (nonlinear_arith)
                requires
                    t == c[0].temp,
            ;
        }
    }
}

/// Saturation above: at and above the last point's temperature the curve
/// returns the last point's PWM value.
pub proof fn lemma_lerp_saturates_high(c: Seq<Point>, t: int)
    requires
        curve_wf(c),
        t >= c[c.len() - 1].temp,
    ensures
        spec_lerp(c, t) == c[c.len() - 1].fan_speed,
    decreases c.len(),
{
    if c.len() >= 2 {
        assert(c[1].temp <= c[c.len() - 1].temp);
        lemma_drop_first_wf(c);
        lemma_lerp_saturates_high(c.drop_first(), t);
        assert(c.drop_first()[c.len() - 2] == c[c.len() - 1]);
    }
}

/// With non-decreasing PWM values, the curve value never falls below the
/// first point's PWM value.
proof fn lemma_lerp_ge_first(c: Seq<Point>, t: int)
    requires
        curve_wf(c),
        curve_pwm_nondecreasing(c),
    ensures
        spec_lerp(c, t) >= c[0].fan_speed,
    decreases c.len(),
{
    if c.len() <= 1 {
    } else if t < c[1].temp {
        if t >= c[0].temp {
            lemma_window_bounds(c[0].temp as int, c[0].fan_speed as int, c[1].temp as int,
                c[1].fan_speed as int, t);
        }
    } else {
        lemma_drop_first_wf(c);
        lemma_lerp_ge_first(c.drop_first(), t);
        assert(c.drop_first()[0] == c[1]);
    }
}

/// Monotonicity: over a curve whose PWM values never decrease, a hotter
/// reading never yields a slower fan.
pub proof fn lemma_lerp_monotone(c: Seq<Point>, t1: int, t2: int)
    requires
        curve_wf(c),
        curve_pwm_nondecreasing(c),
        t1 <= t2,
    ensures
        spec_lerp(c, t1) <= spec_lerp(c, t2),
    decreases c.len(),
{
    if c.len() <= 1 {
    } else {
        let lt = c[0].temp as int;
        let lp = c[0].fan_speed as int;
        let ut = c[1].temp as int;
        let up = c[1].fan_speed as int;
        assert(lp <= up);
        if t2 < ut {
            // Both in the first region.
            if t1 < lt {
                if t2 >= lt {
                    lemma_window_bounds(lt, lp, ut, up, t2);
                }
            } else {
                lemma_window_monotone(lt, lp, ut, up, t1, t2);
            }
        } else if t1 < ut {
            // t1 in the first region, t2 in the rest of the curve.
            if t1 < lt {
                assert(spec_lerp(c, t1) == lp);
            } else {
                lemma_window_bounds(lt, lp, ut, up, t1);
            }
            lemma_drop_first_wf(c);
            lemma_lerp_ge_first(c.drop_first(), t2);
            assert(c.drop_first()[0] == c[1]);
        } else {
            lemma_drop_first_wf(c);
            lemma_lerp_monotone(c.drop_first(), t1, t2);
        }
    }
}

/// Evaluates a well-formed curve at a temperature: saturates at the first
/// and last points, and linearly interpolates (with truncating division)
/// over the enclosing window in between.
pub fn curve_lerp(temp: i32, curve: &Vec<Point>) -> (r: u8)
    requires
        curve_wf(curve@),
    ensures
        r as int == spec_lerp(curve@, temp as int),
        temp <= curve@[0].temp ==> r == curve@[0].fan_speed,
        temp >= curve@[curve@.len() - 1].temp ==> r == curve@[curve@.len() - 1].fan_speed,
{
    proof {
        lemma_lerp_in_range(curve@, temp as int);
        if temp <= curve@[0].temp {
            lemma_lerp_saturates_low(curve@, temp as int);
        }
        if temp >= curve@[curve@.len() - 1].temp {
            lemma_lerp_saturates_high(curve@, temp as int);
        }
    }
    if temp < curve[0].temp {
        return curve[0].fan_speed;
    }
    let n = curve.len();
    let mut i: usize = 0;
    proof {
        assert(curve@.skip(0) =~= curve@);
    }
    while i + 1 < n
        invariant
            curve_wf(curve@),
            curve_wf(curve@.skip(i as int)),
            n == curve@.len(),
            i + 1 <= n,
            temp >= curve@[i as int].temp,
            spec_lerp(curve@, temp as int) == spec_lerp(curve@.skip(i as int), temp as int),
        decreases n - i,
    {
        proof {
            assert(curve@.skip(i as int)[0] == curve@[i as int]);
            assert(curve@.skip(i as int)[1] == curve@[i + 1]);
        }
        if temp < curve[i + 1].temp {
            let lower = curve[i];
            let upper = curve[i + 1];
            let dt: u64 = (temp as i64 - lower.temp as i64) as u64;
            let span: u64 = (upper.temp as i64 - lower.temp as i64) as u64;
            proof {
                assert(dt * 255 < 0x10000000000) by (nonlinear_arith)
                    requires
                        dt < 0x100000000,
                ;
            }
            let r: u8;
            if upper.fan_speed >= lower.fan_speed {
                let rise: u64 = (upper.fan_speed - lower.fan_speed) as u64;
                proof {
                    assert(dt * rise <= dt * 255) by (nonlinear_arith)
                        requires
                            rise <= 255,
                            0 <= dt,
                    ;
                    lemma_window_bounds(lower.temp as int, lower.fan_speed as int,
                        upper.temp as int, upper.fan_speed as int, temp as int);
                }
                let q: u64 = dt * rise / span;
                r = (lower.fan_speed as u64 + q) as u8;
            } else {
                let drop: u64 = (lower.fan_speed - upper.fan_speed) as u64;
                proof {
                    assert(dt * drop <= dt * 255) by (nonlinear_arith)
                        requires
                            drop <= 255,
                            0 <= dt,
                    ;
                    lemma_window_bounds(lower.temp as int, lower.fan_speed as int,
                        upper.temp as int, upper.fan_speed as int, temp as int);
                }
                let q: u64 = dt * drop / span;
                r = (lower.fan_speed as u64 - q) as u8;
            }
            return r;
        }
        proof {
            lemma_drop_first_wf(curve@.skip(i as int));
            assert(curve@.skip(i as int).drop_first() =~= curve@.skip(i + 1));
        }
        i = i + 1;
    }
    proof {
        assert(curve@.skip(i as int).len() == 1);
        assert(curve@.skip(i as int)[0] == curve@[i as int]);
    }
    curve[n - 1].fan_speed
}

/// The temperature half of a point string: everything before the first
/// `'/'`, with trailing `'C'`s removed.
pub open spec fn point_first_part(s: Seq<char>) -> Seq<char> {
    strip_trailing(s.subrange(0, find_char(s, '/', 0)), 'C')
}

/// The percentage half of a point string: everything between the first
/// and second `'/'` (or the end), with trailing `'%'`s removed.
pub open spec fn point_second_part(s: Seq<char>) -> Seq<char> {
    let k = find_char(s, '/', 0);
    strip_trailing(s.subrange(k + 1, find_char(s, '/', k + 1)), '%')
}

/// A point string is valid when it has the shape `<int>C/<int>%`, the
/// temperature (in whole degrees Celsius) stays representable once
/// scaled to milli-degrees, and the percentage is between 0 and 100.
pub open spec fn valid_point_spec(s: Seq<char>) -> bool {
    &&& find_char(s, '/', 0) < s.len()
    &&& valid_int_str(point_first_part(s))
    &&& valid_int_str(point_second_part(s))
    &&& -2147483 <= int_str_val(point_first_part(s)) <= 2147483
    &&& 0 <= int_str_val(point_second_part(s)) <= 100
}

/// The point a valid point string denotes: the temperature scaled to
/// milli-degrees Celsius and the percentage scaled to the 0-255 PWM
/// range (with truncating division).
pub open spec fn point_of_spec(s: Seq<char>) -> Point {
    Point {
        temp: (1000 * int_str_val(point_first_part(s))) as i32,
        fan_speed: (int_str_val(point_second_part(s)) * 255 / 100) as u8,
    }
}

/// Parses one curve point string of the form `<int>C/<int>%`, scaling
/// degrees to milli-degrees and percent to the 0-255 PWM range; rejects
/// anything else with `InvalidPointSpec`.
pub fn parse_point(s: &str) -> (r: Result<Point, Error>)
    ensures
        match r {
            Ok(pt) => valid_point_spec(s@) && pt == point_of_spec(s@),
            Err(e) => !valid_point_spec(s@) && e == Error::InvalidPointSpec,
        },
{
    let n = s.unicode_len();
    let k = find_char_at(s, '/', 0);
    if k == n {
        return Err(Error::InvalidPointSpec);
    }
    let m = find_char_at(s, '/', k + 1);
    let e1 = strip_trailing_end(s, 0, k, 'C');
    let p1 = s.substring_char(0, e1);
    proof {
        assert(p1@ == point_first_part(s@));
    }
    let t = match parse_i32(p1) {
        Some(t) => t,
        None => {
            return Err(Error::InvalidPointSpec);
        }
    };
    if t < -2147483 || t > 2147483 {
        return Err(Error::InvalidPointSpec);
    }
    let e2 = strip_trailing_end(s, k + 1, m, '%');
    let p2 = s.substring_char(k + 1, e2);
    proof {
        assert(p2@ == point_second_part(s@));
    }
    let p = match parse_i32(p2) {
        Some(p) => p,
        None => {
            return Err(Error::InvalidPointSpec);
        }
    };
    if p < 0 || p > 100 {
        return Err(Error::InvalidPointSpec);
    }
    let fan_speed: u8 = ((p as u32 * 255) / 100) as u8;
    proof {
        lemma_div_bound(p * 255, 255, 100);
        lemma_div_pos_is_pos(p * 255, 100);
    }
    Ok(Point { temp: t * 1000, fan_speed })
}

/// The canonical text of a curve point: the temperature in degrees, a
/// `'C'`, a slash, the percentage, and a `'%'`.
pub open spec fn spec_point_str(t: int, p: int) -> Seq<char> {
    spec_int_str(t) + seq!['C', '/'] + spec_int_str(p) + seq!['%']
}

/// Round trip: writing a pair of degrees and percent in the point
/// grammar and parsing it back yields exactly the scaled pair — the
/// temperature in milli-degrees and the percentage on the 0-255 scale.
pub proof fn lemma_point_round_trip(t: int, p: int)
    requires
        -2147483 <= t <= 2147483,
        0 <= p <= 100,
    ensures
        valid_point_spec(spec_point_str(t, p)),
        point_of_spec(spec_point_str(t, p)) == (Point {
            temp: (1000 * t) as i32,
            fan_speed: (p * 255 / 100) as u8,
        }),
{
    let s = spec_point_str(t, p);
    let x = spec_int_str(t);
    let y = spec_int_str(p);
    let a = x.len() as int;
    let b = y.len() as int;
    lemma_spec_int_str(t);
    lemma_spec_int_str(p);
    assert(s.len() == a + 3 + b);
    assert(s[a] == 'C');
    assert(s[a + 1] == '/');
    assert(s[a + 2 + b] == '%');
    assert('/' as u32 == 47 && 'C' as u32 == 67 && '%' as u32 == 37 && '-' as u32 == 45);
    assert forall|i: int| 0 <= i < a + 1 implies s[i] != '/' by {
        if i < a {
            assert(s[i] == x[i]);
            assert(is_digit(x[i]) || x[i] == '-');
        }
    }
    lemma_find_char_first(s, '/', 0, a + 1);
    assert(find_char(s, '/', 0) == a + 1);
    assert(s.subrange(0, a + 1) =~= x.push('C'));
    assert(x.last() != 'C');
    lemma_strip_trailing_once(x, 'C');
    assert(point_first_part(s) == x);
    assert forall|i: int| a + 2 <= i < s.len() implies s[i] != '/' by {
        if i < a + 2 + b {
            assert(s[i] == y[i - a - 2]);
            assert(is_digit(y[i - a - 2]) || y[i - a - 2] == '-');
        }
    }
    lemma_find_char_first(s, '/', a + 2, s.len() as int);
    assert(find_char(s, '/', a + 2) == s.len());
    assert(s.subrange(a + 2, s.len() as int) =~= y.push('%'));
    assert(y.last() != '%');
    lemma_strip_trailing_once(y, '%');
    assert(point_second_part(s) == y);
}

} // verus!
