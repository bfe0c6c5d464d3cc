//! Great-circle distance and geofence containment on WGS84 coordinates.
//!
//! Coordinates are carried in microdegrees (one millionth of a degree) so the
//! whole computation stays in integer arithmetic.  Angles are held in Q32
//! fixed point (radians scaled by 2^32), the haversine term in Q64, and the
//! sine is evaluated by its degree-nine Taylor polynomial, which is accurate
//! to a few parts per million on a quarter circle.  The central angle is
//! recovered from the haversine term by an integer square root and a bisection
//! on the sine; the haversine term is clamped to one before the root is taken,
//! which guards the inverse step at identical and antipodal points.  The
//! resulting distance, in whole meters on a sphere of radius 6371000 m, is a
//! pure function of the two coordinates.

use vstd::prelude::*;

verus! {

use vstd::arithmetic::div_mod::lemma_div_is_ordered;
use vstd::arithmetic::div_mod::lemma_div_pos_is_pos;

/// Geofence radius, in meters, that deployments use when none is configured.
pub const DEFAULT_DISTANCE_METERS: u64 = 50;

/// A point on the globe, in microdegrees of latitude and longitude.
#[derive(Clone, Copy, PartialEq, Eq, Structural, Debug)]
pub struct Coordinate {
    pub lat_udeg: i64,
    pub lng_udeg: i64,
}

impl Coordinate {
    /// Latitude within ninety degrees of the equator, longitude within one
    /// hundred eighty degrees of the prime meridian.
    pub open spec fn valid(self) -> bool {
        &&& -90000000 <= self.lat_udeg <= 90000000
        &&& -180000000 <= self.lng_udeg <= 180000000
    }
}

/// The absolute difference of two integers.
pub open spec fn abs_diff(x: int, y: int) -> int {
    if x >= y {
        x - y
    } else {
        y - x
    }
}

/// Product of two Q32 fixed-point values, again in Q32.
pub open spec fn mul_q32_spec(a: int, b: int) -> int {
    a * b / 4294967296
}

/// Microdegrees to Q32 radians: scale by pi over one hundred eighty degrees.
pub open spec fn rad_q32_of_udeg(udeg: int) -> int {
    udeg * 13493037705 / 180000000
}

/// Sine on [0, pi/2] in Q32, by the Taylor polynomial of degree nine,
/// clamped below at zero and above a little past one.
pub open spec fn sin_half_q32(x: int) -> int {
    let x2: int = mul_q32_spec(x, x);
    let x3: int = mul_q32_spec(x2, x);
    let x5: int = mul_q32_spec(x3, x2);
    let x7: int = mul_q32_spec(x5, x2);
    let x9: int = mul_q32_spec(x7, x2);
    let pos: int = x + x5 / 120 + x9 / 362880;
    let neg: int = x3 / 6 + x7 / 5040;
    let raw: int = if pos >= neg {
        pos - neg
    } else {
        0
    };
    if raw > 4500000000 {
        4500000000
    } else {
        raw
    }
}

/// Sine on [0, pi] in Q32, folded onto the first quadrant.
pub open spec fn sin_pi_q32(x: int) -> int {
    if x <= 6746518852 {
        sin_half_q32(x)
    } else {
        sin_half_q32(13493037705 - x)
    }
}

/// Cosine on [0, pi/2] in Q32, as the sine of the complementary angle.
pub open spec fn cos_lat_q32(x: int) -> int {
    sin_half_q32(6746518852 - x)
}

/// The haversine term in Q64: sin^2 of half the latitude difference plus the
/// cosine product times sin^2 of half the longitude difference, clamped to
/// one so the inverse step below never leaves its domain.
pub open spec fn hav_q64(lat1: int, lng1: int, lat2: int, lng2: int) -> int {
    let s1: int = sin_half_q32(rad_q32_of_udeg(abs_diff(lat1, lat2)) / 2);
    let s2: int = sin_pi_q32(rad_q32_of_udeg(abs_diff(lng1, lng2)) / 2);
    let c1: int = cos_lat_q32(rad_q32_of_udeg(abs_diff(lat1, 0)));
    let c2: int = cos_lat_q32(rad_q32_of_udeg(abs_diff(lat2, 0)));
    let h: int = s1 * s1 + mul_q32_spec(c1, c2) * (s2 * s2) / 4294967296;
    if h > 18446744073709551616 {
        18446744073709551616
    } else {
        h
    }
}

/// Integer square root by bisection: the value the loop in `isqrt_q64`
/// converges to on the interval [lo, hi).
pub open spec fn isqrt_rec(lo: int, hi: int, n: int) -> int
    decreases hi - lo,
{
    if hi - lo <= 1 {
        lo
    } else {
        let mid: int = lo + (hi - lo) / 2;
        if mid * mid <= n {
            isqrt_rec(mid, hi, n)
        } else {
            isqrt_rec(lo, mid, n)
        }
    }
}

/// Inverse sine by bisection: the least Q32 angle in [lo, hi] whose half
/// angle has sine at least `target`, as the loop in `theta_from_sin` finds it.
pub open spec fn theta_rec(lo: int, hi: int, target: int) -> int
    decreases hi - lo,
{
    if lo >= hi {
        lo
    } else {
        let mid: int = lo + (hi - lo) / 2;
        if sin_half_q32(mid / 2) < target {
            theta_rec(mid + 1, hi, target)
        } else {
            theta_rec(lo, mid, target)
        }
    }
}

/// Great-circle distance in whole meters between two coordinates, on the
/// spherical-Earth approximation of radius 6371000 m.
pub open spec fn spec_distance_meters(a: Coordinate, b: Coordinate) -> int {
    let h: int = hav_q64(
        a.lat_udeg as int,
        a.lng_udeg as int,
        b.lat_udeg as int,
        b.lng_udeg as int,
    );
    if h == 0 {
        0
    } else {
        6371000 * theta_rec(0, 13493037705, isqrt_rec(0, 4294967297, h)) / 4294967296
    }
}

/// Geofence containment: the point lies within `radius_m` meters of `center`.
pub open spec fn spec_within_geofence(point: Coordinate, center: Coordinate, radius_m: u64) -> bool {
    spec_distance_meters(point, center) <= radius_m
}

/// Bounded multiplication cannot shrink under a Q32 division.
proof fn lemma_mq_le(a: int, cap_a: int, b: int, cap_b: int)
    requires
        0 <= a <= cap_a,
        0 <= b <= cap_b,
    ensures
        0 <= mul_q32_spec(a, b) <= mul_q32_spec(cap_a, cap_b),
{
    assert(0 <= a * b && a * b <= cap_a * cap_b) by (nonlinear_arith)
        requires
            0 <= a <= cap_a,
            0 <= b <= cap_b,
    ;
    lemma_div_pos_is_pos(a * b, 4294967296);
    lemma_div_is_ordered(a * b, cap_a * cap_b, 4294967296);
}

/// Product of two Q32 fixed-point values.
fn mul_q32(a: u64, b: u64) -> (r: u64)
    requires
        a < 281474976710656,
        b < 281474976710656,
    ensures
        r == mul_q32_spec(a as int, b as int),
{
    proof {
        assert((a as int) * (b as int) < 281474976710656 * 281474976710656) by (nonlinear_arith)
            requires
                a < 281474976710656,
                b < 281474976710656,
        ;
        assert(0 <= (a as int) * (b as int)) by (nonlinear_arith)
            requires
                0 <= a,
                0 <= b,
        ;
        lemma_div_is_ordered(
            (a as int) * (b as int),
            281474976710656int * 281474976710656,
            4294967296,
        );
    }
    let p: u128 = (a as u128) * (b as u128);
    (p / 4294967296) as u64
}

/// Full-width product of two bounded unsigned values.
fn mul_u128(a: u128, b: u128) -> (r: u128)
    requires
        a < 281474976710656,
        b < 1208925819614629174706176,
    ensures
        r == (a as int) * (b as int),
{
    proof {
        assert((a as int) * (b as int) < 281474976710656 * 1208925819614629174706176)
            by (nonlinear_arith)
            requires
                a < 281474976710656,
                b < 1208925819614629174706176,
        ;
        assert(0 <= (a as int) * (b as int)) by (nonlinear_arith)
            requires
                0 <= a,
                0 <= b,
        ;
    }
    a * b
}

/// Sine on [0, pi/2] in Q32.
fn sin_half(x: u64) -> (r: u64)
    requires
        x <= 6746518852,
    ensures
        r == sin_half_q32(x as int),
        r <= 4500000000,
{
    let x2: u64 = mul_q32(x, x);
    proof {
        lemma_mq_le(x as int, 6746518852, x as int, 6746518852);
        assert(mul_q32_spec(6746518852, 6746518852) == 10597407030);
    }
    let x3: u64 = mul_q32(x2, x);
    proof {
        lemma_mq_le(x2 as int, 10597407030, x as int, 6746518852);
        assert(mul_q32_spec(10597407030, 6746518852) == 16646368035);
    }
    let x5: u64 = mul_q32(x3, x2);
    proof {
        lemma_mq_le(x3 as int, 16646368035, x2 as int, 10597407030);
        assert(mul_q32_spec(16646368035, 10597407030) == 41073266798);
    }
    let x7: u64 = mul_q32(x5, x2);
    proof {
        lemma_mq_le(x5 as int, 41073266798, x2 as int, 10597407030);
        assert(mul_q32_spec(41073266798, 10597407030) == 101344223672);
    }
    let x9: u64 = mul_q32(x7, x2);
    proof {
        lemma_mq_le(x7 as int, 101344223672, x2 as int, 10597407030);
        assert(mul_q32_spec(101344223672, 10597407030) == 250056848952);
    }
    let pos: u64 = x + x5 / 120 + x9 / 362880;
    let neg: u64 = x3 / 6 + x7 / 5040;
    let raw: u64 = if pos >= neg {
        pos - neg
    } else {
        0
    };
    if raw > 4500000000 {
        4500000000
    } else {
        raw
    }
}

/// Sine on [0, pi] in Q32.
fn sin_pi(x: u64) -> (r: u64)
    requires
        x <= 13493037705,
    ensures
        r == sin_pi_q32(x as int),
        r <= 4500000000,
{
    if x <= 6746518852 {
        sin_half(x)
    } else {
        sin_half(13493037705 - x)
    }
}

/// Cosine on [0, pi/2] in Q32.
fn cos_lat(x: u64) -> (r: u64)
    requires
        x <= 6746518852,
    ensures
        r == cos_lat_q32(x as int),
        r <= 4500000000,
{
    sin_half(6746518852 - x)
}

/// Microdegrees to Q32 radians.
fn rad_q32(udeg: u64) -> (r: u64)
    requires
        udeg <= 360000000,
    ensures
        r == rad_q32_of_udeg(udeg as int),
        r <= 26986075410,
{
    proof {
        lemma_div_is_ordered((udeg as int) * 13493037705, 360000000int * 13493037705, 180000000);
        assert(360000000 * 13493037705 / 180000000 == 26986075410);
        lemma_div_pos_is_pos((udeg as int) * 13493037705, 180000000);
    }
    (udeg * 13493037705) / 180000000
}

/// Absolute difference of two bounded signed values.
fn abs_diff_u64(a: i64, b: i64) -> (r: u64)
    requires
        -360000000 <= a <= 360000000,
        -360000000 <= b <= 360000000,
    ensures
        r == abs_diff(a as int, b as int),
{
    if a >= b {
        (a - b) as u64
    } else {
        (b - a) as u64
    }
}

/// Integer square root of a Q64 value, in Q32.
fn isqrt_q64(n: u128) -> (r: u64)
    requires
        n <= 18446744073709551616,
    ensures
        r == isqrt_rec(0, 4294967297, n as int),
        r <= 4294967296,
{
    let mut lo: u64 = 0;
    let mut hi: u64 = 4294967297;
    while hi - lo > 1
        invariant
            0 <= lo < hi <= 4294967297,
            n <= 18446744073709551616,
            isqrt_rec(0, 4294967297, n as int) == isqrt_rec(lo as int, hi as int, n as int),
        decreases hi - lo,
    {
        let mid: u64 = lo + (hi - lo) / 2;
        let sq: u128 = mul_u128(mid as u128, mid as u128);
        if sq <= n {
            lo = mid;
        } else {
            hi = mid;
        }
    }
    lo
}

/// The least Q32 angle in [0, pi] whose half angle has sine at least `target`.
fn theta_from_sin(target: u64) -> (r: u64)
    ensures
        r == theta_rec(0, 13493037705, target as int),
        r <= 13493037705,
{
    let mut lo: u64 = 0;
    let mut hi: u64 = 13493037705;
    while lo < hi
        invariant
            0 <= lo <= hi <= 13493037705,
            theta_rec(0, 13493037705, target as int) == theta_rec(
                lo as int,
                hi as int,
                target as int,
            ),
        decreases hi - lo,
    {
        let mid: u64 = lo + (hi - lo) / 2;
        let s: u64 = sin_half(mid / 2);
        if s < target {
            lo = mid + 1;
        } else {
            hi = mid;
        }
    }
    lo
}

/// Great-circle distance in whole meters, by the haversine formula on the
/// spherical-Earth approximation of radius 6371000 m.
pub fn distance_meters(a: &Coordinate, b: &Coordinate) -> (r: u64)
    requires
        a.valid(),
        b.valid(),
    ensures
        r == spec_distance_meters(*a, *b),
        r <= 21000000,
{
    let dlat: u64 = abs_diff_u64(a.lat_udeg, b.lat_udeg);
    let dlng: u64 = abs_diff_u64(a.lng_udeg, b.lng_udeg);
    let alat1: u64 = abs_diff_u64(a.lat_udeg, 0);
    let alat2: u64 = abs_diff_u64(b.lat_udeg, 0);
    proof {
        lemma_div_is_ordered((dlat as int) * 13493037705, 180000000int * 13493037705, 180000000);
        assert(180000000 * 13493037705 / 180000000 == 13493037705);
        lemma_div_is_ordered((alat1 as int) * 13493037705, 90000000int * 13493037705, 180000000);
        lemma_div_is_ordered((alat2 as int) * 13493037705, 90000000int * 13493037705, 180000000);
        assert(90000000int * 13493037705 / 180000000 == 6746518852);
    }
    let s1: u64 = sin_half(rad_q32(dlat) / 2);
    let s2: u64 = sin_pi(rad_q32(dlng) / 2);
    let c1: u64 = cos_lat(rad_q32(alat1));
    let c2: u64 = cos_lat(rad_q32(alat2));
    let cc: u64 = mul_q32(c1, c2);
    proof {
        lemma_mq_le(c1 as int, 4500000000, c2 as int, 4500000000);
        assert(mul_q32_spec(4500000000, 4500000000) == 4714820533);
    }
    let ss1: u128 = mul_u128(s1 as u128, s1 as u128);
    let ss2: u128 = mul_u128(s2 as u128, s2 as u128);
    proof {
        assert((s1 as int) * (s1 as int) <= 4500000000int * 4500000000) by (nonlinear_arith)
            requires
                0 <= s1 <= 4500000000,
        ;
        assert((s2 as int) * (s2 as int) <= 4500000000int * 4500000000) by (nonlinear_arith)
            requires
                0 <= s2 <= 4500000000,
        ;
    }
    let t2: u128 = mul_u128(cc as u128, ss2) / 4294967296;
    proof {
        assert((cc as int) * (ss2 as int) <= 4714820533int * 20250000000000000000)
            by (nonlinear_arith)
            requires
                0 <= cc <= 4714820533,
                0 <= ss2 <= 20250000000000000000,
        ;
        lemma_div_is_ordered(
            (cc as int) * (ss2 as int),
            4714820533int * 20250000000000000000,
            4294967296,
        );
        lemma_div_pos_is_pos((cc as int) * (ss2 as int), 4294967296);
    }
    let h_raw: u128 = ss1 + t2;
    let h: u128 = if h_raw > 18446744073709551616 {
        18446744073709551616
    } else {
        h_raw
    };
    if h == 0 {
        return 0;
    }
    let st: u64 = isqrt_q64(h);
    let th: u64 = theta_from_sin(st);
    proof {
        lemma_div_is_ordered(6371000 * (th as int), 6371000int * 13493037705, 4294967296);
        assert(6371000 * 13493037705 / 4294967296 == 20015086);
        lemma_div_pos_is_pos(6371000 * (th as int), 4294967296);
    }
    (6371000 * th) / 4294967296
}

/// Whether `point` lies within `radius_m` meters of `center`.
pub fn within_geofence(point: &Coordinate, center: &Coordinate, radius_m: u64) -> (r: bool)
    requires
        point.valid(),
        center.valid(),
    ensures
        r == spec_within_geofence(*point, *center, radius_m),
{
    distance_meters(point, center) <= radius_m
}

/// The distance from any coordinate to itself is zero.
pub proof fn lemma_distance_self(a: Coordinate)
    ensures
        spec_distance_meters(a, a) == 0,
{
    assert(abs_diff(a.lat_udeg as int, a.lat_udeg as int) == 0);
    assert(abs_diff(a.lng_udeg as int, a.lng_udeg as int) == 0);
    assert(rad_q32_of_udeg(0) == 0);
    assert(mul_q32_spec(0, 0) == 0);
    assert(sin_half_q32(0) == 0);
    assert(sin_pi_q32(0) == 0);
    let c1: int = cos_lat_q32(rad_q32_of_udeg(abs_diff(a.lat_udeg as int, 0)));
    assert(mul_q32_spec(c1, c1) * (0 * 0) == 0) by (nonlinear_arith);
    assert(0int / 4294967296 == 0);
    assert(hav_q64(a.lat_udeg as int, a.lng_udeg as int, a.lat_udeg as int, a.lng_udeg as int)
        == 0);
}

/// Distance does not depend on the order of its two coordinates.
pub proof fn lemma_distance_symmetric(a: Coordinate, b: Coordinate)
    ensures
        spec_distance_meters(a, b) == spec_distance_meters(b, a),
{
    assert(hav_q64(a.lat_udeg as int, a.lng_udeg as int, b.lat_udeg as int, b.lng_udeg as int)
        == hav_q64(b.lat_udeg as int, b.lng_udeg as int, a.lat_udeg as int, a.lng_udeg as int));
}

/// A point inside a geofence stays inside every wider geofence.
pub proof fn lemma_within_monotonic(point: Coordinate, center: Coordinate, r1: u64, r2: u64)
    requires
        spec_within_geofence(point, center, r1),
        r1 <= r2,
    ensures
        spec_within_geofence(point, center, r2),
{
}

} // verus!
