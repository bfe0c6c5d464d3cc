use hunt_engine::geo::{distance_meters, within_geofence, Coordinate, DEFAULT_DISTANCE_METERS};

#[test]
fn default_radius_is_fifty_meters() {
    assert_eq!(DEFAULT_DISTANCE_METERS, 50);
}

fn c(lat_udeg: i64, lng_udeg: i64) -> Coordinate {
    Coordinate { lat_udeg, lng_udeg }
}

#[test]
fn distance_to_self_is_zero() {
    assert_eq!(distance_meters(&c(0, 0), &c(0, 0)), 0);
    assert_eq!(distance_meters(&c(123456, 654321), &c(123456, 654321)), 0);
    assert_eq!(distance_meters(&c(-90000000, 180000000), &c(-90000000, 180000000)), 0);
}

#[test]
fn distance_is_symmetric() {
    let a = c(40712800, -74006000);
    let b = c(51507400, -127800);
    assert_eq!(distance_meters(&a, &b), distance_meters(&b, &a));
    let p = c(-33868800, 151209300);
    let q = c(35676200, 139650300);
    assert_eq!(distance_meters(&p, &q), distance_meters(&q, &p));
}

#[test]
fn ten_meters_north_of_equator() {
    // 90 microdegrees of latitude is almost exactly ten meters.
    assert_eq!(distance_meters(&c(0, 0), &c(90, 0)), 10);
}

#[test]
fn two_hundred_meters_north_of_equator() {
    // 1798 microdegrees of latitude is a hair under two hundred meters.
    assert_eq!(distance_meters(&c(0, 0), &c(1798, 0)), 199);
}

#[test]
fn new_york_to_london() {
    let nyc = c(40712800, -74006000);
    let lon = c(51507400, -127800);
    assert_eq!(distance_meters(&nyc, &lon), 5570222);
}

#[test]
fn longitude_wraps_across_the_antimeridian() {
    // Two degrees apart across the antimeridian, about 222 km at the equator.
    assert_eq!(distance_meters(&c(0, 179000000), &c(0, -179000000)), 222390);
}

#[test]
fn antipodal_points_do_not_blow_up() {
    let d = distance_meters(&c(90000000, 10000000), &c(-90000000, 10000000));
    // Near half the Earth's circumference, and within the u64 bound.
    assert!(d > 19900000 && d <= 21000000);
}

#[test]
fn geofence_contains_nearby_point() {
    assert!(within_geofence(&c(90, 0), &c(0, 0), 50));
    assert!(!within_geofence(&c(1798, 0), &c(0, 0), 50));
}

#[test]
fn geofence_boundary_is_inclusive() {
    // Ten meters away, radius exactly ten meters: inside.
    assert!(within_geofence(&c(90, 0), &c(0, 0), 10));
    assert!(!within_geofence(&c(90, 0), &c(0, 0), 9));
}

#[test]
fn geofence_monotonic_in_radius() {
    let p = c(1798, 0);
    let center = c(0, 0);
    let mut seen_inside = false;
    for r in [0u64, 10, 50, 199, 200, 1000, 100000] {
        let inside = within_geofence(&p, &center, r);
        if seen_inside {
            assert!(inside, "point left the fence as the radius grew to {r}");
        }
        if inside {
            seen_inside = true;
        }
    }
    assert!(seen_inside);
}
