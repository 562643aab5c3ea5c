use nurep::mapper::{scale_coordinate, CoordinateMapper, ScaleFactor};

fn mapper(numerator: u32, denominator: u32, offset: (i32, i32)) -> CoordinateMapper {
    CoordinateMapper { scale: ScaleFactor::new(numerator, denominator).unwrap(), offset }
}

#[test]
fn a_scale_needs_a_denominator() {
    assert_eq!(ScaleFactor::new(3, 0), None);
    assert_eq!(ScaleFactor::new(0, 0), None);
    assert_eq!(ScaleFactor::new(3, 4), Some(ScaleFactor { numerator: 3, denominator: 4 }));
}

#[test]
fn the_origin_maps_to_the_offset() {
    assert_eq!(mapper(19, 20, (320, 0)).map(0, 0), (320, 0));
    assert_eq!(mapper(1, 1, (-7, 9)).map(0, 0), (-7, 9));
    assert_eq!(mapper(0, 5, (4, 4)).map(123, -456), (4, 4));
    assert_eq!(mapper(u32::MAX, 1, (i32::MIN, i32::MAX)).map(0, 0), (i32::MIN as i64, i32::MAX as i64));
}

#[test]
fn mapping_scales_rounds_and_shifts() {
    let m = mapper(1026, 2000, (420, 0));
    // 0.513 * 100 = 51.3, 0.513 * 250 = 128.25
    assert_eq!(m.map(100, 250), (471, 128));
    // 0.513 * 1000 = 513, 0.513 * 3 = 1.539
    assert_eq!(m.map(1000, 3), (933, 2));
}

#[test]
fn ties_round_away_from_zero() {
    let half = ScaleFactor::new(1, 2).unwrap();
    assert_eq!(scale_coordinate(half, 1), 1);
    assert_eq!(scale_coordinate(half, 3), 2);
    assert_eq!(scale_coordinate(half, -1), -1);
    assert_eq!(scale_coordinate(half, -3), -2);
    assert_eq!(scale_coordinate(half, 2), 1);
    assert_eq!(scale_coordinate(half, -2), -1);
    let third = ScaleFactor::new(1, 3).unwrap();
    assert_eq!(scale_coordinate(third, 1), 0);
    assert_eq!(scale_coordinate(third, 2), 1);
    assert_eq!(scale_coordinate(third, -1), 0);
    assert_eq!(scale_coordinate(third, -2), -1);
}

#[test]
fn mapping_agrees_with_rounding_in_floating_point() {
    for &(n, d) in &[(1u32, 1u32), (19, 20), (513, 1000), (7, 3), (1, 7), (250, 9)] {
        let scale = ScaleFactor::new(n, d).unwrap();
        for x in -300..300 {
            let expected = (x as f64 * n as f64 / d as f64).round() as i64;
            assert_eq!(scale_coordinate(scale, x), expected, "{} * {} / {}", x, n, d);
        }
    }
}

#[test]
fn mapping_the_largest_values_stays_exact() {
    let m = mapper(u32::MAX, 1, (i32::MAX, i32::MIN));
    assert_eq!(
        m.map(i32::MAX, i32::MIN),
        (
            i32::MAX as i64 * u32::MAX as i64 + i32::MAX as i64,
            i32::MIN as i64 * u32::MAX as i64 + i32::MIN as i64
        )
    );
    assert_eq!(m.map(i32::MIN, 0).0, i32::MIN as i64 * u32::MAX as i64 + i32::MAX as i64);
}

#[test]
fn doubling_a_position_doubles_its_image_within_one_unit() {
    for &(n, d) in &[(1u32, 1u32), (19, 20), (513, 1000), (7, 3), (1, 7), (1, 2), (3, 2)] {
        let m = mapper(n, d, (37, -11));
        for x in -120..120 {
            let once = m.map(x, -x);
            let twice = m.map(2 * x, -2 * x);
            let dx = (twice.0 - 37) - 2 * (once.0 - 37);
            let dy = (twice.1 + 11) - 2 * (once.1 + 11);
            assert!(dx.abs() <= 1 && dy.abs() <= 1, "{} at {}/{}", x, n, d);
        }
    }
}
