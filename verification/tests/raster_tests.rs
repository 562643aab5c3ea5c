use nurep::raster::{fill_circle, Span};

#[test]
fn a_circle_of_radius_three() {
    assert_eq!(
        fill_circle((10, 20), 3),
        vec![
            Span { y: 20, x_start: 8, x_end: 12 },
            Span { y: 21, x_start: 8, x_end: 12 },
            Span { y: 19, x_start: 8, x_end: 12 },
            Span { y: 22, x_start: 9, x_end: 11 },
            Span { y: 18, x_start: 9, x_end: 11 },
        ]
    );
}

#[test]
fn a_circle_of_radius_one_is_a_single_pixel() {
    assert_eq!(fill_circle((-4, 5), 1), vec![Span { y: 5, x_start: -4, x_end: -4 }]);
}

#[test]
fn a_circle_without_radius_keeps_its_centre_run() {
    assert_eq!(fill_circle((0, 0), 0), vec![Span { y: 0, x_start: 1, x_end: -1 }]);
    assert_eq!(fill_circle((0, 0), -2), vec![Span { y: 0, x_start: 3, x_end: -3 }]);
}

#[test]
fn the_runs_follow_the_circle_of_half_a_pixel_less() {
    for radius in 1..60 {
        let spans = fill_circle((100, -100), radius);
        assert_eq!(spans.len() as i32, 2 * radius - 1);
        assert_eq!(
            spans[0],
            Span { y: -100, x_start: 100 - (radius as i64 - 1), x_end: 100 + (radius as i64 - 1) }
        );
        let real_radius = radius as f64 - 0.5;
        for i in 1..radius {
            let h = real_radius - i as f64;
            let half_w = ((2.0 * real_radius * h) - (h * h)).sqrt() as i64;
            let below = spans[(2 * i - 1) as usize];
            let above = spans[(2 * i) as usize];
            assert_eq!(below, Span { y: -100 + i as i64, x_start: 100 - half_w, x_end: 100 + half_w });
            assert_eq!(above, Span { y: -100 - i as i64, x_start: 100 - half_w, x_end: 100 + half_w });
        }
    }
}

#[test]
fn a_circle_at_the_edge_of_the_coordinates_does_not_overflow() {
    let spans = fill_circle((i32::MAX, i32::MIN), 2);
    assert_eq!(
        spans,
        vec![
            Span { y: i32::MIN as i64, x_start: i32::MAX as i64 - 1, x_end: i32::MAX as i64 + 1 },
            Span { y: i32::MIN as i64 + 1, x_start: i32::MAX as i64 - 1, x_end: i32::MAX as i64 + 1 },
            Span { y: i32::MIN as i64 - 1, x_start: i32::MAX as i64 - 1, x_end: i32::MAX as i64 + 1 },
        ]
    );
}
