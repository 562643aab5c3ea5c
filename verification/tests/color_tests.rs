use nurep::color::{pick_color, Color, MAX_PLAYER};

#[test]
fn the_neutral_owner_is_gray() {
    assert_eq!(pick_color(0), Color { r: 0x50, g: 0x50, b: 0x50 });
}

#[test]
fn each_player_has_a_fixed_color() {
    let expected = [
        (1, (0xff, 0x00, 0x00)),
        (2, (0x00, 0xff, 0x00)),
        (3, (0x00, 0x00, 0xff)),
        (4, (0xff, 0xff, 0x00)),
        (5, (0x00, 0xff, 0xff)),
        (6, (0xff, 0x00, 0xff)),
        (7, (0xc0, 0x80, 0x00)),
        (8, (0x00, 0xc0, 0x80)),
        (9, (0xc0, 0x00, 0x80)),
        (10, (0x80, 0xc0, 0x00)),
        (11, (0x00, 0x80, 0xc0)),
    ];
    assert_eq!(MAX_PLAYER, 11);
    for &(owner, (r, g, b)) in &expected {
        assert_eq!(pick_color(owner), Color { r, g, b });
    }
}

#[test]
fn ids_outside_the_table_share_one_fallback() {
    let fallback = Color { r: 0xff, g: 0xff, b: 0xff };
    for owner in [12, 13, 100, -2, -100, i32::MAX, i32::MIN] {
        assert_eq!(pick_color(owner), fallback);
    }
}

#[test]
fn the_unknown_owner_has_a_fallback_of_its_own() {
    assert_eq!(pick_color(-1), Color { r: 0x20, g: 0x20, b: 0x20 });
    assert_ne!(pick_color(-1), pick_color(12));
}

#[test]
fn all_colors_are_mutually_distinct() {
    let owners: Vec<i32> = (-1..=12).collect();
    for &a in &owners {
        for &b in &owners {
            assert_eq!(pick_color(a) == pick_color(b), a == b, "{} and {}", a, b);
        }
    }
}
