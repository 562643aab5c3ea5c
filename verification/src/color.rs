//! The color resolver: from an owner id to the color its planets are drawn in.

use crate::ledger::UNKNOWN_OWNER;
use vstd::prelude::*;

verus! {

/// A display color.
#[derive(Clone, Copy, Debug, PartialEq, Eq)]
pub struct Color {
    pub r: u8,
    pub g: u8,
    pub b: u8,
}

/// The largest owner id that has a color of its own.
pub const MAX_PLAYER: i32 = 11;

/// The color of a planet whose owner is not known.
pub open spec fn unknown_color() -> Color {
    Color { r: 0x20, g: 0x20, b: 0x20 }
}

/// The color of an owner id outside the table.
pub open spec fn out_of_range_color() -> Color {
    Color { r: 0xff, g: 0xff, b: 0xff }
}

/// The color of each owner id: gray for the neutral owner 0, a color of its
/// own for each of the players 1 to 11, one fallback for the unknown
/// sentinel and another for every other id.
pub open spec fn color_of(owner_id: i32) -> Color {
    if owner_id == 0 {
        Color { r: 0x50, g: 0x50, b: 0x50 }
    } else if owner_id == 1 {
        Color { r: 0xff, g: 0x00, b: 0x00 }
    } else if owner_id == 2 {
        Color { r: 0x00, g: 0xff, b: 0x00 }
    } else if owner_id == 3 {
        Color { r: 0x00, g: 0x00, b: 0xff }
    } else if owner_id == 4 {
        Color { r: 0xff, g: 0xff, b: 0x00 }
    } else if owner_id == 5 {
        Color { r: 0x00, g: 0xff, b: 0xff }
    } else if owner_id == 6 {
        Color { r: 0xff, g: 0x00, b: 0xff }
    } else if owner_id == 7 {
        Color { r: 0xc0, g: 0x80, b: 0x00 }
    } else if owner_id == 8 {
        Color { r: 0x00, g: 0xc0, b: 0x80 }
    } else if owner_id == 9 {
        Color { r: 0xc0, g: 0x00, b: 0x80 }
    } else if owner_id == 10 {
        Color { r: 0x80, g: 0xc0, b: 0x00 }
    } else if owner_id == 11 {
        Color { r: 0x00, g: 0x80, b: 0xc0 }
    } else if owner_id == UNKNOWN_OWNER {
        unknown_color()
    } else {
        out_of_range_color()
    }
}

/// The slot of the color table that an owner id falls into: its own for 0
/// to 11, slot 12 for the unknown sentinel, slot 13 for every other id.
pub open spec fn color_slot(owner_id: i32) -> int {
    if 0 <= owner_id <= MAX_PLAYER {
        owner_id as int
    } else if owner_id == UNKNOWN_OWNER {
        12
    } else {
        13
    }
}

/// Picks the color of an owner id.
pub fn pick_color(owner_id: i32) -> (color: Color)
    ensures
        color == color_of(owner_id),
{
    match owner_id {
        0 => Color { r: 0x50, g: 0x50, b: 0x50 },
        1 => Color { r: 0xff, g: 0x00, b: 0x00 },
        2 => Color { r: 0x00, g: 0xff, b: 0x00 },
        3 => Color { r: 0x00, g: 0x00, b: 0xff },
        4 => Color { r: 0xff, g: 0xff, b: 0x00 },
        5 => Color { r: 0x00, g: 0xff, b: 0xff },
        6 => Color { r: 0xff, g: 0x00, b: 0xff },
        7 => Color { r: 0xc0, g: 0x80, b: 0x00 },
        8 => Color { r: 0x00, g: 0xc0, b: 0x80 },
        9 => Color { r: 0xc0, g: 0x00, b: 0x80 },
        10 => Color { r: 0x80, g: 0xc0, b: 0x00 },
        11 => Color { r: 0x00, g: 0x80, b: 0xc0 },
        -1 => Color { r: 0x20, g: 0x20, b: 0x20 },
        _ => Color { r: 0xff, g: 0xff, b: 0xff },
    }
}

/// Two owner ids get the same color exactly when they fall into the same
/// slot: the table's colors and the two fallbacks are mutually distinct.
pub proof fn lemma_colors_distinct(a: i32, b: i32)
    ensures
        color_of(a) == color_of(b) <==> color_slot(a) == color_slot(b),
{
}

} // verus!
