//! The horizontal runs that fill a circle.

use vstd::prelude::*;

verus! {

/// One horizontal run of pixels, from `x_start` to `x_end` on line `y`.
#[derive(Clone, Copy, Debug, PartialEq, Eq)]
pub struct Span {
    pub y: i64,
    pub x_start: i64,
    pub x_end: i64,
}

/// The largest integer whose square is at most `n`; 0 for `n <= 0`.
pub open spec fn floor_sqrt(n: int) -> int
    decreases n,
{
    if n <= 0 {
        0
    } else {
        let below = floor_sqrt(n - 1);
        if (below + 1) * (below + 1) <= n {
            below + 1
        } else {
            below
        }
    }
}

/// `floor_sqrt(n)` is the one `w >= 0` with `w * w <= n < (w + 1) * (w + 1)`.
pub proof fn lemma_floor_sqrt(n: int, w: int)
    requires
        n >= 0,
    ensures
        0 <= floor_sqrt(n),
        floor_sqrt(n) * floor_sqrt(n) <= n < (floor_sqrt(n) + 1) * (floor_sqrt(n) + 1),
        0 <= w && w * w <= n < (w + 1) * (w + 1) ==> w == floor_sqrt(n),
    decreases n,
{
    let s = floor_sqrt(n);
    if n > 0 {
        lemma_floor_sqrt(n - 1, w);
        let below = floor_sqrt(n - 1);
        if (below + 1) * (below + 1) <= n {
            assert(n < (s + 1) * (s + 1)) by (nonlinear_arith)
                requires
                    s == below + 1,
                    below >= 0,
                    n - 1 < (below + 1) * (below + 1),
            ;
        }
    } else {
        assert(s * s == 0 && (s + 1) * (s + 1) == 1) by (nonlinear_arith)
            requires
                s == 0,
        ;
    }
    if 0 <= w && w * w <= n < (w + 1) * (w + 1) {
        assert(w == s) by (nonlinear_arith)
            requires
                0 <= w,
                0 <= s,
                w * w <= n < (w + 1) * (w + 1),
                s * s <= n < (s + 1) * (s + 1),
        ;
    }
}

/// Half the width of the run that lies `i` lines above or below the centre
/// of a circle of the given radius. The circle's true radius is half a
/// pixel less, so that a circle of radius `r` is `2r - 1` pixels wide.
pub open spec fn half_width(radius: int, i: int) -> int {
    floor_sqrt(radius * radius - radius - i * i)
}

/// The number of runs of a circle: one through the centre, and two for
/// each further line.
pub open spec fn span_count(radius: int) -> int {
    if radius >= 1 {
        2 * radius - 1
    } else {
        1
    }
}

/// The runs of a circle in drawing order: first the one through the centre,
/// then, for each distance from 1 up to `radius - 1`, the run below the
/// centre and the run above it.
pub open spec fn circle_spans(center: (i32, i32), radius: i32) -> Seq<Span> {
    Seq::new(
        span_count(radius as int) as nat,
        |k: int|
            if k == 0 {
                Span {
                    y: center.1 as i64,
                    x_start: (center.0 - (radius - 1)) as i64,
                    x_end: (center.0 + (radius - 1)) as i64,
                }
            } else {
                let i = (k + 1) / 2;
                let w = half_width(radius as int, i);
                Span {
                    y: (if k % 2 == 1 {
                        center.1 + i
                    } else {
                        center.1 - i
                    }) as i64,
                    x_start: (center.0 - w) as i64,
                    x_end: (center.0 + w) as i64,
                }
            },
    )
}

/// Computes the runs that fill a circle.
pub fn fill_circle(center: (i32, i32), radius: i32) -> (spans: Vec<Span>)
    ensures
        spans@ == circle_spans(center, radius),
{
    let cx: i64 = center.0 as i64;
    let cy: i64 = center.1 as i64;
    let r: i64 = radius as i64;
    let mut spans: Vec<Span> = Vec::new();
    spans.push(Span { y: cy, x_start: cx - (r - 1), x_end: cx + (r - 1) });
    if radius < 1 {
        return spans;
    }
    assert(0 < r * r <= 0x8000_0000 * 0x8000_0000) by (nonlinear_arith)
        requires
            1 <= r <= 0x8000_0000,
    ;
    let area: i64 = r * r - r;
    let mut w: i64 = r - 1;
    let mut i: i64 = 1;
    while i < r
        invariant
            1 <= i <= r,
            r == radius,
            cx == center.0,
            cy == center.1,
            1 <= r <= 0x7fff_ffff,
            area == r * r - r,
            0 <= w < r,
            i < r ==> area - i * i < (w + 1) * (w + 1),
            spans@.len() == 2 * i - 1,
            forall|k: int| 0 <= k < spans@.len() ==> spans@[k] == circle_spans(center, radius)[k],
        decreases r - i,
    {
        assert(0 < i * i <= (r - 1) * (r - 1) && (r - 1) * (r - 1) == r * r - 2 * r + 1) by (nonlinear_arith)
            requires
                1 <= i <= r - 1,
        ;
        let rest: i64 = area - i * i;
        assert(0 <= w * w <= 0x7fff_ffff * 0x7fff_ffff) by (nonlinear_arith)
            requires
                0 <= w < 0x7fff_ffff,
        ;
        while w * w > rest
            invariant
                0 <= w < r,
                0 <= rest,
                1 <= r <= 0x7fff_ffff,
                rest < (w + 1) * (w + 1),
                0 <= w * w <= 0x7fff_ffff * 0x7fff_ffff,
            decreases w,
        {
            assert(w >= 1) by (nonlinear_arith)
                requires
                    0 <= w,
                    w * w > rest,
                    rest >= 0,
            ;
            w = w - 1;
            assert(0 <= w * w <= 0x7fff_ffff * 0x7fff_ffff) by (nonlinear_arith)
                requires
                    0 <= w < 0x7fff_ffff,
            ;
        }
        proof {
            lemma_floor_sqrt(rest as int, w as int);
        }
        spans.push(Span { y: cy + i, x_start: cx - w, x_end: cx + w });
        spans.push(Span { y: cy - i, x_start: cx - w, x_end: cx + w });
        proof {
            if i + 1 < r {
                assert(area - (i + 1) * (i + 1) < (w + 1) * (w + 1)) by (nonlinear_arith)
                    requires
                        rest < (w + 1) * (w + 1),
                        rest == area - i * i,
                        i >= 1,
                ;
            }
        }
        i = i + 1;
    }
    spans
}

} // verus!
