use vstd::prelude::*;
use crate::ratio::{round_div, saturate_u32, lemma_round_div_exact};

verus! {

/// `v` lies in the closed range spanned by `a` and `b`, in either order.
pub open spec fn between(v: int, a: int, b: int) -> bool {
    if a <= b {
        a <= v <= b
    } else {
        b <= v <= a
    }
}

/// The row of the line through `(x1, y1)` and `(x2, y2)` at column `x`
/// (x1 != x2): y1 + (y2 - y1) * (x - x1) / (x2 - x1), rounded to the nearest
/// integer with halves away from zero, then saturated into `u32`.
pub open spec fn line_y(x1: int, y1: int, x2: int, y2: int, x: int) -> int
    recommends
        x1 != x2,
{
    let d = x2 - x1;
    let n = y1 * d + (y2 - y1) * (x - x1);
    saturate_u32(if d > 0 { round_div(n, d) } else { round_div(-n, -d) })
}

/// Pixel `(cx, cy)` is on the segment from `(x1, y1)` to `(x2, y2)`: it lies in
/// the segment's bounding box and, unless the segment is vertical, on the row
/// that the line equation gives for its column.
pub open spec fn on_segment(x1: int, y1: int, x2: int, y2: int, cx: int, cy: int) -> bool {
    &&& between(cx, x1, x2)
    &&& between(cy, y1, y2)
    &&& (x1 == x2 || cy == line_y(x1, y1, x2, y2, cx))
}

/// Decides whether pixel `(current_x, current_y)` is drawn as part of the
/// segment from `(x1, y1)` to `(x2, y2)`.
pub fn check_point_on_line(
    x1: u32,
    y1: u32,
    x2: u32,
    y2: u32,
    current_x: u32,
    current_y: u32,
) -> (r: bool)
    ensures
        r == on_segment(
            x1 as int,
            y1 as int,
            x2 as int,
            y2 as int,
            current_x as int,
            current_y as int,
        ),
{
    if x1 <= x2 && (current_x < x1 || current_x > x2) {
        return false;
    }
    if x1 >= x2 && (current_x < x2 || current_x > x1) {
        return false;
    }
    if y1 <= y2 && (current_y < y1 || current_y > y2) {
        return false;
    }
    if y1 >= y2 && (current_y < y2 || current_y > y1) {
        return false;
    }
    if x1 == x2 {
        return true;
    }
    let calculated_y = calculate_y(x1, y1, x2, y2, current_x);
    current_y == calculated_y
}

/// The row of the non-vertical line through `(x1, y1)` and `(x2, y2)` at
/// column `x`, computed exactly.
pub fn calculate_y(x1: u32, y1: u32, x2: u32, y2: u32, x: u32) -> (r: u32)
    requires
        x1 != x2,
    ensures
        r as int == line_y(x1 as int, y1 as int, x2 as int, y2 as int, x as int),
{
    let d0: i128 = x2 as i128 - x1 as i128;
    let a: i128 = y1 as i128;
    let b: i128 = y2 as i128 - y1 as i128;
    let c: i128 = x as i128 - x1 as i128;
    proof {
        let lim = 0x1_0000_0000int;
        crate::vec3::lemma_abs_mul_le(a as int, d0 as int, lim, lim);
        crate::vec3::lemma_abs_mul_le(b as int, c as int, lim, lim);
        assert(0x1_0000_0000int * 0x1_0000_0000int == 0x1_0000_0000_0000_0000int) by (nonlinear_arith);
    }
    let n0: i128 = a * d0 + b * c;
    let (n, d) = if d0 > 0 { (n0, d0) } else { (-n0, -d0) };
    let rounded: i128 = if n >= 0 {
        (2 * n + d) / (2 * d)
    } else {
        -((-2 * n + d) / (2 * d))
    };
    proof {
        if n >= 0 {
            assert(0 <= (2 * n + d) / (2 * d) <= 2 * n + d) by (nonlinear_arith)
                requires n >= 0, d > 0;
        } else {
            assert(0 <= (-2 * n + d) / (2 * d) <= -2 * n + d) by (nonlinear_arith)
                requires n < 0, d > 0;
        }
    }
    if rounded < 0 {
        0
    } else if rounded > u32::MAX as i128 {
        u32::MAX
    } else {
        rounded as u32
    }
}

/// Both endpoints of a segment are always drawn.
pub proof fn lemma_endpoints_on_segment(x1: u32, y1: u32, x2: u32, y2: u32)
    ensures
        on_segment(x1 as int, y1 as int, x2 as int, y2 as int, x1 as int, y1 as int),
        on_segment(x1 as int, y1 as int, x2 as int, y2 as int, x2 as int, y2 as int),
{
    let (a1, b1, a2, b2) = (x1 as int, y1 as int, x2 as int, y2 as int);
    if a1 != a2 {
        let d = a2 - a1;
        assert(b1 * d + (b2 - b1) * (a1 - a1) == b1 * d) by (nonlinear_arith);
        assert(b1 * d + (b2 - b1) * (a2 - a1) == b2 * d) by (nonlinear_arith)
            requires d == a2 - a1;
        if d > 0 {
            lemma_round_div_exact(b1, d);
            lemma_round_div_exact(b2, d);
        } else {
            assert(-(b1 * d) == b1 * (-d)) by (nonlinear_arith);
            assert(-(b2 * d) == b2 * (-d)) by (nonlinear_arith);
            lemma_round_div_exact(b1, -d);
            lemma_round_div_exact(b2, -d);
        }
    }
}

/// Swapping the two endpoints of a segment draws the same pixels.
pub proof fn lemma_segment_symmetric(x1: u32, y1: u32, x2: u32, y2: u32, cx: u32, cy: u32)
    ensures
        on_segment(x1 as int, y1 as int, x2 as int, y2 as int, cx as int, cy as int)
            == on_segment(x2 as int, y2 as int, x1 as int, y1 as int, cx as int, cy as int),
{
    let (a1, b1, a2, b2, x) = (x1 as int, y1 as int, x2 as int, y2 as int, cx as int);
    if a1 != a2 {
        let d = a2 - a1;
        let n = b1 * d + (b2 - b1) * (x - a1);
        let n_swapped = b2 * (a1 - a2) + (b1 - b2) * (x - a2);
        assert(n_swapped == -n) by (nonlinear_arith)
            requires
                d == a2 - a1,
                n == b1 * d + (b2 - b1) * (x - a1),
                n_swapped == b2 * (a1 - a2) + (b1 - b2) * (x - a2),
        ;
        assert(line_y(a1, b1, a2, b2, x) == line_y(a2, b2, a1, b1, x));
    }
}

} // verus!
