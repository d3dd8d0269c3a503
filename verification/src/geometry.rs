//! Axis-aligned boxes in pixel coordinates, their areas, and the
//! Intersection-over-Union comparison used by non-maximum suppression.
//!
//! IoU(a, b) = inter / (area(a) + area(b) - inter), defined as 0 when either
//! box has zero area. The executable comparison against a rational threshold
//! `num / den` is done by cross-multiplication, so no division is needed and
//! degenerate boxes never divide by zero.
use vstd::prelude::*;

use crate::RATIO_LIMIT;

verus! {

/// An axis-aligned box in source-image pixel coordinates.
/// Degenerate boxes (non-positive width or height) are legal values; they
/// simply have zero area.
#[derive(Clone, Copy, PartialEq, Eq, Structural, Debug)]
pub struct Rect {
    pub left: i32,
    pub top: i32,
    pub width: i32,
    pub height: i32,
}

/// Area of a box; a degenerate box counts as zero area.
pub open spec fn rect_area(r: Rect) -> int {
    if r.width <= 0 || r.height <= 0 {
        0
    } else {
        r.width * r.height
    }
}

/// Length of the overlap of the intervals [s1, s1+l1] and [s2, s2+l2],
/// clamped at zero.
pub open spec fn overlap_len(s1: int, l1: int, s2: int, l2: int) -> int {
    let lo = if s1 >= s2 {
        s1
    } else {
        s2
    };
    let hi = if s1 + l1 <= s2 + l2 {
        s1 + l1
    } else {
        s2 + l2
    };
    if hi > lo {
        hi - lo
    } else {
        0
    }
}

/// Area of the intersection of two boxes.
pub open spec fn inter_area(a: Rect, b: Rect) -> int {
    overlap_len(a.left as int, a.width as int, b.left as int, b.width as int) * overlap_len(
        a.top as int,
        a.height as int,
        b.top as int,
        b.height as int,
    )
}

/// IoU(a, b) > num / den, with IoU defined as 0 when either area is zero.
/// Stated by cross-multiplication: inter * den > num * (area(a) + area(b) - inter).
pub open spec fn iou_exceeds(a: Rect, b: Rect, num: i64, den: i64) -> bool {
    rect_area(a) > 0 && rect_area(b) > 0 && inter_area(a, b) * den > num * (rect_area(a)
        + rect_area(b) - inter_area(a, b))
}

/// IoU is a symmetric measure, so is the threshold comparison.
pub proof fn lemma_iou_exceeds_symmetric(a: Rect, b: Rect, num: i64, den: i64)
    ensures
        iou_exceeds(a, b, num, den) == iou_exceeds(b, a, num, den),
{
}

/// A box of positive area overlaps itself completely, so its IoU with itself
/// is 1, above any threshold num / den < 1.
pub proof fn lemma_iou_exceeds_self(r: Rect, num: i64, den: i64)
    requires
        rect_area(r) > 0,
        0 <= num < den,
    ensures
        iou_exceeds(r, r, num, den),
{
    assert(inter_area(r, r) == rect_area(r));
    let a = rect_area(r);
    assert(a * den > num * a) by (nonlinear_arith)
        requires
            a > 0,
            0 <= num < den,
    ;
}

fn area_i128(r: &Rect) -> (a: i128)
    ensures
        a == rect_area(*r),
        0 <= a <= 0x4000_0000_0000_0000,
{
    if r.width <= 0 || r.height <= 0 {
        0
    } else {
        proof {
            assert((r.width as int) * (r.height as int) <= 0x4000_0000_0000_0000)
                by (nonlinear_arith)
                requires
                    0 < r.width < 0x8000_0000,
                    0 < r.height < 0x8000_0000,
            ;
        }
        (r.width as i128) * (r.height as i128)
    }
}

fn overlap_len_i128(s1: i32, l1: i32, s2: i32, l2: i32) -> (r: i128)
    ensures
        r == overlap_len(s1 as int, l1 as int, s2 as int, l2 as int),
        0 <= r <= 0x4_0000_0000,
{
    let e1: i128 = s1 as i128 + l1 as i128;
    let e2: i128 = s2 as i128 + l2 as i128;
    let lo: i128 = if s1 >= s2 {
        s1 as i128
    } else {
        s2 as i128
    };
    let hi: i128 = if e1 <= e2 {
        e1
    } else {
        e2
    };
    if hi > lo {
        hi - lo
    } else {
        0
    }
}

/// Decides IoU(a, b) > num / den without dividing, by cross-multiplication
/// in 128-bit arithmetic.
pub fn iou_exceeds_check(a: &Rect, b: &Rect, num: i64, den: i64) -> (r: bool)
    requires
        0 <= num <= RATIO_LIMIT,
        0 < den <= RATIO_LIMIT,
    ensures
        r == iou_exceeds(*a, *b, num, den),
{
    let aa = area_i128(a);
    let ab = area_i128(b);
    if aa <= 0 || ab <= 0 {
        return false;
    }
    let iw = overlap_len_i128(a.left, a.width, b.left, b.width);
    let ih = overlap_len_i128(a.top, a.height, b.top, b.height);
    proof {
        assert((iw as int) * (ih as int) <= 0x10_0000_0000_0000_0000) by (nonlinear_arith)
            requires
                0 <= iw <= 0x4_0000_0000,
                0 <= ih <= 0x4_0000_0000,
        ;
        assert((iw as int) * (ih as int) >= 0) by (nonlinear_arith)
            requires
                0 <= iw,
                0 <= ih,
        ;
    }
    let inter: i128 = iw * ih;
    let uni: i128 = aa + ab - inter;
    proof {
        assert((inter as int) * (den as int) <= 0x10_0000_0000_0000_0000 * 0x4000_0000)
            by (nonlinear_arith)
            requires
                0 <= inter <= 0x10_0000_0000_0000_0000,
                0 < den <= 0x4000_0000,
        ;
        assert((inter as int) * (den as int) >= 0) by (nonlinear_arith)
            requires
                0 <= inter,
                0 < den,
        ;
        assert(
            (num as int) * (uni as int) <= 0x20_0000_0000_0000_0000 * 0x4000_0000
            && (num as int) * (uni as int) >= -(0x20_0000_0000_0000_0000 * 0x4000_0000)
        ) by (nonlinear_arith)
            requires
                0 <= num <= 0x4000_0000,
                -0x20_0000_0000_0000_0000 <= uni <= 0x20_0000_0000_0000_0000,
        ;
    }
    let lhs: i128 = inter * (den as i128);
    let rhs: i128 = (num as i128) * uni;
    lhs > rhs
}

} // verus!
