use vstd::prelude::*;
use crate::camera::{
    axis_fraction, degenerate, doubled_center, doubled_normal, lambda_den, lambda_num,
    lemma_local_dot, projection, scaled_local,
};
use crate::ratio::frac_of;
use crate::vec3::{displacement, dot, scaled, sum};

verus! {

/// For the screen spanning `(0, 0, 0)`, `(width, 0, 0)` and `(0, height, 0)`
/// with the pin-hole at `(width / 2, height / 2, distance)`, a point `(x, y, 0)`
/// of the screen plane projects to `(x / width, y / height)`.
pub proof fn lemma_screen_plane_point(half_width: int, half_height: int, distance: int, x: int, y: int)
    requires
        half_width > 0,
        half_height > 0,
        distance > 0,
    ensures
        projection(
            (half_width, half_height, distance),
            (0, 0, 0),
            (2 * half_width, 0, 0),
            (0, 2 * half_height, 0),
            (x, y, 0),
        ) == Some((
            (4 * (distance * distance) * x * (2 * half_width),
                4 * (distance * distance) * ((2 * half_width) * (2 * half_width))),
            (4 * (distance * distance) * y * (2 * half_height),
                4 * (distance * distance) * ((2 * half_height) * (2 * half_height))),
        )),
{
    let (a, b, d) = (half_width, half_height, distance);
    let pin = (a, b, d);
    let tl = (0int, 0int, 0int);
    let tr = (2 * a, 0int, 0int);
    let bl = (0int, 2 * b, 0int);
    let p = (x, y, 0int);
    let c2 = doubled_center(tl, tr, bl);
    assert(c2 == (2 * a, 2 * b, 0int));
    assert(doubled_normal(pin, c2) == (0int, 0int, 2 * d));
    assert(displacement(scaled(p, 2), c2) == (2 * a - 2 * x, 2 * b - 2 * y, 0int));
    assert(0 * (2 * a - 2 * x) + 0 * (2 * b - 2 * y) + (2 * d) * 0 == 0) by (nonlinear_arith);
    assert(lambda_num(pin, c2, p) == 0);
    let dd = d * d;
    assert(displacement(p, pin) == (a - x, b - y, d));
    assert(0 * (a - x) + 0 * (b - y) + (2 * d) * d == 2 * dd) by (nonlinear_arith)
        requires dd == d * d;
    assert(lambda_den(pin, c2, p) == 4 * dd);
    let top = displacement(tl, tr);
    let left = displacement(tl, bl);
    lemma_local_dot(displacement(tl, p), displacement(p, pin), top, 4 * dd, 0);
    lemma_local_dot(displacement(tl, p), displacement(p, pin), left, 4 * dd, 0);
    assert(dot(top, top) == (2 * a) * (2 * a));
    assert(dot(left, left) == (2 * b) * (2 * b));
    assert(dd > 0) by (nonlinear_arith) requires d > 0, dd == d * d;
    assert((2 * a) * (2 * a) > 0) by (nonlinear_arith) requires a > 0;
    assert((2 * b) * (2 * b) > 0) by (nonlinear_arith) requires b > 0;
    assert(4 * dd * ((2 * a) * (2 * a)) > 0) by (nonlinear_arith)
        requires dd > 0, (2 * a) * (2 * a) > 0;
    assert(4 * dd * ((2 * b) * (2 * b)) > 0) by (nonlinear_arith)
        requires dd > 0, (2 * b) * (2 * b) > 0;
    assert(4 * dd * x * (2 * a) == 4 * dd * (x * (2 * a))) by (nonlinear_arith);
    assert(4 * dd * y * (2 * b) == 4 * dd * (y * (2 * b))) by (nonlinear_arith);
    assert(!degenerate(pin, tl, tr, bl, p));
}

/// The center of an axis-aligned screen, seen from a pin-hole straight in
/// front of it, projects to `(1/2, 1/2)`.
pub proof fn lemma_center_projects_to_middle(half_width: int, half_height: int, distance: int)
    requires
        half_width > 0,
        half_height > 0,
        distance > 0,
    ensures
        ({
            let r = projection(
                (half_width, half_height, distance),
                (0, 0, 0),
                (2 * half_width, 0, 0),
                (0, 2 * half_height, 0),
                (half_width, half_height, 0),
            );
            match r {
                Some((u, v)) => 2 * u.0 == u.1 && 2 * v.0 == v.1,
                None => false,
            }
        }),
{
    let (a, b, dd) = (half_width, half_height, distance * distance);
    lemma_screen_plane_point(a, b, distance, a, b);
    assert(2 * (4 * dd * a * (2 * a)) == 4 * dd * ((2 * a) * (2 * a))) by (nonlinear_arith);
    assert(2 * (4 * dd * b * (2 * b)) == 4 * dd * ((2 * b) * (2 * b))) by (nonlinear_arith);
}

/// On the same screen the top-left corner projects to `(0, 0)`, the top-right
/// corner to `(1, 0)`, the bottom-left corner to `(0, 1)` and the bottom-right
/// corner to `(1, 1)`.
pub proof fn lemma_corners_project_to_unit_square(half_width: int, half_height: int, distance: int)
    requires
        half_width > 0,
        half_height > 0,
        distance > 0,
    ensures
        ({
            let pin = (half_width, half_height, distance);
            let tl = (0int, 0int, 0int);
            let tr = (2 * half_width, 0int, 0int);
            let bl = (0int, 2 * half_height, 0int);
            let br = (2 * half_width, 2 * half_height, 0int);
            let a = projection(pin, tl, tr, bl, tl);
            let b = projection(pin, tl, tr, bl, tr);
            let c = projection(pin, tl, tr, bl, bl);
            let d = projection(pin, tl, tr, bl, br);
            &&& (match a { Some((u, v)) => u.0 == 0 && v.0 == 0, None => false })
            &&& (match b { Some((u, v)) => u.0 == u.1 && v.0 == 0, None => false })
            &&& (match c { Some((u, v)) => u.0 == 0 && v.0 == v.1, None => false })
            &&& (match d { Some((u, v)) => u.0 == u.1 && v.0 == v.1, None => false })
        }),
{
    let (a, b, dd) = (half_width, half_height, distance * distance);
    lemma_screen_plane_point(a, b, distance, 0, 0);
    lemma_screen_plane_point(a, b, distance, 2 * a, 0);
    lemma_screen_plane_point(a, b, distance, 0, 2 * b);
    lemma_screen_plane_point(a, b, distance, 2 * a, 2 * b);
    assert(4 * dd * 0 * (2 * a) == 0) by (nonlinear_arith);
    assert(4 * dd * 0 * (2 * b) == 0) by (nonlinear_arith);
    assert(4 * dd * (2 * a) * (2 * a) == 4 * dd * ((2 * a) * (2 * a))) by (nonlinear_arith);
    assert(4 * dd * (2 * b) * (2 * b) == 4 * dd * ((2 * b) * (2 * b))) by (nonlinear_arith);
}

proof fn lemma_scaled_displacement(a: (int, int, int), b: (int, int, int), k: int)
    ensures
        displacement(scaled(a, k), scaled(b, k)) == scaled(displacement(a, b), k),
{
    assert(k * b.0 - k * a.0 == k * (b.0 - a.0)) by (nonlinear_arith);
    assert(k * b.1 - k * a.1 == k * (b.1 - a.1)) by (nonlinear_arith);
    assert(k * b.2 - k * a.2 == k * (b.2 - a.2)) by (nonlinear_arith);
}

proof fn lemma_scaled_sum(a: (int, int, int), b: (int, int, int), k: int)
    ensures
        sum(scaled(a, k), scaled(b, k)) == scaled(sum(a, b), k),
{
    assert(k * a.0 + k * b.0 == k * (a.0 + b.0)) by (nonlinear_arith);
    assert(k * a.1 + k * b.1 == k * (a.1 + b.1)) by (nonlinear_arith);
    assert(k * a.2 + k * b.2 == k * (a.2 + b.2)) by (nonlinear_arith);
}

proof fn lemma_scaled_twice(a: (int, int, int), k: int)
    ensures
        scaled(scaled(a, 2), k) == scaled(scaled(a, k), 2),
{
    assert(k * (2 * a.0) == 2 * (k * a.0)) by (nonlinear_arith);
    assert(k * (2 * a.1) == 2 * (k * a.1)) by (nonlinear_arith);
    assert(k * (2 * a.2) == 2 * (k * a.2)) by (nonlinear_arith);
}

proof fn lemma_scaled_dot(a: (int, int, int), b: (int, int, int), k: int)
    ensures
        dot(scaled(a, k), scaled(b, k)) == k * k * dot(a, b),
{
    let (a0, a1, a2, b0, b1, b2) = (a.0, a.1, a.2, b.0, b.1, b.2);
    assert((k * a0) * (k * b0) == k * k * (a0 * b0)) by (nonlinear_arith);
    assert((k * a1) * (k * b1) == k * k * (a1 * b1)) by (nonlinear_arith);
    assert((k * a2) * (k * b2) == k * k * (a2 * b2)) by (nonlinear_arith);
    assert(k * k * (a0 * b0) + k * k * (a1 * b1) + k * k * (a2 * b2)
        == k * k * (a0 * b0 + a1 * b1 + a2 * b2)) by (nonlinear_arith);
}

/// Multiplying numerator and denominator by a positive factor keeps the value.
proof fn lemma_frac_scale(n: int, d: int, f: int)
    requires
        f > 0,
    ensures
        frac_of(n, d).0 * frac_of(f * n, f * d).1 == frac_of(f * n, f * d).0 * frac_of(n, d).1,
{
    if d < 0 {
        assert(f * d < 0) by (nonlinear_arith) requires f > 0, d < 0;
    } else {
        assert(f * d >= 0) by (nonlinear_arith) requires f > 0, d >= 0;
    }
    assert(n * (f * d) == (f * n) * d) by (nonlinear_arith);
    assert((-n) * (-(f * d)) == (-(f * n)) * (-d)) by (nonlinear_arith);
}

/// The fraction along one edge is unchanged when the whole scene is scaled by `k`.
proof fn lemma_axis_fraction_scaled(
    pin_hole: (int, int, int),
    top_left: (int, int, int),
    top_right: (int, int, int),
    bottom_left: (int, int, int),
    p: (int, int, int),
    axis: (int, int, int),
    k: int,
)
    requires
        k > 0,
    ensures
        ({
            let f = axis_fraction(pin_hole, top_left, top_right, bottom_left, p, axis);
            let g = axis_fraction(
                scaled(pin_hole, k),
                scaled(top_left, k),
                scaled(top_right, k),
                scaled(bottom_left, k),
                scaled(p, k),
                scaled(axis, k),
            );
            f.0 * g.1 == g.0 * f.1
        }),
        lambda_den(
            scaled(pin_hole, k),
            doubled_center(scaled(top_left, k), scaled(top_right, k), scaled(bottom_left, k)),
            scaled(p, k),
        ) == k * k * lambda_den(pin_hole, doubled_center(top_left, top_right, bottom_left), p),
{
    let (pin, tl, tr, bl) = (pin_hole, top_left, top_right, bottom_left);
    let (pin_k, tl_k, tr_k, bl_k, p_k) = (scaled(pin, k), scaled(tl, k), scaled(tr, k), scaled(bl, k), scaled(p, k));
    let c2 = doubled_center(tl, tr, bl);
    let c2_k = doubled_center(tl_k, tr_k, bl_k);
    lemma_scaled_displacement(tl, tr, k);
    lemma_scaled_displacement(tl, bl, k);
    lemma_scaled_twice(tl, k);
    lemma_scaled_sum(displacement(tl, tr), displacement(tl, bl), k);
    lemma_scaled_sum(scaled(tl, 2), sum(displacement(tl, tr), displacement(tl, bl)), k);
    assert(c2_k == scaled(c2, k));
    lemma_scaled_twice(pin, k);
    lemma_scaled_displacement(c2, scaled(pin, 2), k);
    let m = doubled_normal(pin, c2);
    assert(doubled_normal(pin_k, c2_k) == scaled(m, k));
    lemma_scaled_twice(p, k);
    lemma_scaled_displacement(scaled(p, 2), c2, k);
    lemma_scaled_dot(m, displacement(scaled(p, 2), c2), k);
    let kk = k * k;
    let ln = lambda_num(pin, c2, p);
    let ld = lambda_den(pin, c2, p);
    assert(lambda_num(pin_k, c2_k, p_k) == kk * ln);
    lemma_scaled_displacement(p, pin, k);
    lemma_scaled_dot(m, displacement(p, pin), k);
    let ld_half = dot(m, displacement(p, pin));
    assert(2 * (kk * ld_half) == kk * (2 * ld_half)) by (nonlinear_arith);
    assert(lambda_den(pin_k, c2_k, p_k) == kk * ld);
    lemma_scaled_displacement(tl, p, k);
    let x = dot(displacement(tl, p), axis);
    let y = dot(displacement(p, pin), axis);
    let tt = dot(axis, axis);
    lemma_local_dot(displacement(tl, p), displacement(p, pin), axis, ld, ln);
    lemma_local_dot(scaled(displacement(tl, p), k), scaled(displacement(p, pin), k), scaled(axis, k), kk * ld, kk * ln);
    lemma_scaled_dot(displacement(tl, p), axis, k);
    lemma_scaled_dot(displacement(p, pin), axis, k);
    lemma_scaled_dot(axis, axis, k);
    assert(kk * ld * (kk * x) + kk * ln * (kk * y) == (kk * kk) * (ld * x + ln * y)) by (nonlinear_arith);
    assert(kk * ld * (kk * tt) == (kk * kk) * (ld * tt)) by (nonlinear_arith);
    assert(kk > 0) by (nonlinear_arith) requires k > 0, kk == k * k;
    assert(kk * kk > 0) by (nonlinear_arith) requires kk > 0;
    lemma_frac_scale(ld * x + ln * y, ld * tt, kk * kk);
}

/// Scaling every world coordinate (screen, pin-hole and the point) by the same
/// positive factor leaves the projection unchanged: it is defined for both or
/// for neither, and both coordinates keep their values.
pub proof fn lemma_projection_scale_invariant(
    pin_hole: (int, int, int),
    top_left: (int, int, int),
    top_right: (int, int, int),
    bottom_left: (int, int, int),
    p: (int, int, int),
    k: int,
)
    requires
        k > 0,
    ensures
        ({
            let r = projection(pin_hole, top_left, top_right, bottom_left, p);
            let s = projection(
                scaled(pin_hole, k),
                scaled(top_left, k),
                scaled(top_right, k),
                scaled(bottom_left, k),
                scaled(p, k),
            );
            &&& (r is Some <==> s is Some)
            &&& (match (r, s) {
                (Some((u, v)), Some((u2, v2))) => u.0 * u2.1 == u2.0 * u.1 && v.0 * v2.1 == v2.0 * v.1,
                _ => true,
            })
        }),
{
    let (tl, tr, bl) = (top_left, top_right, bottom_left);
    let top = displacement(tl, tr);
    let left = displacement(tl, bl);
    lemma_scaled_displacement(tl, tr, k);
    lemma_scaled_displacement(tl, bl, k);
    lemma_axis_fraction_scaled(pin_hole, tl, tr, bl, p, top, k);
    lemma_axis_fraction_scaled(pin_hole, tl, tr, bl, p, left, k);
    lemma_scaled_dot(top, top, k);
    lemma_scaled_dot(left, left, k);
    let kk = k * k;
    assert(kk > 0) by (nonlinear_arith) requires k > 0, kk == k * k;
    let ld = lambda_den(pin_hole, doubled_center(tl, tr, bl), p);
    let tt = dot(top, top);
    let ll = dot(left, left);
    assert(kk * ld == 0 <==> ld == 0) by (nonlinear_arith) requires kk > 0;
    assert(kk * tt == 0 <==> tt == 0) by (nonlinear_arith) requires kk > 0;
    assert(kk * ll == 0 <==> ll == 0) by (nonlinear_arith) requires kk > 0;
}

/// The image of `p` lies on the screen plane: with q the intersection point,
/// c the screen's center and n its normal, `2 * lambda_den * (q - c)` is
/// orthogonal to n. (`2 * (q - top_left) * lambda_den` is twice
/// `scaled_local`, and `2 * (c - top_left)` is `top + left`.)
pub proof fn lemma_image_on_screen_plane(
    pin_hole: (int, int, int),
    top_left: (int, int, int),
    top_right: (int, int, int),
    bottom_left: (int, int, int),
    p: (int, int, int),
)
    ensures
        ({
            let c2 = doubled_center(top_left, top_right, bottom_left);
            let edges = sum(displacement(top_left, top_right), displacement(top_left, bottom_left));
            let ld = lambda_den(pin_hole, c2, p);
            dot(
                doubled_normal(pin_hole, c2),
                sum(scaled(scaled_local(pin_hole, top_left, c2, p), 2), scaled(edges, -ld)),
            ) == 0
        }),
{
    let (pin, tl, tr, bl) = (pin_hole, top_left, top_right, bottom_left);
    let c2 = doubled_center(tl, tr, bl);
    let edges = sum(displacement(tl, tr), displacement(tl, bl));
    let m = doubled_normal(pin, c2);
    let ln = lambda_num(pin, c2, p);
    let ld = lambda_den(pin, c2, p);
    let w = sum(scaled(scaled_local(pin, tl, c2, p), 2), scaled(edges, -ld));
    let a = displacement(scaled(p, 2), c2);
    let b = displacement(p, pin);
    let w2 = sum(scaled(a, -ld), scaled(b, 2 * ln));
    assert(2 * (ld * (p.0 - tl.0) + ln * (pin.0 - p.0)) + (-ld) * ((tr.0 - tl.0) + (bl.0 - tl.0))
        == (-ld) * (c2.0 - 2 * p.0) + (2 * ln) * (pin.0 - p.0)) by (nonlinear_arith)
        requires c2.0 == 2 * tl.0 + ((tr.0 - tl.0) + (bl.0 - tl.0));
    assert(2 * (ld * (p.1 - tl.1) + ln * (pin.1 - p.1)) + (-ld) * ((tr.1 - tl.1) + (bl.1 - tl.1))
        == (-ld) * (c2.1 - 2 * p.1) + (2 * ln) * (pin.1 - p.1)) by (nonlinear_arith)
        requires c2.1 == 2 * tl.1 + ((tr.1 - tl.1) + (bl.1 - tl.1));
    assert(2 * (ld * (p.2 - tl.2) + ln * (pin.2 - p.2)) + (-ld) * ((tr.2 - tl.2) + (bl.2 - tl.2))
        == (-ld) * (c2.2 - 2 * p.2) + (2 * ln) * (pin.2 - p.2)) by (nonlinear_arith)
        requires c2.2 == 2 * tl.2 + ((tr.2 - tl.2) + (bl.2 - tl.2));
    assert(w == w2);
    lemma_local_dot(a, b, m, -ld, 2 * ln);
    lemma_dot_symmetric(a, m);
    lemma_dot_symmetric(b, m);
    lemma_dot_symmetric(w, m);
    let hd = dot(m, b);
    assert(ld == 2 * hd);
    assert(ln == dot(m, a));
    assert((-ld) * ln + (2 * ln) * hd == 0) by (nonlinear_arith) requires ld == 2 * hd;
}

proof fn lemma_dot_symmetric(a: (int, int, int), b: (int, int, int))
    ensures
        dot(a, b) == dot(b, a),
{
    assert(a.0 * b.0 == b.0 * a.0) by (nonlinear_arith);
    assert(a.1 * b.1 == b.1 * a.1) by (nonlinear_arith);
    assert(a.2 * b.2 == b.2 * a.2) by (nonlinear_arith);
}

} // verus!
