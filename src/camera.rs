use vstd::prelude::*;
use crate::ratio::{frac_of, Ratio, RATIO_LIMIT};
use crate::vec3::{
    bounded, displacement, dot, lemma_abs_mul_le, lemma_dot_bound, scaled, sum, Vec3,
    COORD_LIMIT, DOT_LIMIT,
};

verus! {

/// A world point as the camera accepts it.
pub open spec fn in_world(a: (int, int, int)) -> bool {
    bounded(a, COORD_LIMIT as int)
}

/// Twice the center of the screen, `2 * top_left + top + left`, which stays integral.
pub open spec fn doubled_center(
    top_left: (int, int, int),
    top_right: (int, int, int),
    bottom_left: (int, int, int),
) -> (int, int, int) {
    sum(scaled(top_left, 2), sum(displacement(top_left, top_right), displacement(top_left, bottom_left)))
}

/// Twice the normal of the screen plane, the vector from its center to the pin-hole.
pub open spec fn doubled_normal(pin_hole: (int, int, int), center2: (int, int, int)) -> (int, int, int) {
    displacement(center2, scaled(pin_hole, 2))
}

/// Numerator of the parameter λ at which the line `p + λ * (pin_hole - p)`
/// meets the screen plane: 4 * normal · (center - p).
pub open spec fn lambda_num(pin_hole: (int, int, int), center2: (int, int, int), p: (int, int, int)) -> int {
    dot(doubled_normal(pin_hole, center2), displacement(scaled(p, 2), center2))
}

/// Denominator of that parameter: 4 * normal · (pin_hole - p).
pub open spec fn lambda_den(pin_hole: (int, int, int), center2: (int, int, int), p: (int, int, int)) -> int {
    2 * dot(doubled_normal(pin_hole, center2), displacement(p, pin_hole))
}

/// The intersection point relative to `top_left`, multiplied by `lambda_den`:
/// lambda_den * (p - top_left) + lambda_num * (pin_hole - p).
pub open spec fn scaled_local(
    pin_hole: (int, int, int),
    top_left: (int, int, int),
    center2: (int, int, int),
    p: (int, int, int),
) -> (int, int, int) {
    sum(
        scaled(displacement(top_left, p), lambda_den(pin_hole, center2, p)),
        scaled(displacement(p, pin_hole), lambda_num(pin_hole, center2, p)),
    )
}

/// Whether the projection of `p` is undefined: the ray to the pin-hole runs
/// parallel to the screen plane, or a screen edge has length zero.
pub open spec fn degenerate(
    pin_hole: (int, int, int),
    top_left: (int, int, int),
    top_right: (int, int, int),
    bottom_left: (int, int, int),
    p: (int, int, int),
) -> bool {
    let top = displacement(top_left, top_right);
    let left = displacement(top_left, bottom_left);
    ||| lambda_den(pin_hole, doubled_center(top_left, top_right, bottom_left), p) == 0
    ||| dot(top, top) == 0
    ||| dot(left, left) == 0
}

/// The fraction of the edge vector `axis` that the intersection point of `p`
/// reaches from `top_left`: ((q - top_left) · axis) / (axis · axis), where q
/// is the image of `p` on the screen plane.
pub open spec fn axis_fraction(
    pin_hole: (int, int, int),
    top_left: (int, int, int),
    top_right: (int, int, int),
    bottom_left: (int, int, int),
    p: (int, int, int),
    axis: (int, int, int),
) -> (int, int) {
    let c2 = doubled_center(top_left, top_right, bottom_left);
    frac_of(
        dot(scaled_local(pin_hole, top_left, c2, p), axis),
        lambda_den(pin_hole, c2, p) * dot(axis, axis),
    )
}

/// The screen coordinates `(u, v)` of `p`, each a fraction `(num, den)`, or
/// `None` where the projection is undefined.
pub open spec fn projection(
    pin_hole: (int, int, int),
    top_left: (int, int, int),
    top_right: (int, int, int),
    bottom_left: (int, int, int),
    p: (int, int, int),
) -> Option<((int, int), (int, int))> {
    if degenerate(pin_hole, top_left, top_right, bottom_left, p) {
        None
    } else {
        Some((
            axis_fraction(pin_hole, top_left, top_right, bottom_left, p, displacement(top_left, top_right)),
            axis_fraction(pin_hole, top_left, top_right, bottom_left, p, displacement(top_left, bottom_left)),
        ))
    }
}

/// The rectangle, in world space, on which the scene is projected.
pub struct Screen {
    top_left: Vec3,
    top_right: Vec3,
    bottom_left: Vec3,
    bottom_right: Vec3,
    center_twice: Vec3,
    top: Vec3,
    left: Vec3,
}

impl View for Screen {
    /// The corners: top left, top right, bottom left, bottom right.
    type V = ((int, int, int), (int, int, int), (int, int, int), (int, int, int));

    closed spec fn view(&self) -> Self::V {
        (self.top_left@, self.top_right@, self.bottom_left@, self.bottom_right@)
    }
}

impl Screen {
    /// The derived edges and center agree with the corners, which lie in the world.
    pub closed spec fn wf(&self) -> bool {
        &&& in_world(self.top_left@)
        &&& in_world(self.top_right@)
        &&& in_world(self.bottom_left@)
        &&& in_world(self.bottom_right@)
        &&& self.top@ == displacement(self.top_left@, self.top_right@)
        &&& self.left@ == displacement(self.top_left@, self.bottom_left@)
        &&& self.center_twice@ == doubled_center(self.top_left@, self.top_right@, self.bottom_left@)
    }

    pub fn new(top_left: Vec3, top_right: Vec3, bottom_left: Vec3, bottom_right: Vec3) -> (r: Self)
        requires
            in_world(top_left@),
            in_world(top_right@),
            in_world(bottom_left@),
            in_world(bottom_right@),
        ensures
            r@ == (top_left@, top_right@, bottom_left@, bottom_right@),
            r.wf(),
    {
        let top = Vec3::from_two_position(&top_left, &top_right);
        let left = Vec3::from_two_position(&top_left, &bottom_left);
        let from_top_left = Vec3::add(&top, &left);
        let center_twice = Vec3::add(&top_left.scale(2), &from_top_left);
        Screen { top_left, top_right, bottom_left, bottom_right, center_twice, top, left }
    }
}

/// A pin-hole camera looking through a screen.
pub struct Camera {
    pin_hole: Vec3,
    screen: Screen,
}

impl View for Camera {
    /// The pin-hole and the screen's corners.
    type V = ((int, int, int), ((int, int, int), (int, int, int), (int, int, int), (int, int, int)));

    closed spec fn view(&self) -> Self::V {
        (self.pin_hole@, self.screen@)
    }
}

impl Camera {
    pub closed spec fn wf(&self) -> bool {
        self.screen.wf() && in_world(self.pin_hole@)
    }

    pub fn new(pin_hole: Vec3, screen: Screen) -> (r: Self)
        requires
            in_world(pin_hole@),
            screen.wf(),
        ensures
            r@ == (pin_hole@, screen@),
            r.wf(),
    {
        Camera { pin_hole, screen }
    }

    /// The screen coordinates of `world_position`: where the line from it to
    /// the pin-hole crosses the screen plane, measured from the top-left corner
    /// in fractions of the top and the left edge.
    pub fn find_projection(&self, world_position: &Vec3) -> (r: Option<(Ratio, Ratio)>)
        requires
            self.wf(),
            in_world(world_position@),
        ensures
            match r {
                None => projection(self@.0, self@.1.0, self@.1.1, self@.1.2, world_position@) is None,
                Some((u, v)) => {
                    &&& projection(self@.0, self@.1.0, self@.1.1, self@.1.2, world_position@)
                        == Some(((u.num as int, u.den as int), (v.num as int, v.den as int)))
                    &&& u.wf()
                    &&& v.wf()
                },
            },
    {
        let s = &self.screen;
        let p = world_position;
        let pin2 = self.pin_hole.scale(2);
        let normal = Vec3::from_two_position(&s.center_twice, &pin2);
        let to_pin = Vec3::from_two_position(p, &self.pin_hole);
        let p2 = p.scale(2);
        let to_center = Vec3::from_two_position(&p2, &s.center_twice);
        let from_corner = Vec3::from_two_position(&s.top_left, p);
        let lam_num = Vec3::dot_product(&normal, &to_center);
        let lam_half = Vec3::dot_product(&normal, &to_pin);
        let tt = Vec3::dot_product(&s.top, &s.top);
        let ll = Vec3::dot_product(&s.left, &s.left);
        let ct = Vec3::dot_product(&from_corner, &s.top);
        let cl = Vec3::dot_product(&from_corner, &s.left);
        let pt = Vec3::dot_product(&to_pin, &s.top);
        let pl = Vec3::dot_product(&to_pin, &s.left);
        proof {
            assert(COORD_LIMIT == 1_000_000);
            lemma_dot_bound(normal@, to_center@, 8_000_000, 8_000_000);
            lemma_dot_bound(normal@, to_pin@, 8_000_000, 2_000_000);
            lemma_dot_bound(s.top@, s.top@, 2_000_000, 2_000_000);
            lemma_dot_bound(s.left@, s.left@, 2_000_000, 2_000_000);
            lemma_dot_bound(from_corner@, s.top@, 2_000_000, 2_000_000);
            lemma_dot_bound(from_corner@, s.left@, 2_000_000, 2_000_000);
            lemma_dot_bound(to_pin@, s.top@, 2_000_000, 2_000_000);
            lemma_dot_bound(to_pin@, s.left@, 2_000_000, 2_000_000);
        }
        let lam_den = 2 * lam_half;
        if lam_den == 0 || tt == 0 || ll == 0 {
            return None;
        }
        proof {
            lemma_abs_mul_le(lam_den as int, ct as int, 96_000_000_000_000, 12_000_000_000_000);
            lemma_abs_mul_le(lam_num as int, pt as int, 192_000_000_000_000, 12_000_000_000_000);
            lemma_abs_mul_le(lam_den as int, cl as int, 96_000_000_000_000, 12_000_000_000_000);
            lemma_abs_mul_le(lam_num as int, pl as int, 192_000_000_000_000, 12_000_000_000_000);
            lemma_abs_mul_le(lam_den as int, tt as int, 96_000_000_000_000, 12_000_000_000_000);
            lemma_abs_mul_le(lam_den as int, ll as int, 96_000_000_000_000, 12_000_000_000_000);
            lemma_local_dot(from_corner@, to_pin@, s.top@, lam_den as int, lam_num as int);
            lemma_mul_nonzero(lam_den as int, tt as int);
            lemma_mul_nonzero(lam_den as int, ll as int);
            lemma_local_dot(from_corner@, to_pin@, s.left@, lam_den as int, lam_num as int);
        }
        let u = Ratio::new(lam_den * ct + lam_num * pt, lam_den * tt);
        let v = Ratio::new(lam_den * cl + lam_num * pl, lam_den * ll);
        Some((u, v))
    }
}

/// A product of nonzero integers is nonzero.
pub proof fn lemma_mul_nonzero(a: int, b: int)
    requires
        a != 0,
        b != 0,
    ensures
        a * b != 0,
{
    assert(a * b != 0) by (nonlinear_arith)
        requires
            a != 0,
            b != 0,
    ;
}

/// The dot product distributes over the sum of two scaled vectors.
pub proof fn lemma_local_dot(a: (int, int, int), b: (int, int, int), axis: (int, int, int), s: int, t: int)
    ensures
        dot(sum(scaled(a, s), scaled(b, t)), axis) == s * dot(a, axis) + t * dot(b, axis),
{
    let (a0, a1, a2, b0, b1, b2, c0, c1, c2) = (a.0, a.1, a.2, b.0, b.1, b.2, axis.0, axis.1, axis.2);
    assert((s * a0 + t * b0) * c0 == s * (a0 * c0) + t * (b0 * c0)) by (nonlinear_arith);
    assert((s * a1 + t * b1) * c1 == s * (a1 * c1) + t * (b1 * c1)) by (nonlinear_arith);
    assert((s * a2 + t * b2) * c2 == s * (a2 * c2) + t * (b2 * c2)) by (nonlinear_arith);
    assert(s * (a0 * c0 + a1 * c1 + a2 * c2) == s * (a0 * c0) + s * (a1 * c1) + s * (a2 * c2))
        by (nonlinear_arith);
    assert(t * (b0 * c0 + b1 * c1 + b2 * c2) == t * (b0 * c0) + t * (b1 * c1) + t * (b2 * c2))
        by (nonlinear_arith);
}

} // verus!
