use vstd::prelude::*;

verus! {

/// Largest magnitude of a world coordinate that the camera accepts. Within it
/// every step of a projection is computed exactly in 128-bit integers.
pub const COORD_LIMIT: i64 = 1_000_000;

/// Bound on the coordinates of the two vectors of a dot product computed in
/// 128 bits.
pub const DOT_LIMIT: i64 = 0x4000_0000_0000_0000;

/// b - a: the displacement that leads from position `a` to position `b`.
pub open spec fn displacement(a: (int, int, int), b: (int, int, int)) -> (int, int, int) {
    (b.0 - a.0, b.1 - a.1, b.2 - a.2)
}

pub open spec fn sum(a: (int, int, int), b: (int, int, int)) -> (int, int, int) {
    (a.0 + b.0, a.1 + b.1, a.2 + b.2)
}

pub open spec fn scaled(a: (int, int, int), k: int) -> (int, int, int) {
    (k * a.0, k * a.1, k * a.2)
}

pub open spec fn dot(a: (int, int, int), b: (int, int, int)) -> int {
    a.0 * b.0 + a.1 * b.1 + a.2 * b.2
}

/// Every coordinate lies in `-limit ..= limit`.
pub open spec fn bounded(a: (int, int, int), limit: int) -> bool {
    -limit <= a.0 <= limit && -limit <= a.1 <= limit && -limit <= a.2 <= limit
}

pub open spec fn fits_i64(a: (int, int, int)) -> bool {
    bounded(a, i64::MAX as int) && a.0 >= i64::MIN && a.1 >= i64::MIN && a.2 >= i64::MIN
}

/// A point or a displacement in world space, with integer coordinates.
#[derive(Clone, Copy, Debug, PartialEq, Eq, Structural)]
pub struct Vec3 {
    pub x: i64,
    pub y: i64,
    pub z: i64,
}

impl View for Vec3 {
    type V = (int, int, int);

    open spec fn view(&self) -> (int, int, int) {
        (self.x as int, self.y as int, self.z as int)
    }
}

impl Vec3 {
    pub fn new(x: i64, y: i64, z: i64) -> (r: Self)
        ensures
            r@ == (x as int, y as int, z as int),
    {
        Vec3 { x, y, z }
    }

    /// Each coordinate multiplied by `scalar`.
    pub fn scale(&self, scalar: i64) -> (r: Self)
        requires
            fits_i64(scaled(self@, scalar as int)),
        ensures
            r@ == scaled(self@, scalar as int),
    {
        Vec3 { x: scalar * self.x, y: scalar * self.y, z: scalar * self.z }
    }

    /// The vector that leads from `position_vec_1` to `position_vec_2`.
    pub fn from_two_position(position_vec_1: &Self, position_vec_2: &Self) -> (r: Self)
        requires
            fits_i64(displacement(position_vec_1@, position_vec_2@)),
        ensures
            r@ == displacement(position_vec_1@, position_vec_2@),
    {
        Vec3 {
            x: position_vec_2.x - position_vec_1.x,
            y: position_vec_2.y - position_vec_1.y,
            z: position_vec_2.z - position_vec_1.z,
        }
    }

    pub fn add(vec_1: &Self, vec_2: &Self) -> (r: Self)
        requires
            fits_i64(sum(vec_1@, vec_2@)),
        ensures
            r@ == sum(vec_1@, vec_2@),
    {
        Vec3 { x: vec_1.x + vec_2.x, y: vec_1.y + vec_2.y, z: vec_1.z + vec_2.z }
    }

    /// The dot product, exact in 128 bits.
    pub fn dot_product(vec_1: &Self, vec_2: &Self) -> (r: i128)
        requires
            bounded(vec_1@, DOT_LIMIT as int),
            bounded(vec_2@, DOT_LIMIT as int),
        ensures
            r as int == dot(vec_1@, vec_2@),
    {
        let (a, b, c) = (vec_1.x as i128, vec_1.y as i128, vec_1.z as i128);
        let (d, e, f) = (vec_2.x as i128, vec_2.y as i128, vec_2.z as i128);
        proof {
            lemma_abs_mul_le(a as int, d as int, DOT_LIMIT as int, DOT_LIMIT as int);
            lemma_abs_mul_le(b as int, e as int, DOT_LIMIT as int, DOT_LIMIT as int);
            lemma_abs_mul_le(c as int, f as int, DOT_LIMIT as int, DOT_LIMIT as int);
            assert(DOT_LIMIT as int * DOT_LIMIT as int == 0x1000_0000_0000_0000_0000_0000_0000_0000int)
                by (nonlinear_arith);
        }
        a * d + b * e + c * f
    }
}

/// |a * b| <= la * lb when |a| <= la and |b| <= lb.
pub proof fn lemma_abs_mul_le(a: int, b: int, la: int, lb: int)
    requires
        -la <= a <= la,
        -lb <= b <= lb,
    ensures
        -(la * lb) <= a * b <= la * lb,
{
    assert(-(la * lb) <= a * b <= la * lb) by (nonlinear_arith)
        requires
            -la <= a <= la,
            -lb <= b <= lb,
    ;
}

/// A dot product of bounded vectors is bounded.
pub proof fn lemma_dot_bound(a: (int, int, int), b: (int, int, int), la: int, lb: int)
    requires
        bounded(a, la),
        bounded(b, lb),
    ensures
        -(3 * (la * lb)) <= dot(a, b) <= 3 * (la * lb),
{
    lemma_abs_mul_le(a.0, b.0, la, lb);
    lemma_abs_mul_le(a.1, b.1, la, lb);
    lemma_abs_mul_le(a.2, b.2, la, lb);
}

} // verus!
