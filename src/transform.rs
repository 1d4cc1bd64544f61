use crate::matrix::{Matrix, Point, pt};
use vstd::prelude::*;

verus! {

/// The fixed-point unit: a transform entry `v` stands for `v / ONE`.
pub const ONE: i32 = 10000;

/// `v / ONE` rounded to the nearest integer, halves upward.
pub open spec fn round_fix(v: int) -> int {
    (v + 5000) / 10000
}

pub open spec fn fits_i32(v: int) -> bool {
    i32::MIN <= v <= i32::MAX
}

/// An affine transform in homogeneous coordinates. `m` holds the top three rows
/// of the 4x4 matrix, row by row, in fixed point; the bottom row is always
/// `(0, 0, 0, 1)`. Entry `(r, c)` is `m[4 * r + c]`; column 3 is the translation.
#[derive(Debug)]
pub struct Transform {
    pub m: Vec<i32>,
}

/// Entry `(r, c)` of `a × b`, each entry rounded back to fixed point.
pub open spec fn product_entry(a: Seq<i32>, b: Seq<i32>, r: int, c: int) -> int {
    round_fix(
        a[4 * r] * b[c] + a[4 * r + 1] * b[4 + c] + a[4 * r + 2] * b[8 + c] + if c == 3 {
            a[4 * r + 3] * ONE
        } else {
            0
        },
    )
}

/// The entries of `a × b`.
pub open spec fn product_seq(a: Seq<i32>, b: Seq<i32>) -> Seq<i32> {
    Seq::new(12, |i: int| product_entry(a, b, i / 4, i % 4) as i32)
}

/// Whether every entry of `a × b` fits in an `i32`.
pub open spec fn product_fits(a: Seq<i32>, b: Seq<i32>) -> bool {
    forall|i: int| 0 <= i < 12 ==> fits_i32(#[trigger] product_entry(a, b, i / 4, i % 4))
}

/// Coordinate `r` (0 for x, 1 for y, 2 for z) of `m × p`, rounded to a whole unit.
pub open spec fn apply_coord(m: Seq<i32>, r: int, p: Point) -> int {
    round_fix(m[4 * r] * p.x + m[4 * r + 1] * p.y + m[4 * r + 2] * p.z + m[4 * r + 3])
}

pub open spec fn point_fits(m: Seq<i32>, p: Point) -> bool {
    fits_i32(apply_coord(m, 0, p)) && fits_i32(apply_coord(m, 1, p)) && fits_i32(
        apply_coord(m, 2, p),
    )
}

pub open spec fn apply_point(m: Seq<i32>, p: Point) -> Point {
    pt(apply_coord(m, 0, p) as i32, apply_coord(m, 1, p) as i32, apply_coord(m, 2, p) as i32)
}

/// Whether every point of `s` stays within `i32` under `m`.
pub open spec fn points_fit(m: Seq<i32>, s: Seq<Point>) -> bool {
    forall|i: int| 0 <= i < s.len() ==> point_fits(m, #[trigger] s[i])
}

pub open spec fn apply_points(m: Seq<i32>, s: Seq<Point>) -> Seq<Point> {
    Seq::new(s.len(), |i: int| apply_point(m, s[i]))
}

pub open spec fn identity_entries() -> Seq<i32> {
    seq![ONE, 0, 0, 0, 0, ONE, 0, 0, 0, 0, ONE, 0]
}

pub open spec fn scale_entries(sx: i32, sy: i32, sz: i32) -> Seq<i32> {
    seq![sx, 0, 0, 0, 0, sy, 0, 0, 0, 0, sz, 0]
}

pub open spec fn translate_entries(tx: i32, ty: i32, tz: i32) -> Seq<i32> {
    seq![ONE, 0, 0, tx, 0, ONE, 0, ty, 0, 0, ONE, tz]
}

/// Rotation about the x axis (`axis == 0`), y axis (1) or z axis (2) by the
/// angle whose cosine and sine, in fixed point, are `c` and `s`.
pub open spec fn rotation_entries(axis: int, c: i32, s: i32) -> Seq<i32> {
    let ns = (-s) as i32;
    if axis == 0 {
        seq![ONE, 0, 0, 0, 0, c, ns, 0, 0, s, c, 0]
    } else if axis == 1 {
        seq![c, 0, s, 0, 0, ONE, 0, 0, ns, 0, c, 0]
    } else {
        seq![c, ns, 0, 0, s, c, 0, 0, 0, 0, ONE, 0]
    }
}

/// The exact product of two `i32` values.
fn mul_wide(a: i32, b: i32) -> (r: i128)
    ensures
        r == a * b,
        -0x4000_0000_0000_0000 <= r <= 0x4000_0000_0000_0000,
{
    proof {
        assert(-0x4000_0000_0000_0000 <= a * b <= 0x4000_0000_0000_0000) by (nonlinear_arith)
            requires
                -0x8000_0000 <= a <= 0x7fff_ffff,
                -0x8000_0000 <= b <= 0x7fff_ffff,
        ;
    }
    (a as i128) * (b as i128)
}

/// `v / ONE`, rounded as `round_fix` rounds, when it fits in an `i32`.
fn round_to_i32(v: i128) -> (r: Option<i32>)
    requires
        -0x1000_0000_0000_0000_0000 <= v <= 0x1000_0000_0000_0000_0000,
    ensures
        r == (if fits_i32(round_fix(v as int)) {
            Some(round_fix(v as int) as i32)
        } else {
            None
        }),
{
    let q: Option<i128> = (v + 5000).checked_div_euclid(10000);
    match q {
        Some(q) => {
            if -0x8000_0000 <= q && q <= 0x7fff_ffff {
                Some(q as i32)
            } else {
                None
            }
        },
        None => None,
    }
}

/// Applying the identity transform leaves every point where it was.
pub proof fn lemma_identity_keeps_points(s: Seq<Point>)
    ensures
        points_fit(identity_entries(), s),
        apply_points(identity_entries(), s) == s,
{
    let m = identity_entries();
    assert forall|i: int| 0 <= i < s.len() implies point_fits(m, #[trigger] s[i]) && apply_point(m, s[i]) == s[i] by {
        let p = s[i];
        lemma_round_whole(p.x as int);
        lemma_round_whole(p.y as int);
        lemma_round_whole(p.z as int);
        assert(m[0] == 10000 && m[1] == 0 && m[2] == 0 && m[3] == 0);
        assert(m[4] == 0 && m[5] == 10000 && m[6] == 0 && m[7] == 0);
        assert(m[8] == 0 && m[9] == 0 && m[10] == 10000 && m[11] == 0);
        let (x, y, z) = (p.x as int, p.y as int, p.z as int);
        assert(m[0] * x + m[1] * y + m[2] * z + m[3] == 10000 * x);
        assert(m[4] * x + m[5] * y + m[6] * z + m[7] == 10000 * y);
        assert(m[8] * x + m[9] * y + m[10] * z + m[11] == 10000 * z);
    }
    assert(apply_points(m, s) =~= s);
}

/// A whole number of units rounds back to itself.
pub proof fn lemma_round_whole(v: int)
    ensures
        round_fix(10000 * v) == v,
{
    vstd::arithmetic::div_mod::lemma_fundamental_div_mod_converse(10000 * v + 5000, 10000, v, 5000);
}

impl Transform {
    pub open spec fn wf(&self) -> bool {
        self.m@.len() == 12
    }

    /// The identity transform.
    pub fn identity() -> (t: Transform)
        ensures
            t.wf(),
            t.m@ == identity_entries(),
    {
        let t = Transform { m: vec![ONE, 0, 0, 0, 0, ONE, 0, 0, 0, 0, ONE, 0] };
        assert(t.m@ =~= identity_entries());
        t
    }

    /// Scaling by `sx`, `sy` and `sz`, each in fixed point.
    pub fn make_scale(sx: i32, sy: i32, sz: i32) -> (t: Transform)
        ensures
            t.wf(),
            t.m@ == scale_entries(sx, sy, sz),
    {
        let t = Transform { m: vec![sx, 0, 0, 0, 0, sy, 0, 0, 0, 0, sz, 0] };
        assert(t.m@ =~= scale_entries(sx, sy, sz));
        t
    }

    /// Translation by `tx`, `ty` and `tz`, each in fixed point.
    pub fn make_translate(tx: i32, ty: i32, tz: i32) -> (t: Transform)
        ensures
            t.wf(),
            t.m@ == translate_entries(tx, ty, tz),
    {
        let t = Transform { m: vec![ONE, 0, 0, tx, 0, ONE, 0, ty, 0, 0, ONE, tz] };
        assert(t.m@ =~= translate_entries(tx, ty, tz));
        t
    }

    /// Right-handed rotation about axis 0 (x), 1 (y) or 2 (z) by the angle
    /// whose fixed-point cosine and sine are `c` and `s`.
    pub fn make_rotation(axis: u8, c: i32, s: i32) -> (t: Transform)
        requires
            axis < 3,
            -ONE <= c <= ONE,
            -ONE <= s <= ONE,
        ensures
            t.wf(),
            t.m@ == rotation_entries(axis as int, c, s),
    {
        let ns: i32 = -s;
        let t = if axis == 0 {
            Transform { m: vec![ONE, 0, 0, 0, 0, c, ns, 0, 0, s, c, 0] }
        } else if axis == 1 {
            Transform { m: vec![c, 0, s, 0, 0, ONE, 0, 0, ns, 0, c, 0] }
        } else {
            Transform { m: vec![c, ns, 0, 0, s, c, 0, 0, 0, 0, ONE, 0] }
        };
        assert(t.m@ =~= rotation_entries(axis as int, c, s));
        t
    }

    /// `self × other`: the transform that applies `other` first, then `self`.
    /// `None` when an entry of the product does not fit in an `i32`.
    pub fn multiply(&self, other: &Transform) -> (r: Option<Transform>)
        requires
            self.wf(),
            other.wf(),
        ensures
            product_fits(self.m@, other.m@) <==> r.is_some(),
            r matches Some(t) ==> t.wf() && t.m@ == product_seq(self.m@, other.m@) && forall|i: int|
                0 <= i < 12 ==> t.m@[i] == product_entry(self.m@, other.m@, i / 4, i % 4),
    {
        let a = &self.m;
        let b = &other.m;
        let mut out: Vec<i32> = Vec::new();
        let mut i: usize = 0;
        while i < 12
            invariant
                a@ == self.m@,
                b@ == other.m@,
                a@.len() == 12,
                b@.len() == 12,
                i <= 12,
                out@.len() == i,
                forall|j: int| 0 <= j < i ==> fits_i32(#[trigger] product_entry(a@, b@, j / 4, j % 4)),
                forall|j: int| 0 <= j < i ==> out@[j] == product_entry(a@, b@, j / 4, j % 4),
            decreases 12 - i,
        {
            let r: usize = i / 4;
            let c: usize = i % 4;
            let t: i128 = if c == 3 {
                mul_wide(a[4 * r + 3], ONE)
            } else {
                0
            };
            let v: i128 = mul_wide(a[4 * r], b[c]) + mul_wide(a[4 * r + 1], b[4 + c]) + mul_wide(
                a[4 * r + 2],
                b[8 + c],
            ) + t;
            match round_to_i32(v) {
                Some(e) => {
                    out.push(e);
                },
                None => {
                    assert(!fits_i32(product_entry(a@, b@, i as int / 4, i as int % 4)));
                    return None;
                },
            }
            i = i + 1;
        }
        assert(out@ =~= product_seq(self.m@, other.m@));
        Some(Transform { m: out })
    }
}

impl Matrix {
    /// Replaces every point `p` by `t × p`, when all the results fit in `i32`;
    /// otherwise leaves the points as they are and returns `false`.
    /// The points `t × p` for every point `p`, or `None` when one of them
    /// does not fit in `i32`.
    pub fn transformed(&self, t: &Transform) -> (r: Option<Vec<Point>>)
        requires
            t.wf(),
        ensures
            r is Some <==> points_fit(t.m@, self.points@),
            r matches Some(v) ==> v@ == apply_points(t.m@, self.points@),
    {
        let n: usize = self.points.len();
        let m = &t.m;
        let mut out: Vec<Point> = Vec::new();
        let mut i: usize = 0;
        while i < n
            invariant
                n == self.points@.len(),
                m@.len() == 12,
                m@ == t.m@,
                i <= n,
                out@.len() == i,
                forall|j: int| 0 <= j < i ==> point_fits(m@, #[trigger] self.points@[j]),
                forall|j: int| 0 <= j < i ==> out@[j] == apply_point(m@, #[trigger] self.points@[j]),
            decreases n - i,
        {
            let p: Point = self.points[i];
            let vx: i128 = mul_wide(m[0], p.x) + mul_wide(m[1], p.y) + mul_wide(m[2], p.z) + m[3] as i128;
            let vy: i128 = mul_wide(m[4], p.x) + mul_wide(m[5], p.y) + mul_wide(m[6], p.z) + m[7] as i128;
            let vz: i128 = mul_wide(m[8], p.x) + mul_wide(m[9], p.y) + mul_wide(m[10], p.z) + m[11] as i128;
            let rx = round_to_i32(vx);
            let ry = round_to_i32(vy);
            let rz = round_to_i32(vz);
            match (rx, ry, rz) {
                (Some(x), Some(y), Some(z)) => {
                    out.push(Point { x, y, z });
                },
                _ => {
                    return None;
                },
            }
            i = i + 1;
        }
        assert(out@ =~= apply_points(t.m@, self.points@));
        Some(out)
    }

    /// Replaces every point `p` by `t × p`, when all the results fit in `i32`;
    /// otherwise leaves the points as they are and returns `false`.
    pub fn multiply_matrixes(&mut self, t: &Transform) -> (ok: bool)
        requires
            t.wf(),
        ensures
            ok == points_fit(t.m@, old(self).points@),
            ok ==> final(self).points@ == apply_points(t.m@, old(self).points@),
            !ok ==> final(self).points@ == old(self).points@,
    {
        match self.transformed(t) {
            Some(v) => {
                self.points = v;
                true
            },
            None => false,
        }
    }
}

} // verus!
