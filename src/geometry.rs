use crate::matrix::{Matrix, Point, pt};
use crate::draw::abs;
use crate::transform::{ONE, round_fix};
use vstd::arithmetic::div_mod::{lemma_fundamental_div_mod, lemma_fundamental_div_mod_converse, lemma_multiply_divide_lt};
use vstd::prelude::*;

verus! {

/// Entries in a full turn of a `Trig` table: one per tenth of a degree.
pub const TURN: usize = 3600;

/// Bound on the centres, radii and control values of generated shapes, so that
/// every generated coordinate fits in an `i32`.
pub const LIMIT: i32 = 0x0200_0000;


/// Cosines and sines, in fixed point, of the angles `k` tenths of a degree for
/// `k` in `0..TURN`.
pub struct Trig {
    pub cos: Vec<i32>,
    pub sin: Vec<i32>,
}

pub open spec fn in_limit(v: int) -> bool {
    -LIMIT <= v <= LIMIT
}

/// `r` times the fixed-point factor `f`, rounded to a whole unit.
pub open spec fn scaled(r: int, f: int) -> int {
    round_fix(r * f)
}

/// Whether `(c, s)` lies within rounding of the fixed-point unit circle:
/// `c^2 + s^2` is `ONE^2` give or take `2 * ONE`.
pub open spec fn near_unit(c: int, s: int) -> bool {
    10000 * 10000 - 20000 <= c * c + s * s <= 10000 * 10000 + 20000
}

/// Whether the pairs `(c[k], s[k])` are a valid table: entries in
/// `[-ONE, ONE]`, each pair near the unit circle, and the four quarter turns
/// exact.
pub open spec fn trig_table_ok(c: Seq<i32>, s: Seq<i32>) -> bool {
    &&& c.len() == TURN
    &&& s.len() == TURN
    &&& forall|k: int| 0 <= k < TURN ==> -ONE <= #[trigger] c[k] <= ONE
    &&& forall|k: int| 0 <= k < TURN ==> -ONE <= #[trigger] s[k] <= ONE
    &&& forall|k: int| 0 <= k < TURN ==> near_unit(#[trigger] c[k] as int, s[k] as int)
    &&& c[0] == ONE && s[0] == 0
    &&& c[900] == 0 && s[900] == ONE
    &&& c[1800] == -ONE && s[1800] == 0
    &&& c[2700] == 0 && s[2700] == -ONE
}

impl Trig {
    pub open spec fn wf(&self) -> bool {
        trig_table_ok(self.cos@, self.sin@)
    }

    pub open spec fn c(&self, k: int) -> int {
        self.cos@[k] as int
    }

    pub open spec fn s(&self, k: int) -> int {
        self.sin@[k] as int
    }

    /// A table from the given entries; `None` unless they make a valid table
    /// (`trig_table_ok`).
    pub fn from_tables(cos: Vec<i32>, sin: Vec<i32>) -> (t: Option<Trig>)
        ensures
            t matches Some(t) ==> t.wf() && t.cos@ == cos@ && t.sin@ == sin@,
            t is None ==> !trig_table_ok(cos@, sin@),
    {
        if cos.len() != TURN || sin.len() != TURN {
            return None;
        }
        if cos[0] != ONE || sin[0] != 0 || cos[900] != 0 || sin[900] != ONE || cos[1800] != -ONE
            || sin[1800] != 0 || cos[2700] != 0 || sin[2700] != -ONE {
            return None;
        }
        let mut k: usize = 0;
        while k < TURN
            invariant
                cos@.len() == TURN,
                sin@.len() == TURN,
                k <= TURN,
                forall|j: int| 0 <= j < k ==> -ONE <= #[trigger] cos@[j] <= ONE,
                forall|j: int| 0 <= j < k ==> -ONE <= #[trigger] sin@[j] <= ONE,
                forall|j: int| 0 <= j < k ==> near_unit(#[trigger] cos@[j] as int, sin@[j] as int),
            decreases TURN - k,
        {
            let c: i32 = cos[k];
            let s: i32 = sin[k];
            if c < -ONE || c > ONE || s < -ONE || s > ONE {
                return None;
            }
            proof {
                assert(0 <= c * c <= 100_000_000) by (nonlinear_arith) requires -10000 <= c <= 10000;
                assert(0 <= s * s <= 100_000_000) by (nonlinear_arith) requires -10000 <= s <= 10000;
            }
            let q: i64 = (c as i64) * (c as i64) + (s as i64) * (s as i64);
            if q < 100_000_000 - 20000 || q > 100_000_000 + 20000 {
                return None;
            }
            k = k + 1;
        }
        Some(Trig { cos, sin })
    }
}

/// `r * f / ONE`, rounded as `round_fix` rounds.
fn scale_by(r: i64, f: i32) -> (v: i64)
    requires
        -0x1_0000_0000 <= r <= 0x1_0000_0000,
        -ONE <= f <= ONE,
    ensures
        v == scaled(r as int, f as int),
        -r - 1 <= v <= r + 1 || r - 1 <= v <= -r + 1,
{
    proof {
        assert(-0x1_0000_0000 * 10000 <= r * f <= 0x1_0000_0000 * 10000) by (nonlinear_arith)
            requires
                -0x1_0000_0000 <= r <= 0x1_0000_0000,
                -10000 <= f <= 10000,
        ;
    }
    let p: i64 = r * (f as i64);
    proof {
        assert(p == r * f);
        lemma_scaled_bound(r as int, f as int);
    }
    let q: Option<i64> = (p + 5000).checked_div_euclid(10000);
    match q {
        Some(q) => q,
        None => 0,
    }
}

proof fn lemma_scaled_bound(r: int, f: int)
    requires
        -10000 <= f <= 10000,
    ensures
        -r - 1 <= scaled(r, f) <= r + 1 || r - 1 <= scaled(r, f) <= -r + 1,
{
    let v = r * f + 5000;
    lemma_fundamental_div_mod(v, 10000);
    let q = v / 10000;
    assert(0 <= v % 10000 < 10000);
    if r >= 0 {
        assert(-r * 10000 <= r * f <= r * 10000) by (nonlinear_arith)
            requires 0 <= r, -10000 <= f <= 10000;
        assert(-r - 1 <= q <= r + 1);
    } else {
        assert(r * 10000 <= r * f <= -r * 10000) by (nonlinear_arith)
            requires r < 0, -10000 <= f <= 10000;
        assert(r - 1 <= q <= -r + 1);
    }
}

/// Lattice point `(phi, theta)` of the sphere with centre `(cx, cy, cz)` and
/// radius `r` sampled with `n` subdivisions: `theta` sweeps half a turn around
/// the x axis' circle and `phi` a full turn about the x axis.
pub open spec fn sphere_point(t: &Trig, cx: int, cy: int, cz: int, r: int, n: int, phi: int, theta: int) -> Point {
    let a = 1800 * theta / n;
    let b = 3600 * phi / n;
    let ring = scaled(r, t.s(a));
    pt(
        (cx + scaled(r, t.c(a))) as i32,
        (cy + scaled(ring, t.c(b))) as i32,
        (cz + scaled(ring, t.s(b))) as i32,
    )
}

/// Lattice point `(phi, theta)` of the torus with centre `(cx, cy, cz)`, tube
/// radius `r1` and ring radius `r2`, sampled with `n` subdivisions.
pub open spec fn torus_point(t: &Trig, cx: int, cy: int, cz: int, r1: int, r2: int, n: int, phi: int, theta: int) -> Point {
    let a = 3600 * theta / n;
    let b = 3600 * phi / n;
    let ring = scaled(r1, t.c(a)) + r2;
    pt(
        (cx + scaled(ring, t.c(b))) as i32,
        (cy + scaled(r1, t.s(a))) as i32,
        (cz - scaled(ring, t.s(b))) as i32,
    )
}

/// The `n * n` lattice points of the sphere, `phi` outer and `theta` inner.
pub open spec fn sphere_points(t: &Trig, cx: int, cy: int, cz: int, r: int, n: int) -> Seq<Point> {
    Seq::new((n * n) as nat, |i: int| sphere_point(t, cx, cy, cz, r, n, i / n, i % n))
}

/// The `n * n` lattice points of the torus, `phi` outer and `theta` inner.
pub open spec fn torus_points(t: &Trig, cx: int, cy: int, cz: int, r1: int, r2: int, n: int) -> Seq<Point> {
    Seq::new((n * n) as nat, |i: int| torus_point(t, cx, cy, cz, r1, r2, n, i / n, i % n))
}

/// Each point of `s` twice, so that an edge buffer draws it as a dot.
pub open spec fn dots(s: Seq<Point>) -> Seq<Point> {
    Seq::new(2 * s.len(), |i: int| s[i / 2])
}

/// Corner `v` (0 to 5) of the two triangles that cover the cell between
/// lattice points `(i, j)` and `(i + 1, j + 1)` of an `n` by `n` lattice `l`;
/// the `phi` direction wraps round.
pub open spec fn mesh_corner(l: Seq<Point>, n: int, i: int, j: int, v: int) -> Point {
    let a = i * n + j;
    let b = ((i + 1) % n) * n + j;
    if v == 0 || v == 3 {
        l[a]
    } else if v == 1 {
        l[a + 1]
    } else if v == 2 || v == 4 {
        l[b + 1]
    } else {
        l[b]
    }
}

/// The triangles of the lattice, two per cell, cells in row order: `n` bands
/// of `n - 1` cells each.
pub open spec fn sphere_mesh(l: Seq<Point>, n: int) -> Seq<Point> {
    Seq::new(
        (6 * (n * (n - 1))) as nat,
        |k: int| mesh_corner(l, n, (k / 6) / (n - 1), (k / 6) % (n - 1), k % 6),
    )
}

/// The triangles that close the far end of the sphere: a fan over the last
/// ring of the lattice (`theta == n - 1`), from its first point.
pub open spec fn sphere_cap(l: Seq<Point>, n: int) -> Seq<Point> {
    if n < 3 {
        Seq::empty()
    } else {
        Seq::new(
            (3 * (n - 2)) as nat,
            |k: int|
                if k % 3 == 0 {
                    l[n - 1]
                } else if k % 3 == 1 {
                    l[(k / 3 + 1) * n + n - 1]
                } else {
                    l[(k / 3 + 2) * n + n - 1]
                },
        )
    }
}

proof fn lemma_cap_index(n: int, i: int, v: int)
    requires
        1 <= i,
        i + 1 < n,
        0 <= v < 3,
    ensures
        (3 * (i - 1) + v) / 3 == i - 1,
        (3 * (i - 1) + v) % 3 == v,
        0 <= i * n + n - 1 < n * n,
        0 <= (i + 1) * n + n - 1 < n * n,
        0 <= n - 1 < n * n,
{
    lemma_fundamental_div_mod_converse(3 * (i - 1) + v, 3, i - 1, v);
    assert(0 <= i * n + n - 1 < n * n) by (nonlinear_arith) requires 1 <= i, i + 1 < n;
    assert(0 <= (i + 1) * n + n - 1 < n * n) by (nonlinear_arith) requires 1 <= i, i + 1 < n;
    assert(n - 1 < n * n) by (nonlinear_arith) requires n >= 3;
}

proof fn lemma_mesh_index(n: int, i: int, j: int, v: int)
    requires
        0 <= i < n,
        0 <= j < n - 1,
        0 <= v < 6,
    ensures
        ({
            let k = 6 * (i * (n - 1) + j) + v;
            &&& k / 6 == i * (n - 1) + j
            &&& k % 6 == v
            &&& (k / 6) / (n - 1) == i
            &&& (k / 6) % (n - 1) == j
            &&& 0 <= k < 6 * (n * (n - 1))
        }),
        i * n + j + 1 < n * n,
        0 <= ((i + 1) % n) * n + j + 1 < n * n,
{
    let c = i * (n - 1) + j;
    lemma_fundamental_div_mod_converse(6 * c + v, 6, c, v);
    lemma_fundamental_div_mod_converse(c, n - 1, i, j);
    assert(0 <= c < n * (n - 1)) by (nonlinear_arith) requires c == i * (n - 1) + j, 0 <= i < n, 0 <= j < n - 1;
    assert(i * n + j + 1 < n * n) by (nonlinear_arith) requires 0 <= i < n, 0 <= j < n - 1;
    let i2 = (i + 1) % n;
    vstd::arithmetic::div_mod::lemma_mod_bound(i + 1, n);
    assert(0 <= i2 * n + j + 1 < n * n) by (nonlinear_arith) requires 0 <= i2 < n, 0 <= j < n - 1;
}

/// `mult * k / n`: the table index of the fraction `k / n` of a turn
/// (`mult == 3600`) or of half a turn (`mult == 1800`).
fn turn_index(k: usize, mult: u128, n: usize) -> (a: usize)
    requires
        k < n,
        mult == 1800 || mult == 3600,
    ensures
        a == (mult * k) as int / (n as int),
        a < mult,
{
    proof {
        assert(mult * k < n * mult) by (nonlinear_arith) requires k < n, mult > 0;
        assert(mult * k <= 3600 * 0xffff_ffff_ffff_ffff) by (nonlinear_arith) requires k <= 0xffff_ffff_ffff_ffff, mult <= 3600;
        lemma_multiply_divide_lt(mult * k as int, n as int, mult as int);
        vstd::arithmetic::div_mod::lemma_div_pos_is_pos(mult * k as int, n as int);
    }
    let q: u128 = (mult * (k as u128)) / (n as u128);
    q as usize
}

/// Index facts for walking an `n` by `n` lattice in row order.
proof fn lemma_lattice_index(n: int, phi: int, theta: int)
    requires
        0 <= phi < n,
        0 <= theta < n,
    ensures
        (phi * n + theta) / n == phi,
        (phi * n + theta) % n == theta,
        phi * n + theta < n * n,
        (phi * n + theta) + 1 == if theta + 1 < n { phi * n + theta + 1 } else { (phi + 1) * n },
{
    lemma_fundamental_div_mod_converse(phi * n + theta, n, phi, theta);
    assert(phi * n + theta < n * n) by (nonlinear_arith) requires 0 <= phi < n, 0 <= theta < n;
    assert((phi + 1) * n == phi * n + n) by (nonlinear_arith);
}


/// The segments joining consecutive samples, as an edge buffer.
pub open spec fn polyline(samples: Seq<Point>) -> Seq<Point> {
    if samples.len() == 0 {
        Seq::empty()
    } else {
        Seq::new((2 * (samples.len() - 1)) as nat, |i: int| samples[i / 2 + i % 2])
    }
}

/// Sample `k` of `n` of the circle with centre `(cx, cy, cz)` and radius `r`
/// in the plane `z = cz`.
pub open spec fn circle_point(t: &Trig, cx: int, cy: int, cz: int, r: int, n: int, k: int) -> Point {
    let a = 3600 * k / n;
    pt((cx + scaled(r, t.c(a))) as i32, (cy + scaled(r, t.s(a))) as i32, cz as i32)
}

/// The `n` samples of the circle at the angles `k / n` of a turn, `k < n`.
pub open spec fn circle_samples(t: &Trig, cx: int, cy: int, cz: int, r: int, n: int) -> Seq<Point> {
    Seq::new(n as nat, |k: int| circle_point(t, cx, cy, cz, r, n, k))
}

/// The two families of parametric cubic curves.
#[derive(Clone, Copy, Debug, PartialEq, Eq, Structural)]
pub enum CurveType {
    /// Two endpoints and the tangents at them.
    Hermite,
    /// Four control points.
    Bezier,
}

/// The coefficients `(a, b, c, d)` of `a t^3 + b t^2 + c t + d` on one axis:
/// the curve family's basis matrix times the column of control values.
pub open spec fn curve_coefs(p0: int, p1: int, p2: int, p3: int, kind: CurveType) -> (int, int, int, int) {
    match kind {
        CurveType::Hermite => (2 * p0 - 2 * p1 + p2 + p3, -3 * p0 + 3 * p1 - 2 * p2 - p3, p2, p0),
        CurveType::Bezier => (-p0 + 3 * p1 - 3 * p2 + p3, 3 * p0 - 6 * p1 + 3 * p2, -3 * p0 + 3 * p1, p0),
    }
}

/// The cubic with coefficients `q` at `t = k / n`, rounded to the nearest
/// whole unit, halves upward.
pub open spec fn cubic_at(q: (int, int, int, int), n: int, k: int) -> int {
    let n3 = n * n * n;
    (2 * (q.0 * k * k * k + q.1 * k * k * n + q.2 * k * n * n + q.3 * n3) + n3) / (2 * n3)
}

pub open spec fn curve_samples(
    xs: (int, int, int, int),
    ys: (int, int, int, int),
    n: int,
) -> Seq<Point> {
    let m = if n > 1 {
        n - 1
    } else {
        1
    };
    Seq::new(n as nat, |k: int| pt(cubic_at(xs, m, k) as i32, cubic_at(ys, m, k) as i32, 0))
}

pub open spec fn coefs_small(q: (i64, i64, i64, i64)) -> bool {
    &&& -0x1800_0000 <= q.0 <= 0x1800_0000
    &&& -0x1800_0000 <= q.1 <= 0x1800_0000
    &&& -0x1800_0000 <= q.2 <= 0x1800_0000
    &&& -0x1800_0000 <= q.3 <= 0x1800_0000
}

/// The cubic coefficients on one axis of a curve with control values `p0..p3`.
pub fn generate_curve_coefs(p0: i32, p1: i32, p2: i32, p3: i32, kind: CurveType) -> (q: (i64, i64, i64, i64))
    requires
        in_limit(p0 as int),
        in_limit(p1 as int),
        in_limit(p2 as int),
        in_limit(p3 as int),
    ensures
        q.0 == curve_coefs(p0 as int, p1 as int, p2 as int, p3 as int, kind).0,
        q.1 == curve_coefs(p0 as int, p1 as int, p2 as int, p3 as int, kind).1,
        q.2 == curve_coefs(p0 as int, p1 as int, p2 as int, p3 as int, kind).2,
        q.3 == curve_coefs(p0 as int, p1 as int, p2 as int, p3 as int, kind).3,
        coefs_small(q),
{
    let a: i64 = p0 as i64;
    let b: i64 = p1 as i64;
    let c: i64 = p2 as i64;
    let d: i64 = p3 as i64;
    match kind {
        CurveType::Hermite => (2 * a - 2 * b + c + d, 3 * b - 3 * a - 2 * c - d, c, a),
        CurveType::Bezier => (3 * b - a - 3 * c + d, 3 * a - 6 * b + 3 * c, 3 * b - 3 * a, a),
    }
}

/// Most samples of a curve: the exact evaluation of a cubic at `k / (step - 1)`
/// needs `(step - 1)^3` times a coefficient to fit in an `i128`.
pub const MAX_CURVE_STEPS: usize = 0x8000_0000;

/// The cubic with coefficients `q` at `k / n`, rounded as `cubic_at` rounds.
fn eval_cubic(q: (i64, i64, i64, i64), n: usize, k: usize) -> (v: i32)
    requires
        1 <= n < MAX_CURVE_STEPS,
        k <= n,
        -0x1800_0000 <= q.0 <= 0x1800_0000,
        -0x1800_0000 <= q.1 <= 0x1800_0000,
        -0x1800_0000 <= q.2 <= 0x1800_0000,
        -0x1800_0000 <= q.3 <= 0x1800_0000,
    ensures
        v == cubic_at((q.0 as int, q.1 as int, q.2 as int, q.3 as int), n as int, k as int),
{
    let ghost (a, b, c, d) = (q.0 as int, q.1 as int, q.2 as int, q.3 as int);
    let ghost (ni, ki) = (n as int, k as int);
    let nn: i128 = n as i128;
    let kk: i128 = k as i128;
    proof {
        assert(0 <= ki * ki * ki <= ni * ni * ni) by (nonlinear_arith) requires 0 <= ki <= ni;
        assert(0 <= ki * ki * ni <= ni * ni * ni) by (nonlinear_arith) requires 0 <= ki <= ni;
        assert(0 <= ki * ni * ni <= ni * ni * ni) by (nonlinear_arith) requires 0 <= ki <= ni;
        assert(1 <= ni * ni * ni <= 0x2000_0000_0000_0000_0000_0000) by (nonlinear_arith) requires 1 <= ni <= 0x7fff_ffff;
    }
    proof {
        assert(0 <= kk * kk <= nn * nn <= 0x4000_0000_0000_0000) by (nonlinear_arith) requires 0 <= kk <= nn <= 0x7fff_ffff;
        assert(0 <= kk * nn <= nn * nn) by (nonlinear_arith) requires 0 <= kk <= nn <= 0x7fff_ffff;
        assert(0 <= nn * nn * nn <= 0x2000_0000_0000_0000_0000_0000) by (nonlinear_arith) requires 0 <= nn <= 0x7fff_ffff;
        assert(0 <= kk * kk * kk <= nn * nn * nn) by (nonlinear_arith) requires 0 <= kk <= nn;
        assert(0 <= kk * kk * nn <= nn * nn * nn) by (nonlinear_arith) requires 0 <= kk <= nn;
        assert(0 <= kk * nn * nn <= nn * nn * nn) by (nonlinear_arith) requires 0 <= kk <= nn;
    }
    let n3: i128 = nn * nn * nn;
    let t3: i128 = kk * kk * kk;
    let t2: i128 = kk * kk * nn;
    let t1: i128 = kk * nn * nn;
    let ghost bound = 0x1800_0000 * n3;
    proof {
        assert(-bound <= a * t3 <= bound) by (nonlinear_arith)
            requires -0x1800_0000 <= a <= 0x1800_0000, 0 <= t3 <= n3, bound == 0x1800_0000 * n3;
        assert(-bound <= b * t2 <= bound) by (nonlinear_arith)
            requires -0x1800_0000 <= b <= 0x1800_0000, 0 <= t2 <= n3, bound == 0x1800_0000 * n3;
        assert(-bound <= c * t1 <= bound) by (nonlinear_arith)
            requires -0x1800_0000 <= c <= 0x1800_0000, 0 <= t1 <= n3, bound == 0x1800_0000 * n3;
        assert(-bound <= d * n3 <= bound) by (nonlinear_arith)
            requires -0x1800_0000 <= d <= 0x1800_0000, bound == 0x1800_0000 * n3, n3 >= 1;
    }
    let v: i128 = (q.0 as i128) * t3 + (q.1 as i128) * t2 + (q.2 as i128) * t1 + (q.3 as i128) * n3;
    let num: i128 = 2 * v + n3;
    let den: i128 = 2 * n3;
    let ghost qq = (num as int) / (den as int);
    proof {
        lemma_fundamental_div_mod(num as int, den as int);
        assert(-4 * bound <= v <= 4 * bound);
        let m = (num as int) % (den as int);
        assert(0 <= m < den);
        assert(den * qq == num - m);
        assert(-(0x1800_0000 * 4 + 1) <= qq <= 0x1800_0000 * 4 + 1) by (nonlinear_arith)
            requires
                den * qq == num - m,
                0 <= m < den,
                num == 2 * v + n3,
                den == 2 * n3,
                n3 >= 1,
                -4 * bound <= v <= 4 * bound,
                bound == 0x1800_0000 * n3,
        ;
        assert(a * ki * ki * ki == a * t3) by (nonlinear_arith) requires t3 == ki * ki * ki;
        assert(b * ki * ki * ni == b * t2) by (nonlinear_arith) requires t2 == ki * ki * ni;
        assert(c * ki * ni * ni == c * t1) by (nonlinear_arith) requires t1 == ki * ni * ni;
        assert(ni * ni * ni == n3);
    }
    let r: i128 = match num.checked_div_euclid(den) {
        Some(r) => r,
        None => 0,
    };
    assert(r == qq);
    proof {
        let spec_num = 2 * (a * ki * ki * ki + b * ki * ki * ni + c * ki * ni * ni + d * (ni * ni * ni)) + ni * ni * ni;
        assert(spec_num == num);
        assert(2 * (ni * ni * ni) == den);
        assert(cubic_at((a, b, c, d), ni, ki) == spec_num / (2 * (ni * ni * ni)));
    }
    r as i32
}

/// `(x, y)` lies on the circle of radius `r` about the origin up to fixed-point
/// rounding: `|x^2 + y^2 - r^2| <= r^2 / 5000 + 2|r| + 1/2`.
pub open spec fn near_circle(x: int, y: int, r: int) -> bool {
    let d = 100_000_000 * (x * x + y * y - r * r);
    let e = 20000 * (r * r) + 200_000_000 * abs(r) + 50_000_000;
    -e <= d <= e
}

proof fn lemma_rounding(r: int, c: int)
    ensures
        -5000 < 10000 * scaled(r, c) - r * c <= 5000,
{
    lemma_fundamental_div_mod(r * c + 5000, 10000);
}

/// Scaling a radius by a table pair near the unit circle gives a point near
/// the circle of that radius.
pub proof fn lemma_scaled_near(r: int, c: int, s: int)
    requires
        -10000 <= c <= 10000,
        -10000 <= s <= 10000,
        near_unit(c, s),
    ensures
        near_circle(scaled(r, c), scaled(r, s), r),
{
    let x = scaled(r, c);
    let y = scaled(r, s);
    lemma_rounding(r, c);
    lemma_rounding(r, s);
    let u = 10000 * x - r * c;
    let v = 10000 * y - r * s;
    let q = c * c + s * s;
    assert(100_000_000 * (x * x) == (r * c + u) * (r * c + u)) by (nonlinear_arith)
        requires 10000 * x == r * c + u;
    assert(100_000_000 * (y * y) == (r * s + v) * (r * s + v)) by (nonlinear_arith)
        requires 10000 * y == r * s + v;
    assert((r * c + u) * (r * c + u) == r * r * (c * c) + 2 * r * (c * u) + u * u) by (nonlinear_arith);
    assert((r * s + v) * (r * s + v) == r * r * (s * s) + 2 * r * (s * v) + v * v) by (nonlinear_arith);
    assert(r * r * q == r * r * (c * c) + r * r * (s * s)) by (nonlinear_arith) requires q == c * c + s * s;
    assert(2 * r * (c * u + s * v) == 2 * r * (c * u) + 2 * r * (s * v)) by (nonlinear_arith);
    assert(-20000 * (r * r) <= r * r * q - 100_000_000 * (r * r) <= 20000 * (r * r)) by (nonlinear_arith)
        requires 100_000_000 - 20000 <= q <= 100_000_000 + 20000;
    assert(-50_000_000 <= c * u <= 50_000_000) by (nonlinear_arith) requires -10000 <= c <= 10000, -5000 < u <= 5000;
    assert(-50_000_000 <= s * v <= 50_000_000) by (nonlinear_arith) requires -10000 <= s <= 10000, -5000 < v <= 5000;
    let w = c * u + s * v;
    assert(-200_000_000 * abs(r) <= 2 * r * w <= 200_000_000 * abs(r)) by (nonlinear_arith)
        requires -100_000_000 <= w <= 100_000_000;
    assert(0 <= u * u <= 25_000_000) by (nonlinear_arith) requires -5000 < u <= 5000;
    assert(0 <= v * v <= 25_000_000) by (nonlinear_arith) requires -5000 < v <= 5000;
}

/// Every sample of `circle_samples` lies near the circle of radius `r` about
/// `(cx, cy)` in the plane `z = cz`.
pub proof fn lemma_circle_samples_near(t: &Trig, cx: int, cy: int, cz: int, r: int, n: int)
    requires
        t.wf(),
        in_limit(cx),
        in_limit(cy),
        in_limit(cz),
        in_limit(r),
    ensures
        forall|k: int| 0 <= k < n ==> {
            let p = #[trigger] circle_samples(t, cx, cy, cz, r, n)[k];
            near_circle(p.x - cx, p.y - cy, r) && p.z == cz
        },
{
    assert forall|k: int| 0 <= k < n implies {
        let p = #[trigger] circle_samples(t, cx, cy, cz, r, n)[k];
        near_circle(p.x - cx, p.y - cy, r) && p.z == cz
    } by {
        let a = 3600 * k / n;
        lemma_multiply_divide_lt(3600 * k, n, 3600);
        vstd::arithmetic::div_mod::lemma_div_pos_is_pos(3600 * k, n);
        assert(0 <= a < 3600);
        assert(-10000 <= t.cos@[a] <= 10000 && -10000 <= t.sin@[a] <= 10000 && near_unit(t.cos@[a] as int, t.sin@[a] as int));
        lemma_scaled_bound(r, t.c(a));
        lemma_scaled_bound(r, t.s(a));
        lemma_scaled_near(r, t.c(a), t.s(a));
    }
}

/// Every point of `sphere_points` lies near the sphere of radius `r` about
/// `(cx, cy, cz)`: its offset along x and the radius `ring` of its circle
/// about the x axis lie near the circle of radius `r`, and its y and z offsets
/// lie near the circle of radius `ring`.
pub proof fn lemma_sphere_points_near(t: &Trig, cx: int, cy: int, cz: int, r: int, n: int)
    requires
        t.wf(),
        in_limit(cx),
        in_limit(cy),
        in_limit(cz),
        in_limit(r),
        n >= 0,
    ensures
        forall|k: int| 0 <= k < n * n ==> {
            let p = #[trigger] sphere_points(t, cx, cy, cz, r, n)[k];
            let ring = scaled(r, t.s(1800 * (k % n) / n));
            near_circle(p.x - cx, ring, r) && near_circle(p.y - cy, p.z - cz, ring)
        },
{
    assert forall|k: int| 0 <= k < n * n implies {
        let p = #[trigger] sphere_points(t, cx, cy, cz, r, n)[k];
        let ring = scaled(r, t.s(1800 * (k % n) / n));
        near_circle(p.x - cx, ring, r) && near_circle(p.y - cy, p.z - cz, ring)
    } by {
        assert(n > 0) by (nonlinear_arith) requires 0 <= k < n * n, n >= 0;
        let phi = k / n;
        let theta = k % n;
        vstd::arithmetic::div_mod::lemma_mod_bound(k, n);
        vstd::arithmetic::div_mod::lemma_div_pos_is_pos(k, n);
        lemma_multiply_divide_lt(k, n, n);
        let a = 1800 * theta / n;
        let b = 3600 * phi / n;
        assert(1800 * theta < n * 1800) by (nonlinear_arith) requires theta < n;
        assert(3600 * phi < n * 3600) by (nonlinear_arith) requires phi < n;
        lemma_multiply_divide_lt(1800 * theta, n, 1800);
        lemma_multiply_divide_lt(3600 * phi, n, 3600);
        vstd::arithmetic::div_mod::lemma_div_pos_is_pos(1800 * theta, n);
        vstd::arithmetic::div_mod::lemma_div_pos_is_pos(3600 * phi, n);
        assert(-10000 <= t.cos@[a] <= 10000 && -10000 <= t.sin@[a] <= 10000 && near_unit(t.cos@[a] as int, t.sin@[a] as int));
        assert(-10000 <= t.cos@[b] <= 10000 && -10000 <= t.sin@[b] <= 10000 && near_unit(t.cos@[b] as int, t.sin@[b] as int));
        let ring = scaled(r, t.s(a));
        lemma_scaled_bound(r, t.c(a));
        lemma_scaled_bound(r, t.s(a));
        lemma_scaled_bound(ring, t.c(b));
        lemma_scaled_bound(ring, t.s(b));
        lemma_scaled_near(r, t.c(a), t.s(a));
        lemma_scaled_near(ring, t.c(b), t.s(b));
    }
}

/// Every point of `torus_points` lies near the torus: its x and z offsets lie
/// near the circle of radius `ring` (the distance from the axis), and
/// `ring - r2` with its y offset lies near the tube's circle of radius `r1`.
pub proof fn lemma_torus_points_near(t: &Trig, cx: int, cy: int, cz: int, r1: int, r2: int, n: int)
    requires
        t.wf(),
        in_limit(cx),
        in_limit(cy),
        in_limit(cz),
        in_limit(r1),
        in_limit(r2),
        n >= 0,
    ensures
        forall|k: int| 0 <= k < n * n ==> {
            let p = #[trigger] torus_points(t, cx, cy, cz, r1, r2, n)[k];
            let ring = scaled(r1, t.c(3600 * (k % n) / n)) + r2;
            near_circle(p.x - cx, p.z - cz, ring) && near_circle(ring - r2, p.y - cy, r1)
        },
{
    assert forall|k: int| 0 <= k < n * n implies {
        let p = #[trigger] torus_points(t, cx, cy, cz, r1, r2, n)[k];
        let ring = scaled(r1, t.c(3600 * (k % n) / n)) + r2;
        near_circle(p.x - cx, p.z - cz, ring) && near_circle(ring - r2, p.y - cy, r1)
    } by {
        assert(n > 0) by (nonlinear_arith) requires 0 <= k < n * n, n >= 0;
        let phi = k / n;
        let theta = k % n;
        vstd::arithmetic::div_mod::lemma_mod_bound(k, n);
        vstd::arithmetic::div_mod::lemma_div_pos_is_pos(k, n);
        lemma_multiply_divide_lt(k, n, n);
        let a = 3600 * theta / n;
        let b = 3600 * phi / n;
        assert(3600 * theta < n * 3600) by (nonlinear_arith) requires theta < n;
        assert(3600 * phi < n * 3600) by (nonlinear_arith) requires phi < n;
        lemma_multiply_divide_lt(3600 * theta, n, 3600);
        lemma_multiply_divide_lt(3600 * phi, n, 3600);
        vstd::arithmetic::div_mod::lemma_div_pos_is_pos(3600 * theta, n);
        vstd::arithmetic::div_mod::lemma_div_pos_is_pos(3600 * phi, n);
        assert(-10000 <= t.cos@[a] <= 10000 && -10000 <= t.sin@[a] <= 10000 && near_unit(t.cos@[a] as int, t.sin@[a] as int));
        assert(-10000 <= t.cos@[b] <= 10000 && -10000 <= t.sin@[b] <= 10000 && near_unit(t.cos@[b] as int, t.sin@[b] as int));
        let ring = scaled(r1, t.c(a)) + r2;
        lemma_scaled_bound(r1, t.c(a));
        lemma_scaled_bound(r1, t.s(a));
        lemma_scaled_bound(ring, t.c(b));
        lemma_scaled_bound(ring, t.s(b));
        lemma_scaled_near(r1, t.c(a), t.s(a));
        lemma_scaled_near(ring, t.c(b), t.s(b));
        let z = scaled(ring, t.s(b));
        assert(z * z == (-z) * (-z)) by (nonlinear_arith);
    }
}

/// The first point of the sphere's lattice is `(cx + r, cy, cz)`.
pub proof fn lemma_sphere_first_point(t: &Trig, cx: int, cy: int, cz: int, r: int, n: int)
    requires
        t.wf(),
        in_limit(cx),
        in_limit(cy),
        in_limit(cz),
        in_limit(r),
        n > 0,
    ensures
        sphere_points(t, cx, cy, cz, r, n)[0] == pt((cx + r) as i32, cy as i32, cz as i32),
{
    assert(n * n > 0) by (nonlinear_arith) requires n > 0;
    crate::transform::lemma_round_whole(r);
    assert(r * 10000 == 10000 * r);
    let z: int = 0;
    vstd::arithmetic::div_mod::lemma_fundamental_div_mod_converse(z, n, z, z);
    assert(1800 * z == z && 3600 * z == z);
    assert(scaled(r, 0) == 0);
    assert(scaled(0, 10000) == 0);
    assert(scaled(0, 0) == 0);
}

impl Matrix {
    /// The lattice of `step * step` points on the surface of a sphere.
    pub fn generate_sphere(cx: i32, cy: i32, cz: i32, r: i32, step: usize, trig: &Trig) -> (m: Matrix)
        requires
            trig.wf(),
            in_limit(cx as int),
            in_limit(cy as int),
            in_limit(cz as int),
            in_limit(r as int),
        ensures
            m.points@.len() == step * step,
            m.points@ == sphere_points(trig, cx as int, cy as int, cz as int, r as int, step as int),
    {
        let n = step;
        let mut m = Matrix::new();
        let mut phi: usize = 0;
        let ghost want = sphere_points(trig, cx as int, cy as int, cz as int, r as int, n as int);
        while phi < n
            invariant
                trig.wf(),
                in_limit(cx as int),
                in_limit(cy as int),
                in_limit(cz as int),
                in_limit(r as int),
                phi <= n,
                want == sphere_points(trig, cx as int, cy as int, cz as int, r as int, n as int),
                m.points@.len() == phi * n,
                forall|k: int| 0 <= k < phi * n ==> m.points@[k] == #[trigger] want[k],
            decreases n - phi,
        {
            let mut theta: usize = 0;
            while theta < n
                invariant
                    trig.wf(),
                    in_limit(cx as int),
                    in_limit(cy as int),
                    in_limit(cz as int),
                    in_limit(r as int),
                    phi < n,
                    theta <= n,
                    want == sphere_points(trig, cx as int, cy as int, cz as int, r as int, n as int),
                    m.points@.len() == phi * n + theta,
                    forall|k: int| 0 <= k < phi * n + theta ==> m.points@[k] == #[trigger] want[k],
                decreases n - theta,
            {
                let a: usize = turn_index(theta, 1800, n);
                let b: usize = turn_index(phi, 3600, n);
                let ring: i64 = scale_by(r as i64, trig.sin[a]);
                let x: i64 = cx as i64 + scale_by(r as i64, trig.cos[a]);
                let y: i64 = cy as i64 + scale_by(ring, trig.cos[b]);
                let z: i64 = cz as i64 + scale_by(ring, trig.sin[b]);
                let ghost k = phi * n + theta;
                proof {
                    lemma_lattice_index(n as int, phi as int, theta as int);
                    assert(want[k] == sphere_point(trig, cx as int, cy as int, cz as int, r as int, n as int, phi as int, theta as int));
                }
                m.add_point(x as i32, y as i32, z as i32);
                theta = theta + 1;
            }
            proof {
                assert((phi + 1) * n == phi * n + n) by (nonlinear_arith);
            }
            phi = phi + 1;
        }
        proof {
            assert(m.points@ =~= want);
        }
        m
    }

    /// The lattice of `step * step` points on the surface of a torus with tube
    /// radius `circle_radius` and ring radius `torus_radius`.
    pub fn generate_torus(
        cx: i32,
        cy: i32,
        cz: i32,
        circle_radius: i32,
        torus_radius: i32,
        step: usize,
        trig: &Trig,
    ) -> (m: Matrix)
        requires
            trig.wf(),
            in_limit(cx as int),
            in_limit(cy as int),
            in_limit(cz as int),
            in_limit(circle_radius as int),
            in_limit(torus_radius as int),
        ensures
            m.points@.len() == step * step,
            m.points@ == torus_points(
                trig,
                cx as int,
                cy as int,
                cz as int,
                circle_radius as int,
                torus_radius as int,
                step as int,
            ),
    {
        let n = step;
        let (r1, r2) = (circle_radius, torus_radius);
        let mut m = Matrix::new();
        let mut phi: usize = 0;
        let ghost want = torus_points(trig, cx as int, cy as int, cz as int, r1 as int, r2 as int, n as int);
        while phi < n
            invariant
                trig.wf(),
                in_limit(cx as int),
                in_limit(cy as int),
                in_limit(cz as int),
                in_limit(r1 as int),
                in_limit(r2 as int),
                phi <= n,
                want == torus_points(trig, cx as int, cy as int, cz as int, r1 as int, r2 as int, n as int),
                m.points@.len() == phi * n,
                forall|k: int| 0 <= k < phi * n ==> m.points@[k] == #[trigger] want[k],
            decreases n - phi,
        {
            let mut theta: usize = 0;
            while theta < n
                invariant
                    trig.wf(),
                    in_limit(cx as int),
                    in_limit(cy as int),
                    in_limit(cz as int),
                    in_limit(r1 as int),
                    in_limit(r2 as int),
                    phi < n,
                    theta <= n,
                    want == torus_points(trig, cx as int, cy as int, cz as int, r1 as int, r2 as int, n as int),
                    m.points@.len() == phi * n + theta,
                    forall|k: int| 0 <= k < phi * n + theta ==> m.points@[k] == #[trigger] want[k],
                decreases n - theta,
            {
                let a: usize = turn_index(theta, 3600, n);
                let b: usize = turn_index(phi, 3600, n);
                let ring: i64 = scale_by(r1 as i64, trig.cos[a]) + r2 as i64;
                let x: i64 = cx as i64 + scale_by(ring, trig.cos[b]);
                let y: i64 = cy as i64 + scale_by(r1 as i64, trig.sin[a]);
                let z: i64 = cz as i64 - scale_by(ring, trig.sin[b]);
                let ghost k = phi * n + theta;
                proof {
                    lemma_lattice_index(n as int, phi as int, theta as int);
                    assert(want[k] == torus_point(trig, cx as int, cy as int, cz as int, r1 as int, r2 as int, n as int, phi as int, theta as int));
                }
                m.add_point(x as i32, y as i32, z as i32);
                theta = theta + 1;
            }
            proof {
                assert((phi + 1) * n == phi * n + n) by (nonlinear_arith);
            }
            phi = phi + 1;
        }
        proof {
            assert(m.points@ =~= want);
        }
        m
    }

    /// Appends every point of `pts` twice, so that each is drawn as a dot.
    pub fn add_dots(&mut self, pts: &Matrix)
        ensures
            final(self).points@ == old(self).points@ + dots(pts.points@),
    {
        let n: usize = pts.points.len();
        let mut i: usize = 0;
        let ghost start = self.points@;
        let ghost want = dots(pts.points@);
        while i < n
            invariant
                n == pts.points@.len(),
                want == dots(pts.points@),
                i <= n,
                self.points@.len() == start.len() + 2 * i,
                forall|k: int| 0 <= k < start.len() ==> self.points@[k] == start[k],
                forall|k: int| 0 <= k < 2 * i ==> self.points@[start.len() + k] == #[trigger] want[k],
            decreases n - i,
        {
            let p: Point = pts.points[i];
            self.add_edge(p.x, p.y, p.z, p.x, p.y, p.z);
            proof {
                assert(want[2 * i as int] == p);
                assert(want[2 * i + 1] == p);
            }
            i = i + 1;
        }
        assert(self.points@ =~= start + want);
    }

    /// Appends the torus's lattice points, each as a zero-length edge.
    pub fn add_torus(&mut self, cx: i32, cy: i32, cz: i32, r1: i32, r2: i32, step: usize, trig: &Trig)
        requires
            trig.wf(),
            in_limit(cx as int),
            in_limit(cy as int),
            in_limit(cz as int),
            in_limit(r1 as int),
            in_limit(r2 as int),
        ensures
            final(self).points@ == old(self).points@ + dots(
                torus_points(trig, cx as int, cy as int, cz as int, r1 as int, r2 as int, step as int),
            ),
    {
        let pts = Matrix::generate_torus(cx, cy, cz, r1, r2, step, trig);
        self.add_dots(&pts);
    }

    /// Appends the sphere's lattice points, each as a zero-length edge.
    pub fn add_sphere_dots(&mut self, cx: i32, cy: i32, cz: i32, r: i32, step: usize, trig: &Trig)
        requires
            trig.wf(),
            in_limit(cx as int),
            in_limit(cy as int),
            in_limit(cz as int),
            in_limit(r as int),
        ensures
            final(self).points@ == old(self).points@ + dots(
                sphere_points(trig, cx as int, cy as int, cz as int, r as int, step as int),
            ),
    {
        let pts = Matrix::generate_sphere(cx, cy, cz, r, step, trig);
        self.add_dots(&pts);
    }

    /// Takes `step` samples round the circle with centre `(cx, cy, cz)` and
    /// radius `r`, at the fractions `k / step` of a turn, and appends a segment
    /// between each two consecutive samples.
    pub fn add_circle(&mut self, cx: i32, cy: i32, cz: i32, r: i32, step: usize, trig: &Trig)
        requires
            trig.wf(),
            in_limit(cx as int),
            in_limit(cy as int),
            in_limit(cz as int),
            in_limit(r as int),
        ensures
            final(self).points@ == old(self).points@ + polyline(
                circle_samples(trig, cx as int, cy as int, cz as int, r as int, step as int),
            ),
    {
        let n = step;
        let ghost samples = circle_samples(trig, cx as int, cy as int, cz as int, r as int, n as int);
        let ghost want = polyline(samples);
        let ghost start = self.points@;
        let mut prev: Point = Point { x: 0, y: 0, z: 0 };
        let mut k: usize = 0;
        while k < n
            invariant
                trig.wf(),
                in_limit(cx as int),
                in_limit(cy as int),
                in_limit(cz as int),
                in_limit(r as int),
                k <= n,
                samples == circle_samples(trig, cx as int, cy as int, cz as int, r as int, n as int),
                want == polyline(samples),
                k > 0 ==> prev == samples[k - 1],
                self.points@.len() == start.len() + (if k == 0 { 0 } else { 2 * (k - 1) }),
                forall|j: int| 0 <= j < start.len() ==> self.points@[j] == start[j],
                forall|j: int| 0 <= j < self.points@.len() - start.len() ==> self.points@[start.len() + j] == #[trigger] want[j],
            decreases n - k,
        {
            let a: usize = turn_index(k, 3600, n);
            let x: i64 = cx as i64 + scale_by(r as i64, trig.cos[a]);
            let y: i64 = cy as i64 + scale_by(r as i64, trig.sin[a]);
            let p = Point { x: x as i32, y: y as i32, z: cz };
            assert(p == samples[k as int]);
            if k > 0 {
                self.add_edge(prev.x, prev.y, prev.z, p.x, p.y, p.z);
                proof {
                    let j = 2 * (k - 1);
                    assert(want[j] == samples[k - 1]);
                    assert(want[j + 1] == samples[k as int]);
                }
            }
            prev = p;
            k = k + 1;
        }
        assert(self.points@ =~= start + want);
    }

    /// Takes `step` samples along a Hermite or Bezier curve in the plane
    /// `z = 0`, at `t = k / (step - 1)` from 0 to 1, and appends a segment
    /// between each two consecutive samples. For a Hermite curve `(x0, y0)` and `(x1, y1)` are the ends and
    /// `(x2, y2)`, `(x3, y3)` the tangents there; for a Bezier curve all four
    /// are control points in order.
    pub fn add_curve(
        &mut self,
        x0: i32,
        y0: i32,
        x1: i32,
        y1: i32,
        x2: i32,
        y2: i32,
        x3: i32,
        y3: i32,
        step: usize,
        curve_type: CurveType,
    )
        requires
            in_limit(x0 as int),
            in_limit(y0 as int),
            in_limit(x1 as int),
            in_limit(y1 as int),
            in_limit(x2 as int),
            in_limit(y2 as int),
            in_limit(x3 as int),
            in_limit(y3 as int),
            step <= MAX_CURVE_STEPS,
        ensures
            final(self).points@ == old(self).points@ + polyline(
                curve_samples(
                    curve_coefs(x0 as int, x1 as int, x2 as int, x3 as int, curve_type),
                    curve_coefs(y0 as int, y1 as int, y2 as int, y3 as int, curve_type),
                    step as int,
                ),
            ),
    {
        let n = step;
        let m: usize = if n > 1 {
            n - 1
        } else {
            1
        };
        let qx = generate_curve_coefs(x0, x1, x2, x3, curve_type);
        let qy = generate_curve_coefs(y0, y1, y2, y3, curve_type);
        let ghost samples = curve_samples(
            curve_coefs(x0 as int, x1 as int, x2 as int, x3 as int, curve_type),
            curve_coefs(y0 as int, y1 as int, y2 as int, y3 as int, curve_type),
            n as int,
        );
        let ghost want = polyline(samples);
        let ghost start = self.points@;
        let mut prev: Point = Point { x: 0, y: 0, z: 0 };
        let mut k: usize = 0;
        while k < n
            invariant
                n <= MAX_CURVE_STEPS,
                m == (if n > 1 { n - 1 } else { 1 }),
                k <= n,
                qx.0 == curve_coefs(x0 as int, x1 as int, x2 as int, x3 as int, curve_type).0,
                qx.1 == curve_coefs(x0 as int, x1 as int, x2 as int, x3 as int, curve_type).1,
                qx.2 == curve_coefs(x0 as int, x1 as int, x2 as int, x3 as int, curve_type).2,
                qx.3 == curve_coefs(x0 as int, x1 as int, x2 as int, x3 as int, curve_type).3,
                qy.0 == curve_coefs(y0 as int, y1 as int, y2 as int, y3 as int, curve_type).0,
                qy.1 == curve_coefs(y0 as int, y1 as int, y2 as int, y3 as int, curve_type).1,
                qy.2 == curve_coefs(y0 as int, y1 as int, y2 as int, y3 as int, curve_type).2,
                qy.3 == curve_coefs(y0 as int, y1 as int, y2 as int, y3 as int, curve_type).3,
                coefs_small(qx),
                coefs_small(qy),
                samples == curve_samples(
                    curve_coefs(x0 as int, x1 as int, x2 as int, x3 as int, curve_type),
                    curve_coefs(y0 as int, y1 as int, y2 as int, y3 as int, curve_type),
                    n as int,
                ),
                want == polyline(samples),
                k > 0 ==> prev == samples[k - 1],
                self.points@.len() == start.len() + (if k == 0 { 0 } else { 2 * (k - 1) }),
                forall|j: int| 0 <= j < start.len() ==> self.points@[j] == start[j],
                forall|j: int| 0 <= j < self.points@.len() - start.len() ==> self.points@[start.len() + j] == #[trigger] want[j],
            decreases n - k,
        {
            let x = eval_cubic(qx, m, k);
            let y = eval_cubic(qy, m, k);
            let p = Point { x, y, z: 0 };
            assert(p == samples[k as int]);
            if k > 0 {
                self.add_edge(prev.x, prev.y, prev.z, p.x, p.y, p.z);
                proof {
                    let j = 2 * (k - 1);
                    assert(want[j] == samples[k - 1]);
                    assert(want[j + 1] == samples[k as int]);
                }
            }
            prev = p;
            k = k + 1;
        }
        assert(self.points@ =~= start + want);
    }

    /// Appends the triangles of a sphere's surface: the lattice of
    /// `generate_sphere`, two triangles per cell, then a fan that closes the
    /// far end.
    pub fn add_sphere(&mut self, cx: i32, cy: i32, cz: i32, r: i32, step: usize, trig: &Trig)
        requires
            trig.wf(),
            in_limit(cx as int),
            in_limit(cy as int),
            in_limit(cz as int),
            in_limit(r as int),
        ensures
            final(self).points@ == old(self).points@ + sphere_mesh(
                sphere_points(trig, cx as int, cy as int, cz as int, r as int, step as int),
                step as int,
            ) + sphere_cap(
                sphere_points(trig, cx as int, cy as int, cz as int, r as int, step as int),
                step as int,
            ),
    {
        let n = step;
        let lattice = Matrix::generate_sphere(cx, cy, cz, r, step, trig);
        let l = &lattice.points;
        let total: usize = l.len();
        let ghost want = sphere_mesh(l@, n as int);
        let ghost start = self.points@;
        let mut i: usize = 0;
        while i < n
            invariant
                l@.len() == n * n,
                total == n * n,
                want == sphere_mesh(l@, n as int),
                i <= n,
                self.points@.len() == start.len() + 6 * (i * (n - 1)),
                forall|k: int| 0 <= k < start.len() ==> self.points@[k] == start[k],
                forall|k: int| 0 <= k < 6 * (i * (n - 1)) ==> self.points@[start.len() + k] == #[trigger] want[k],
            decreases n - i,
        {
            let mut j: usize = 0;
            while j + 1 < n
                invariant
                    l@.len() == n * n,
                    total == n * n,
                    want == sphere_mesh(l@, n as int),
                    i < n,
                    j <= n - 1,
                    self.points@.len() == start.len() + 6 * (i * (n - 1) + j),
                    forall|k: int| 0 <= k < start.len() ==> self.points@[k] == start[k],
                    forall|k: int| 0 <= k < 6 * (i * (n - 1) + j) ==> self.points@[start.len() + k] == #[trigger] want[k],
                decreases n - j,
            {
                proof {
                    lemma_mesh_index(n as int, i as int, j as int, 0);
                    assert(0 <= i * n) by (nonlinear_arith) requires 0 <= i, 1 <= n;
                    assert(i * n + j + 1 < n * n);
                }
                let a: usize = i * n + j;
                let i2: usize = (i + 1) % n;
                let b: usize = i2 * n + j;
                let (p, q, t, u) = (l[a], l[a + 1], l[b + 1], l[b]);
                let ghost base = self.points@.len();
                self.add_polygon(p.x, p.y, p.z, q.x, q.y, q.z, t.x, t.y, t.z);
                self.add_polygon(p.x, p.y, p.z, t.x, t.y, t.z, u.x, u.y, u.z);
                proof {
                    let c6 = 6 * (i * (n - 1) + j);
                    assert forall|v: int| 0 <= v < 6 implies self.points@[start.len() + c6 + v] == #[trigger] want[c6 + v] by {
                        lemma_mesh_index(n as int, i as int, j as int, v);
                    }
                    assert forall|k: int| 0 <= k < c6 + 6 implies self.points@[start.len() + k] == #[trigger] want[k] by {
                        if k >= c6 {
                            let v = k - c6;
                            assert(want[c6 + v] == want[k]);
                        }
                    }
                    assert(c6 + 6 == 6 * (i * (n - 1) + j + 1));
                }
                j = j + 1;
            }
            proof {
                assert(i * (n - 1) + (n - 1) == (i + 1) * (n - 1)) by (nonlinear_arith);
            }
            i = i + 1;
        }
        assert(self.points@ =~= start + want);
        let ghost mid = self.points@;
        let ghost cap = sphere_cap(l@, n as int);
        let mut i: usize = 1;
        while n > 0 && i < n - 1
            invariant
                l@.len() == n * n,
                total == n * n,
                cap == sphere_cap(l@, n as int),
                1 <= i,
                n >= 2 ==> i + 1 <= n,
                n < 3 ==> i == 1,
                self.points@.len() == mid.len() + 3 * (i - 1),
                forall|k: int| 0 <= k < mid.len() ==> self.points@[k] == mid[k],
                forall|k: int| 0 <= k < 3 * (i - 1) ==> self.points@[mid.len() + k] == #[trigger] cap[k],
            decreases n - i,
        {
            proof {
                lemma_cap_index(n as int, i as int, 0);
                lemma_cap_index(n as int, i as int, 1);
                lemma_cap_index(n as int, i as int, 2);
            }
            let p = l[n - 1];
            let q = l[i * n + n - 1];
            let u = l[(i + 1) * n + n - 1];
            self.add_polygon(p.x, p.y, p.z, q.x, q.y, q.z, u.x, u.y, u.z);
            proof {
                let c3 = 3 * (i - 1);
                assert(cap[c3] == p);
                assert(cap[c3 + 1] == q);
                assert(cap[c3 + 2] == u);
                assert forall|k: int| 0 <= k < c3 + 3 implies self.points@[mid.len() + k] == #[trigger] cap[k] by {
                }
            }
            i = i + 1;
        }
        proof {
            if n >= 3 {
                assert(3 * (i - 1) == cap.len());
            } else {
                assert(cap.len() == 0);
                assert(i == 1);
            }
        }
        assert(self.points@ =~= start + want + cap);
    }
}

} // verus!
