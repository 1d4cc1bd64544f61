use crate::color::Color;
use crate::image::{Image, paint, lemma_paint_push, lemma_paint_concat};
use crate::matrix::{Matrix, Point};
use vstd::arithmetic::div_mod::{lemma_fundamental_div_mod, lemma_fundamental_div_mod_converse};
use vstd::prelude::*;

verus! {

/// `a / b` rounded up, for a positive `b`; zero when `b` is not positive.
pub open spec fn ceil_div(a: int, b: int) -> int {
    if b <= 0 {
        0
    } else {
        (a + b - 1) / b
    }
}

pub open spec fn abs(v: int) -> int {
    if v < 0 {
        -v
    } else {
        v
    }
}

/// Endpoints are taken left to right; a vertical line is taken bottom to top.
pub open spec fn ordered(x0: int, y0: int, x1: int, y1: int) -> bool {
    x0 < x1 || (x0 == x1 && y0 <= y1)
}

/// The number of pixels of the line from `(x0, y0)` to `(x1, y1)`: one per step
/// along the axis of larger extent, both ends included.
pub open spec fn span_len(x0: int, y0: int, x1: int, y1: int) -> int {
    let dx = abs(x1 - x0);
    let dy = abs(y1 - y0);
    if dy <= dx {
        dx + 1
    } else {
        dy + 1
    }
}

/// The `i`-th pixel of the line from `(x0, y0)` to `(x1, y1)`, for `x0 <= x1`.
/// A shallow line (|slope| <= 1) advances one column per pixel and moves one
/// row each time the exact row, rounded up, changes; a steep line swaps the
/// roles of rows and columns. Rows move down when the line descends.
pub open spec fn span_point(x0: int, y0: int, x1: int, y1: int, i: int) -> (int, int) {
    let dx = x1 - x0;
    let dy = abs(y1 - y0);
    let sy: int = if y1 < y0 {
        -1
    } else {
        1
    };
    if dy <= dx {
        (x0 + i, y0 + sy * ceil_div(i * dy, dx))
    } else {
        (x0 + ceil_div(i * dx, dy), y0 + sy * i)
    }
}

pub open spec fn span_pixels(x0: int, y0: int, x1: int, y1: int) -> Seq<(int, int)> {
    Seq::new(span_len(x0, y0, x1, y1) as nat, |i: int| span_point(x0, y0, x1, y1, i))
}

/// The pixels that `draw_line` plots, in the order it plots them.
pub open spec fn line_pixels(x0: int, y0: int, x1: int, y1: int) -> Seq<(int, int)> {
    if ordered(x0, y0, x1, y1) {
        span_pixels(x0, y0, x1, y1)
    } else {
        span_pixels(x1, y1, x0, y0)
    }
}

/// Chebyshev distance between two pixels.
pub open spec fn chebyshev(p: (int, int), q: (int, int)) -> int {
    let dx = abs(p.0 - q.0);
    let dy = abs(p.1 - q.1);
    if dx < dy {
        dy
    } else {
        dx
    }
}

/// Bounds of the rounded-up quotient, and how it moves when the numerator
/// grows by at most the divisor.
proof fn lemma_ceil_step(i: int, a: int, b: int)
    requires
        0 <= i,
        0 <= a <= b,
        0 < b,
    ensures
        b * ceil_div(i * a, b) - b < i * a <= b * ceil_div(i * a, b),
        0 <= ceil_div(i * a, b),
        ceil_div(0, b) == 0,
        i <= b ==> ceil_div(i * a, b) <= a,
        ceil_div((i + 1) * a, b) == if (i + 1) * a > b * ceil_div(i * a, b) {
            ceil_div(i * a, b) + 1
        } else {
            ceil_div(i * a, b)
        },
{
    let n = i * a;
    let q = ceil_div(n, b);
    assert(0 <= n) by (nonlinear_arith) requires 0 <= i, 0 <= a, n == i * a;
    lemma_fundamental_div_mod(n + b - 1, b);
    let r = (n + b - 1) % b;
    assert(0 <= r < b);
    assert(n + b - 1 == b * q + r);
    assert(0 <= q) by (nonlinear_arith) requires n + b - 1 == b * q + r, 0 <= n, r < b, 0 < b;
    if i <= b {
        assert(n <= b * a) by (nonlinear_arith) requires n == i * a, i <= b, 0 <= a;
        assert(q <= a) by (nonlinear_arith) requires b * q - b < n, n <= b * a, 0 < b;
    }
    lemma_fundamental_div_mod_converse(b - 1, b, 0, b - 1);
    let n1 = (i + 1) * a;
    assert(n1 == n + a) by (nonlinear_arith) requires n1 == (i + 1) * a, n == i * a;
    assert((q + 1) * b == b * q + b) by (nonlinear_arith);
    assert(q * b == b * q) by (nonlinear_arith);
    if n1 > b * q {
        lemma_fundamental_div_mod_converse(n1 + b - 1, b, q + 1, n1 - b * q - 1);
    } else {
        lemma_fundamental_div_mod_converse(n1 + b - 1, b, q, n1 + b - 1 - b * q);
    }
}

/// Consecutive pixels of a line are neighbours (Chebyshev distance exactly one),
/// and both endpoints are plotted: the first pixel is one endpoint and the
/// last pixel is the other.
pub proof fn lemma_line_connected(x0: int, y0: int, x1: int, y1: int)
    ensures
        ({
            let s = line_pixels(x0, y0, x1, y1);
            &&& s.len() >= 1
            &&& forall|i: int| 0 <= i < s.len() - 1 ==> chebyshev(#[trigger] s[i], s[i + 1]) == 1
            &&& s.contains((x0, y0))
            &&& s.contains((x1, y1))
            &&& (s[0] == (x0, y0) && s[s.len() - 1] == (x1, y1))
                || (s[0] == (x1, y1) && s[s.len() - 1] == (x0, y0))
        }),
{
    if ordered(x0, y0, x1, y1) {
        lemma_span_connected(x0, y0, x1, y1);
    } else {
        lemma_span_connected(x1, y1, x0, y0);
    }
    let s = line_pixels(x0, y0, x1, y1);
    if s[0] == (x0, y0) {
        assert(s[s.len() - 1] == (x1, y1));
        assert(s.contains((x0, y0)));
        assert(s.contains((x1, y1)));
    } else {
        assert(s[s.len() - 1] == (x0, y0));
        assert(s.contains((x0, y0)));
        assert(s.contains((x1, y1)));
    }
}

proof fn lemma_span_connected(x0: int, y0: int, x1: int, y1: int)
    requires
        ordered(x0, y0, x1, y1),
    ensures
        ({
            let s = span_pixels(x0, y0, x1, y1);
            &&& s.len() >= 1
            &&& forall|i: int| 0 <= i < s.len() - 1 ==> chebyshev(#[trigger] s[i], s[i + 1]) == 1
            &&& s[0] == (x0, y0)
            &&& s[s.len() - 1] == (x1, y1)
        }),
{
    let s = span_pixels(x0, y0, x1, y1);
    assert forall|i: int| 0 <= i < s.len() - 1 implies chebyshev(#[trigger] s[i], s[i + 1]) == 1 by {
        lemma_span_step(x0, y0, x1, y1, i);
    }
    lemma_span_ends(x0, y0, x1, y1);
}

proof fn lemma_ceil_exact(m: int, n: int)
    requires
        0 < n,
    ensures
        ceil_div(0 * m, n) == 0,
        ceil_div(n * m, n) == m,
{
    assert(0 * m == 0);
    lemma_fundamental_div_mod_converse(n - 1, n, 0, n - 1);
    assert(n * m + n - 1 == m * n + (n - 1)) by (nonlinear_arith);
    lemma_fundamental_div_mod_converse(n * m + n - 1, n, m, n - 1);
}

proof fn lemma_span_ends(x0: int, y0: int, x1: int, y1: int)
    requires
        ordered(x0, y0, x1, y1),
    ensures
        span_point(x0, y0, x1, y1, 0) == (x0, y0),
        span_point(x0, y0, x1, y1, span_len(x0, y0, x1, y1) - 1) == (x1, y1),
{
    let dx = x1 - x0;
    let dy = abs(y1 - y0);
    if dy <= dx {
        if dx > 0 {
            lemma_ceil_exact(dy, dx);
        }
    } else {
        lemma_ceil_exact(dx, dy);
    }
    if y1 < y0 {
        assert(-1 * dy == y1 - y0);
    } else {
        assert(1 * dy == y1 - y0);
    }
}

proof fn lemma_span_step(x0: int, y0: int, x1: int, y1: int, i: int)
    requires
        ordered(x0, y0, x1, y1),
        0 <= i < span_len(x0, y0, x1, y1) - 1,
    ensures
        chebyshev(span_point(x0, y0, x1, y1, i), span_point(x0, y0, x1, y1, i + 1)) == 1,
{
    let dx = x1 - x0;
    let dy = abs(y1 - y0);
    let (n, m) = if dy <= dx {
        (dx, dy)
    } else {
        (dy, dx)
    };
    lemma_ceil_step(i, m, n);
    let q0 = ceil_div(i * m, n);
    let q1 = ceil_div((i + 1) * m, n);
    assert(q1 == q0 || q1 == q0 + 1);
    if y1 < y0 {
        assert(-1 * q1 - -1 * q0 == q0 - q1);
        assert(-1 * (i + 1) - -1 * i == -1);
    } else {
        assert(1 * q1 - 1 * q0 == q1 - q0);
        assert(1 * (i + 1) - 1 * i == 1);
    }
}

/// Drawing a line from either end plots the same pixels, in the same order.
pub proof fn lemma_line_symmetric(x0: int, y0: int, x1: int, y1: int)
    ensures
        line_pixels(x0, y0, x1, y1) == line_pixels(x1, y1, x0, y0),
        line_pixels(x0, y0, x1, y1).to_set() == line_pixels(x1, y1, x0, y0).to_set(),
{
}

/// The pixels of the segment from `a` to `b`, projected onto the x-y plane.
pub open spec fn segment_pixels(a: Point, b: Point) -> Seq<(int, int)> {
    line_pixels(a.x as int, a.y as int, b.x as int, b.y as int)
}

/// The pixels of the first `k` segments of an edge buffer, segment by segment.
pub open spec fn edges_pixels(s: Seq<Point>, k: nat) -> Seq<(int, int)>
    decreases k,
{
    if k == 0 {
        Seq::empty()
    } else {
        let i = 2 * (k - 1);
        edges_pixels(s, (k - 1) as nat) + segment_pixels(s[i], s[i + 1])
    }
}

/// The outline pixels of the first `k` triangles of a polygon buffer: for each
/// triangle, its sides from the first corner to the second, the second to the
/// third, and the third back to the first.
pub open spec fn polygons_pixels(s: Seq<Point>, k: nat) -> Seq<(int, int)>
    decreases k,
{
    if k == 0 {
        Seq::empty()
    } else {
        let i = 3 * (k - 1);
        polygons_pixels(s, (k - 1) as nat) + segment_pixels(s[i], s[i + 1]) + segment_pixels(
            s[i + 1],
            s[i + 2],
        ) + segment_pixels(s[i + 2], s[i])
    }
}

impl Image {
    /// Plots the pixels of the line between the two endpoints with an integer
    /// error accumulator; pixels outside the buffer are dropped.
    pub fn draw_line(&mut self, x0: i32, y0: i32, x1: i32, y1: i32, color: Color)
        requires
            old(self).wf(),
        ensures
            final(self).wf(),
            final(self).width == old(self).width,
            final(self).height == old(self).height,
            final(self).pixels@ == paint(
                old(self).pixels@,
                old(self).width as int,
                line_pixels(x0 as int, y0 as int, x1 as int, y1 as int),
                color,
            ),
    {
        let (ax, ay, bx, by): (i64, i64, i64, i64) = if x0 < x1 || (x0 == x1 && y0 <= y1) {
            (x0 as i64, y0 as i64, x1 as i64, y1 as i64)
        } else {
            (x1 as i64, y1 as i64, x0 as i64, y0 as i64)
        };
        let ghost line = line_pixels(x0 as int, y0 as int, x1 as int, y1 as int);
        assert(line == span_pixels(ax as int, ay as int, bx as int, by as int));
        let dx: i64 = bx - ax;
        let dy: i64 = if by < ay {
            ay - by
        } else {
            by - ay
        };
        let sy: i64 = if by < ay {
            -1
        } else {
            1
        };
        let shallow: bool = dy <= dx;
        let (n, m): (i64, i64) = if shallow {
            (dx, dy)
        } else {
            (dy, dx)
        };
        let ghost w = self.width as int;
        let ghost v = self.pixels@;
        let mut i: i64 = 0;
        let mut q: i64 = 0;
        let mut e: i64 = m;
        proof {
            assert(0 * m == 0);
            if n > 0 {
                lemma_ceil_step(0, m as int, n as int);
            }
        }
        assert(line.take(0) =~= Seq::<(int, int)>::empty());
        assert(self.pixels@ =~= paint(v, w, line.take(0), color));
        while i <= n
            invariant
                0 <= m <= n <= 0x1_0000_0000,
                shallow == (dy <= dx),
                n == (if shallow { dx } else { dy }),
                m == (if shallow { dy } else { dx }),
                dx == bx - ax,
                dy == abs(by - ay),
                sy == (if by < ay { -1int } else { 1 }),
                -0x8000_0000 <= ax <= 0x7fff_ffff,
                -0x8000_0000 <= ay <= 0x7fff_ffff,
                line == span_pixels(ax as int, ay as int, bx as int, by as int),
                line.len() == n + 1,
                0 <= i <= n + 1,
                q == ceil_div(i * m, n as int),
                0 <= q <= m + 1,
                i <= n ==> q <= m,
                e == (i + 1) * m - n * q,
                m - n <= e <= m,
                self.wf(),
                self.width == w,
                self.height == old(self).height,
                v == old(self).pixels@,
                self.pixels@ == paint(v, w, line.take(i as int), color),
            decreases n + 1 - i,
        {
            let (px, py): (i64, i64) = if shallow {
                (ax + i, ay + sy * q)
            } else {
                (ax + q, ay + sy * i)
            };
            assert((px as int, py as int) == line[i as int]);
            self.plot(px, py, color);
            proof {
                lemma_paint_push(v, w, line.take(i as int), (px as int, py as int), color);
                assert(line.take(i as int).push(line[i as int]) =~= line.take(i + 1));
            }
            let ghost old_q = q;
            if n > 0 {
                proof {
                    lemma_ceil_step(i as int, m as int, n as int);
                    assert((i + 1) * m == i * m + m) by (nonlinear_arith);
                }
            }
            let ghost stepped = e > 0;
            if e > 0 {
                q = q + 1;
                e = e - n;
            }
            i = i + 1;
            e = e + m;
            proof {
                if stepped {
                    assert(n * q == n * old_q + n) by (nonlinear_arith) requires q == old_q + 1;
                }
                if n > 0 {
                    lemma_ceil_step(i as int, m as int, n as int);
                    assert((i + 1) * m == i * m + m) by (nonlinear_arith);
                } else {
                    assert(i * m == 0) by (nonlinear_arith) requires m == 0;
                    assert(n * q == 0) by (nonlinear_arith) requires n == 0;
                }
            }
        }
        assert(line.take(i as int) =~= line);
    }

    /// Draws every segment of an edge buffer, reading its points in pairs.
    pub fn draw_lines(&mut self, matrix: &Matrix, color: Color)
        requires
            old(self).wf(),
            matrix.points@.len() % 2 == 0,
        ensures
            final(self).wf(),
            final(self).width == old(self).width,
            final(self).height == old(self).height,
            final(self).pixels@ == paint(
                old(self).pixels@,
                old(self).width as int,
                edges_pixels(matrix.points@, (matrix.points@.len() / 2) as nat),
                color,
            ),
    {
        let n: usize = matrix.points.len();
        let ghost s = matrix.points@;
        let ghost v = self.pixels@;
        let ghost w = self.width as int;
        let mut i: usize = 0;
        assert(self.pixels@ =~= paint(v, w, edges_pixels(s, 0), color));
        while i < n
            invariant
                n == s.len(),
                s == matrix.points@,
                n % 2 == 0,
                i % 2 == 0,
                i <= n,
                self.wf(),
                self.width == w,
                self.height == old(self).height,
                v == old(self).pixels@,
                self.pixels@ == paint(v, w, edges_pixels(s, (i / 2) as nat), color),
            decreases n - i,
        {
            let a: Point = matrix.points[i];
            let b: Point = matrix.points[i + 1];
            self.draw_line(a.x, a.y, b.x, b.y, color);
            proof {
                lemma_paint_concat(v, w, edges_pixels(s, (i / 2) as nat), segment_pixels(a, b), color);
                assert(edges_pixels(s, ((i + 2) / 2) as nat) == edges_pixels(s, (i / 2) as nat)
                    + segment_pixels(a, b));
            }
            i = i + 2;
        }
    }

    /// Draws the outline of every triangle of a polygon buffer, reading its
    /// points in threes.
    pub fn draw_polygons(&mut self, polygons: &Matrix, c: Color)
        requires
            old(self).wf(),
            polygons.points@.len() % 3 == 0,
        ensures
            final(self).wf(),
            final(self).width == old(self).width,
            final(self).height == old(self).height,
            final(self).pixels@ == paint(
                old(self).pixels@,
                old(self).width as int,
                polygons_pixels(polygons.points@, (polygons.points@.len() / 3) as nat),
                c,
            ),
    {
        let n: usize = polygons.points.len();
        let ghost s = polygons.points@;
        let ghost v = self.pixels@;
        let ghost w = self.width as int;
        let mut i: usize = 0;
        assert(self.pixels@ =~= paint(v, w, polygons_pixels(s, 0), c));
        while i < n
            invariant
                n == s.len(),
                s == polygons.points@,
                n % 3 == 0,
                i % 3 == 0,
                i <= n,
                self.wf(),
                self.width == w,
                self.height == old(self).height,
                v == old(self).pixels@,
                self.pixels@ == paint(v, w, polygons_pixels(s, (i / 3) as nat), c),
            decreases n - i,
        {
            let p0: Point = polygons.points[i];
            let p1: Point = polygons.points[i + 1];
            let p2: Point = polygons.points[i + 2];
            let ghost before = polygons_pixels(s, (i / 3) as nat);
            self.draw_line(p0.x, p0.y, p1.x, p1.y, c);
            self.draw_line(p1.x, p1.y, p2.x, p2.y, c);
            self.draw_line(p2.x, p2.y, p0.x, p0.y, c);
            proof {
                let l0 = segment_pixels(p0, p1);
                let l1 = segment_pixels(p1, p2);
                let l2 = segment_pixels(p2, p0);
                lemma_paint_concat(v, w, before, l0, c);
                lemma_paint_concat(v, w, before + l0, l1, c);
                lemma_paint_concat(v, w, before + l0 + l1, l2, c);
                assert(polygons_pixels(s, ((i + 3) / 3) as nat) == before + l0 + l1 + l2);
            }
            i = i + 3;
        }
    }
}

} // verus!
