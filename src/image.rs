use crate::color::Color;
use vstd::arithmetic::div_mod::{
    lemma_fundamental_div_mod, lemma_fundamental_div_mod_converse, lemma_mod_bound,
    lemma_multiply_divide_lt, lemma_div_pos_is_pos,
};
use vstd::prelude::*;

verus! {

/// A framebuffer of `width * height` colours. Row `y` (counted upward from the
/// bottom of the picture) starts at index `y * width`.
pub struct Image {
    pub width: usize,
    pub height: usize,
    pub pixels: Vec<Color>,
}

/// `v` with every cell whose coordinates appear in `pts` set to `c`. A cell at
/// index `i` of a row-major buffer of row length `w` has coordinates
/// `(i % w, i / w)`; points outside the buffer match no cell.
pub open spec fn paint(v: Seq<Color>, w: int, pts: Seq<(int, int)>, c: Color) -> Seq<Color> {
    Seq::new(v.len(), |i: int| if pts.contains((i % w, i / w)) { c } else { v[i] })
}

/// Painting one more point after a sequence of points is painting the longer sequence.
pub proof fn lemma_paint_push(v: Seq<Color>, w: int, pts: Seq<(int, int)>, p: (int, int), c: Color)
    ensures
        paint(paint(v, w, pts, c), w, seq![p], c) == paint(v, w, pts.push(p), c),
{
    let lhs = paint(paint(v, w, pts, c), w, seq![p], c);
    let rhs = paint(v, w, pts.push(p), c);
    assert forall|i: int| 0 <= i < v.len() implies lhs[i] == rhs[i] by {
        let q = (i % w, i / w);
        if pts.push(p).contains(q) {
            let k = choose|k: int| 0 <= k < pts.push(p).len() && pts.push(p)[k] == q;
            if k < pts.len() {
                assert(pts[k] == q);
            } else {
                assert(seq![p][0] == q);
            }
        } else {
            if pts.contains(q) {
                let k = choose|k: int| 0 <= k < pts.len() && pts[k] == q;
                assert(pts.push(p)[k] == q);
            }
            if seq![p].contains(q) {
                assert(pts.push(p)[pts.len() as int] == q);
            }
        }
    }
    assert(lhs =~= rhs);
}

/// Painting two sequences of points one after the other is painting their concatenation.
pub proof fn lemma_paint_concat(v: Seq<Color>, w: int, a: Seq<(int, int)>, b: Seq<(int, int)>, c: Color)
    ensures
        paint(paint(v, w, a, c), w, b, c) == paint(v, w, a + b, c),
{
    let lhs = paint(paint(v, w, a, c), w, b, c);
    let rhs = paint(v, w, a + b, c);
    assert forall|i: int| 0 <= i < v.len() implies lhs[i] == rhs[i] by {
        let q = (i % w, i / w);
        if (a + b).contains(q) {
            let k = choose|k: int| 0 <= k < (a + b).len() && (a + b)[k] == q;
            if k < a.len() {
                assert(a[k] == q);
            } else {
                assert(b[k - a.len()] == q);
            }
        } else {
            if a.contains(q) {
                let k = choose|k: int| 0 <= k < a.len() && a[k] == q;
                assert((a + b)[k] == q);
            }
            if b.contains(q) {
                let k = choose|k: int| 0 <= k < b.len() && b[k] == q;
                assert((a + b)[k + a.len()] == q);
            }
        }
    }
    assert(lhs =~= rhs);
}

impl Image {
    /// The buffer holds exactly one colour per pixel.
    pub open spec fn wf(&self) -> bool {
        self.pixels@.len() == self.width * self.height
    }

    /// The colour at column `x`, row `y`.
    pub open spec fn pixel_at(&self, x: int, y: int) -> Color {
        self.pixels@[y * self.width + x]
    }

    /// A `width` by `height` framebuffer filled with the background colour.
    pub fn new(width: usize, height: usize) -> (img: Image)
        requires
            width * height <= usize::MAX,
        ensures
            img.wf(),
            img.width == width,
            img.height == height,
            forall|i: int| 0 <= i < img.pixels@.len() ==> img.pixels@[i] == Color::background(),
    {
        let n: usize = width * height;
        let mut pixels: Vec<Color> = Vec::new();
        let mut i: usize = 0;
        while i < n
            invariant
                i <= n,
                pixels@.len() == i,
                forall|j: int| 0 <= j < i ==> pixels@[j] == Color::background(),
            decreases n - i,
        {
            pixels.push(Color::new_color(0, 0, 0));
            i = i + 1;
        }
        Image { width, height, pixels }
    }

    /// Sets every pixel to the background colour.
    pub fn clear(&mut self)
        requires
            old(self).wf(),
        ensures
            final(self).wf(),
            final(self).width == old(self).width,
            final(self).height == old(self).height,
            forall|i: int|
                0 <= i < final(self).pixels@.len() ==> final(self).pixels@[i] == Color::background(),
    {
        let n: usize = self.pixels.len();
        let mut i: usize = 0;
        while i < n
            invariant
                i <= n,
                n == self.pixels@.len(),
                self.wf(),
                self.width == old(self).width,
                self.height == old(self).height,
                forall|j: int| 0 <= j < i ==> self.pixels@[j] == Color::background(),
            decreases n - i,
        {
            self.pixels.set(i, Color::new_color(0, 0, 0));
            i = i + 1;
        }
    }

    /// Colours the pixel at column `x`, row `y`; a point outside the buffer is dropped.
    pub fn plot(&mut self, x: i64, y: i64, c: Color)
        requires
            old(self).wf(),
        ensures
            final(self).wf(),
            final(self).width == old(self).width,
            final(self).height == old(self).height,
            final(self).pixels@ == paint(
                old(self).pixels@,
                old(self).width as int,
                seq![(x as int, y as int)],
                c,
            ),
    {
        let ghost w = self.width as int;
        let ghost h = self.height as int;
        let ghost v = self.pixels@;
        let ghost p = (x as int, y as int);
        if 0 <= x && 0 <= y && (x as u64) < (self.width as u64) && (y as u64) < (self.height as u64) {
            let ghost idx = y * w + x;
            let n: usize = self.pixels.len();
            proof {
                assert(0 <= x < w && 0 <= y < h);
                assert(0 <= y * w + x < h * w) by (nonlinear_arith)
                    requires 0 <= y < h, 0 <= x < w;
                assert(v.len() == h * w) by (nonlinear_arith) requires v.len() == w * h;
                assert((y as usize) * self.width == y * w);
            }
            let k: usize = (y as usize) * self.width + (x as usize);
            assert(k == idx);
            self.pixels.set(k, c);
            proof {
                assert forall|i: int| 0 <= i < v.len() implies self.pixels@[i] == (if seq![p].contains(
                    (i % w, i / w),
                ) { c } else { v[i] }) by {
                    lemma_fundamental_div_mod(i, w);
                    if i == idx {
                        lemma_fundamental_div_mod_converse(i, w, y as int, x as int);
                        assert(seq![p][0] == (i % w, i / w));
                    } else {
                        if seq![p].contains((i % w, i / w)) {
                            assert(seq![p][0] == (i % w, i / w));
                            assert(i == w * (i / w) + i % w);
                            assert(w * y == y * w) by (nonlinear_arith);
                        }
                    }
                }
                assert(self.pixels@ =~= paint(v, w, seq![p], c));
            }
        } else {
            proof {
                assert forall|i: int| 0 <= i < v.len() implies !seq![p].contains((#[trigger] (i % w), i / w)) by {
                    if seq![p].contains((i % w, i / w)) {
                        assert(seq![p][0] == (i % w, i / w));
                        assert(w > 0) by (nonlinear_arith) requires 0 <= i < w * h, h >= 0;
                        lemma_mod_bound(i, w);
                        lemma_div_pos_is_pos(i, w);
                        assert(i < w * h);
                        lemma_multiply_divide_lt(i, w, h);
                    }
                }
                assert(self.pixels@ =~= paint(v, w, seq![p], c));
            }
        }
    }
}

} // verus!
