use vstd::prelude::*;

verus! {

/// A point in homogeneous coordinates whose `w` component is 1.
#[derive(Clone, Copy, Debug, PartialEq, Eq, Structural)]
pub struct Point {
    pub x: i32,
    pub y: i32,
    pub z: i32,
}

pub open spec fn pt(x: i32, y: i32, z: i32) -> Point {
    Point { x, y, z }
}

/// A growable set of points, kept in insertion order. As an edge buffer it is
/// read two points at a time (the ends of a segment); as a polygon buffer,
/// three at a time (the corners of a triangle).
#[derive(Debug)]
pub struct Matrix {
    pub points: Vec<Point>,
}

/// Whether all of `x + w`, `y - h` and `z - d` fit in an `i32`.
pub open spec fn box_fits(x: i32, y: i32, z: i32, w: i32, h: i32, d: i32) -> bool {
    i32::MIN <= x + w <= i32::MAX && i32::MIN <= y - h <= i32::MAX && i32::MIN <= z - d
        <= i32::MAX
}

/// The twelve triangles (two per face) of the box whose upper-left-front corner
/// is `(x, y, z)`, extending `w` along +x, `h` along -y and `d` along -z.
pub open spec fn box_faces(x: i32, y: i32, z: i32, w: i32, h: i32, d: i32) -> Seq<Point> {
    let x1 = (x + w) as i32;
    let y1 = (y - h) as i32;
    let z1 = (z - d) as i32;
    seq![
        pt(x1, y1, z), pt(x1, y, z), pt(x, y, z),
        pt(x1, y1, z), pt(x, y, z), pt(x, y1, z),
        pt(x, y1, z), pt(x, y, z), pt(x, y, z1),
        pt(x, y1, z), pt(x, y, z1), pt(x, y1, z1),
        pt(x, y1, z1), pt(x1, y, z1), pt(x, y, z1),
        pt(x, y1, z1), pt(x1, y1, z1), pt(x1, y, z1),
        pt(x1, y, z1), pt(x1, y1, z1), pt(x1, y1, z),
        pt(x1, y, z1), pt(x1, y1, z), pt(x1, y, z),
        pt(x, y, z), pt(x1, y, z1), pt(x, y, z1),
        pt(x, y, z), pt(x1, y, z), pt(x1, y, z1),
        pt(x, y1, z), pt(x1, y1, z1), pt(x, y1, z1),
        pt(x, y1, z), pt(x1, y1, z), pt(x1, y1, z1),
    ]
}

/// The `k`-th of the twelve edges of the same box: the four of the front face,
/// the four of the back face, then the four joining them.
pub open spec fn box_edge(x: i32, y: i32, z: i32, w: i32, h: i32, d: i32, k: int) -> (Point, Point) {
    let x1 = (x + w) as i32;
    let y1 = (y - h) as i32;
    let z1 = (z - d) as i32;
    if k == 0 {
        (pt(x, y, z), pt(x1, y, z))
    } else if k == 1 {
        (pt(x1, y, z), pt(x1, y1, z))
    } else if k == 2 {
        (pt(x1, y1, z), pt(x, y1, z))
    } else if k == 3 {
        (pt(x, y1, z), pt(x, y, z))
    } else if k == 4 {
        (pt(x, y, z1), pt(x1, y, z1))
    } else if k == 5 {
        (pt(x1, y, z1), pt(x1, y1, z1))
    } else if k == 6 {
        (pt(x1, y1, z1), pt(x, y1, z1))
    } else if k == 7 {
        (pt(x, y1, z1), pt(x, y, z1))
    } else if k == 8 {
        (pt(x, y, z), pt(x, y, z1))
    } else if k == 9 {
        (pt(x1, y, z), pt(x1, y, z1))
    } else if k == 10 {
        (pt(x1, y1, z), pt(x1, y1, z1))
    } else {
        (pt(x, y1, z), pt(x, y1, z1))
    }
}

/// The edges of the box as an edge buffer: the ends of edge `k` at `2k` and `2k + 1`.
pub open spec fn box_edges(x: i32, y: i32, z: i32, w: i32, h: i32, d: i32) -> Seq<Point> {
    Seq::new(
        24,
        |i: int|
            if i % 2 == 0 {
                box_edge(x, y, z, w, h, d, i / 2).0
            } else {
                box_edge(x, y, z, w, h, d, i / 2).1
            },
    )
}

/// Two segments are the same when they join the same two points, in either order.
pub open spec fn same_segment(a: (Point, Point), b: (Point, Point)) -> bool {
    (a.0 == b.0 && a.1 == b.1) || (a.0 == b.1 && a.1 == b.0)
}

/// A box with non-zero width, height and depth has twelve distinct edges, none
/// of them of zero length.
pub proof fn lemma_box_twelve_edges(x: i32, y: i32, z: i32, w: i32, h: i32, d: i32)
    requires
        box_fits(x, y, z, w, h, d),
        w != 0,
        h != 0,
        d != 0,
    ensures
        forall|k: int| 0 <= k < 12 ==> (#[trigger] box_edge(x, y, z, w, h, d, k)).0 != box_edge(x, y, z, w, h, d, k).1,
        forall|j: int, k: int|
            0 <= j < k < 12 ==> !same_segment(
                #[trigger] box_edge(x, y, z, w, h, d, j),
                #[trigger] box_edge(x, y, z, w, h, d, k),
            ),
{
}

/// The edge buffer of a box holds twelve segments, read in pairs as
/// `draw_lines` reads them: segment `k` is `box_edge(k)`, no segment has zero
/// length and no two are the same, when width, height and depth are non-zero.
pub proof fn lemma_box_buffer_segments(x: i32, y: i32, z: i32, w: i32, h: i32, d: i32)
    requires
        box_fits(x, y, z, w, h, d),
        w != 0,
        h != 0,
        d != 0,
    ensures
        box_edges(x, y, z, w, h, d).len() == 24,
        forall|k: int| 0 <= k < 12 ==> (#[trigger] box_edges(x, y, z, w, h, d)[2 * k], box_edges(x, y, z, w, h, d)[2 * k + 1])
            == box_edge(x, y, z, w, h, d, k),
        forall|j: int, k: int|
            0 <= j < k < 12 ==> !same_segment(
                #[trigger] box_edge(x, y, z, w, h, d, j),
                #[trigger] box_edge(x, y, z, w, h, d, k),
            ),
{
    lemma_box_twelve_edges(x, y, z, w, h, d);
    assert forall|k: int| 0 <= k < 12 implies (#[trigger] box_edges(x, y, z, w, h, d)[2 * k], box_edges(x, y, z, w, h, d)[2 * k + 1])
        == box_edge(x, y, z, w, h, d, k) by {
        vstd::arithmetic::div_mod::lemma_fundamental_div_mod_converse(2 * k, 2, k, 0);
        vstd::arithmetic::div_mod::lemma_fundamental_div_mod_converse(2 * k + 1, 2, k, 1);
    }
}

impl Matrix {
    /// An empty point set.
    pub fn new() -> (m: Matrix)
        ensures
            m.points@.len() == 0,
    {
        Matrix { points: Vec::new() }
    }

    pub fn len(&self) -> (n: usize)
        ensures
            n == self.points@.len(),
    {
        self.points.len()
    }

    /// Drops every point.
    pub fn clear(&mut self)
        ensures
            final(self).points@.len() == 0,
    {
        self.points.clear();
    }

    /// Appends the point `(x, y, z)`.
    pub fn add_point(&mut self, x: i32, y: i32, z: i32)
        ensures
            final(self).points@ == old(self).points@.push(pt(x, y, z)),
    {
        self.points.push(Point { x, y, z });
    }

    /// Appends the two ends of a segment.
    pub fn add_edge(&mut self, x0: i32, y0: i32, z0: i32, x1: i32, y1: i32, z1: i32)
        ensures
            final(self).points@ == old(self).points@ + seq![pt(x0, y0, z0), pt(x1, y1, z1)],
    {
        self.add_point(x0, y0, z0);
        self.add_point(x1, y1, z1);
        assert(final(self).points@ =~= old(self).points@ + seq![pt(x0, y0, z0), pt(x1, y1, z1)]);
    }

    /// Appends the two ends of a segment given in whole pixels.
    pub fn add_edge_int(&mut self, x0: i32, y0: i32, z0: i32, x1: i32, y1: i32, z1: i32)
        ensures
            final(self).points@ == old(self).points@ + seq![pt(x0, y0, z0), pt(x1, y1, z1)],
    {
        self.add_edge(x0, y0, z0, x1, y1, z1);
    }

    /// Appends the three corners of a triangle, in the order given.
    pub fn add_polygon(
        &mut self,
        x0: i32,
        y0: i32,
        z0: i32,
        x1: i32,
        y1: i32,
        z1: i32,
        x2: i32,
        y2: i32,
        z2: i32,
    )
        ensures
            final(self).points@ == old(self).points@ + seq![
                pt(x0, y0, z0),
                pt(x1, y1, z1),
                pt(x2, y2, z2),
            ],
    {
        self.add_point(x0, y0, z0);
        self.add_point(x1, y1, z1);
        self.add_point(x2, y2, z2);
        assert(final(self).points@ =~= old(self).points@ + seq![
            pt(x0, y0, z0),
            pt(x1, y1, z1),
            pt(x2, y2, z2),
        ]);
    }

    /// Appends the twelve triangles of the box whose upper-left-front corner is
    /// `(x, y, z)`: it extends `width` along +x, `height` along -y and `depth`
    /// along -z.
    pub fn add_box(&mut self, x: i32, y: i32, z: i32, width: i32, height: i32, depth: i32)
        requires
            box_fits(x, y, z, width, height, depth),
        ensures
            final(self).points@ == old(self).points@ + box_faces(x, y, z, width, height, depth),
    {
        let x1: i32 = x + width;
        let y1: i32 = y - height;
        let z1: i32 = z - depth;
        self.add_polygon(x1, y1, z, x1, y, z, x, y, z);
        self.add_polygon(x1, y1, z, x, y, z, x, y1, z);
        self.add_polygon(x, y1, z, x, y, z, x, y, z1);
        self.add_polygon(x, y1, z, x, y, z1, x, y1, z1);
        self.add_polygon(x, y1, z1, x1, y, z1, x, y, z1);
        self.add_polygon(x, y1, z1, x1, y1, z1, x1, y, z1);
        self.add_polygon(x1, y, z1, x1, y1, z1, x1, y1, z);
        self.add_polygon(x1, y, z1, x1, y1, z, x1, y, z);
        self.add_polygon(x, y, z, x1, y, z1, x, y, z1);
        self.add_polygon(x, y, z, x1, y, z, x1, y, z1);
        self.add_polygon(x, y1, z, x1, y1, z1, x, y1, z1);
        self.add_polygon(x, y1, z, x1, y1, z, x1, y1, z1);
        assert(final(self).points@ =~= old(self).points@ + box_faces(x, y, z, width, height, depth));
    }

    /// Appends the twelve edges of the same box, as `box_edge` orders them.
    pub fn add_box_edges(&mut self, x: i32, y: i32, z: i32, width: i32, height: i32, depth: i32)
        requires
            box_fits(x, y, z, width, height, depth),
        ensures
            final(self).points@ == old(self).points@ + box_edges(x, y, z, width, height, depth),
    {
        let x1: i32 = x + width;
        let y1: i32 = y - height;
        let z1: i32 = z - depth;
        self.add_edge(x, y, z, x1, y, z);
        self.add_edge(x1, y, z, x1, y1, z);
        self.add_edge(x1, y1, z, x, y1, z);
        self.add_edge(x, y1, z, x, y, z);
        self.add_edge(x, y, z1, x1, y, z1);
        self.add_edge(x1, y, z1, x1, y1, z1);
        self.add_edge(x1, y1, z1, x, y1, z1);
        self.add_edge(x, y1, z1, x, y, z1);
        self.add_edge(x, y, z, x, y, z1);
        self.add_edge(x1, y, z, x1, y, z1);
        self.add_edge(x1, y1, z, x1, y1, z1);
        self.add_edge(x, y1, z, x, y1, z1);
        let ghost e = box_edges(x, y, z, width, height, depth);
        assert forall|i: int| 0 <= i < 24 implies #[trigger] e[i] == final(self).points@[old(self).points@.len() + i] by {
            assert(i / 2 < 12);
        }
        assert(final(self).points@ =~= old(self).points@ + e);
    }
}

} // verus!
