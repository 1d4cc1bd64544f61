use crate::color::Color;
use crate::draw::{edges_pixels, polygons_pixels};
use crate::geometry::{
    LIMIT, Trig, circle_samples, curve_coefs, curve_samples, dots, in_limit, polyline,
    sphere_points, torus_points,
};
use crate::image::{Image, paint};
use crate::matrix::{Matrix, Point, box_edges, pt};
use crate::script::{Command, ErrorKind, ScriptError, command_at, lines_view, parse_command};
use crate::transform::{
    Transform, apply_points, identity_entries, points_fit, product_entry, product_fits,
    rotation_entries, scale_entries, translate_entries, product_seq,
};
use vstd::prelude::*;

verus! {

/// Segments drawn round a circle.
pub const CIRCLE_STEPS: usize = 100;

/// Segments drawn along a curve.
pub const CURVE_STEPS: usize = 100;

/// Subdivisions of a sphere's or a torus's lattice in each direction.
pub const SURFACE_STEPS: usize = 20;

/// What the host does after a command.
#[derive(Clone, Copy, Debug, PartialEq, Eq, Structural)]
pub enum Action {
    /// Nothing: go on with the next command.
    Continue,
    /// Show the framebuffer.
    Display,
    /// Write the framebuffer to the file named on the given (0-based) line.
    Save(usize),
    /// Stop.
    Quit,
}

/// The state of a running script: an edge buffer, a polygon buffer, the
/// running transform, the drawing colour, the framebuffer and a trig table.
pub struct Interpreter {
    pub edges: Matrix,
    pub polygons: Matrix,
    pub transform: Transform,
    pub color: Color,
    pub screen: Image,
    pub trig: Trig,
}

/// Whether the values of a command are within the generators' bounds.
pub open spec fn command_in_range(c: Command) -> bool {
    match c {
        Command::Line(a, b, d, e, f, g) => in_limit(a as int) && in_limit(b as int) && in_limit(d as int)
            && in_limit(e as int) && in_limit(f as int) && in_limit(g as int),
        Command::Circle(a, b, d, r) => in_limit(a as int) && in_limit(b as int) && in_limit(d as int)
            && in_limit(r as int),
        Command::Curve(_, a, b, d, e, f, g, h, k) => in_limit(a as int) && in_limit(b as int) && in_limit(
            d as int,
        ) && in_limit(e as int) && in_limit(f as int) && in_limit(g as int) && in_limit(h as int)
            && in_limit(k as int),
        Command::Box(a, b, d, e, f, g) => in_limit(a as int) && in_limit(b as int) && in_limit(d as int)
            && in_limit(e as int) && in_limit(f as int) && in_limit(g as int),
        Command::Sphere(a, b, d, r) => in_limit(a as int) && in_limit(b as int) && in_limit(d as int)
            && in_limit(r as int),
        Command::Torus(a, b, d, r1, r2) => in_limit(a as int) && in_limit(b as int) && in_limit(d as int)
            && in_limit(r1 as int) && in_limit(r2 as int),
        Command::Rotate(axis, k) => axis < 3 && k < 3600,
        _ => true,
    }
}

/// The points a geometry command appends to the edge buffer.
pub open spec fn appended(t: &Trig, c: Command) -> Seq<crate::matrix::Point> {
    match c {
        Command::Line(x0, y0, z0, x1, y1, z1) => seq![pt(x0, y0, z0), pt(x1, y1, z1)],
        Command::Circle(cx, cy, cz, r) => polyline(
            circle_samples(t, cx as int, cy as int, cz as int, r as int, CIRCLE_STEPS as int),
        ),
        Command::Curve(kind, x0, y0, x1, y1, x2, y2, x3, y3) => polyline(
            curve_samples(
                curve_coefs(x0 as int, x1 as int, x2 as int, x3 as int, kind),
                curve_coefs(y0 as int, y1 as int, y2 as int, y3 as int, kind),
                CURVE_STEPS as int,
            ),
        ),
        Command::Box(x, y, z, w, h, d) => box_edges(x, y, z, w, h, d),
        Command::Sphere(cx, cy, cz, r) => dots(
            sphere_points(t, cx as int, cy as int, cz as int, r as int, SURFACE_STEPS as int),
        ),
        Command::Torus(cx, cy, cz, r1, r2) => dots(
            torus_points(t, cx as int, cy as int, cz as int, r1 as int, r2 as int, SURFACE_STEPS as int),
        ),
        _ => Seq::empty(),
    }
}

pub open spec fn is_geometry(c: Command) -> bool {
    c is Line || c is Circle || c is Curve || c is Box || c is Sphere || c is Torus
}

/// The fixed-point matrix of a transform command.
pub open spec fn transform_of(t: &Trig, c: Command) -> Seq<i32> {
    match c {
        Command::Scale(a, b, d) => scale_entries(a, b, d),
        Command::Translate(a, b, d) => translate_entries(a, b, d),
        Command::Rotate(axis, k) => rotation_entries(axis as int, t.cos@[k as int], t.sin@[k as int]),
        _ => Seq::empty(),
    }
}

pub open spec fn is_transform(c: Command) -> bool {
    c is Scale || c is Translate || c is Rotate
}

/// What the commands read and change: both buffers, the running transform
/// and the framebuffer's pixels.
pub struct SceneView {
    pub edges: Seq<Point>,
    pub polygons: Seq<Point>,
    pub transform: Seq<i32>,
    pub pixels: Seq<Color>,
}

/// The framebuffer after clearing it and drawing both buffers in `color`.
pub open spec fn rendered(s: SceneView, width: int, color: Color) -> Seq<Color> {
    let bg = Seq::new(s.pixels.len(), |i: int| Color::background());
    paint(
        paint(bg, width, edges_pixels(s.edges, (s.edges.len() / 2) as nat), color),
        width,
        polygons_pixels(s.polygons, (s.polygons.len() / 3) as nat),
        color,
    )
}

/// The state after command `c` and the action it asks of the host, or its
/// error; `t` is the trig table, `width` the framebuffer's row length and
/// `color` the drawing colour.
#[verifier::opaque]
pub open spec fn step_spec(t: &Trig, width: int, color: Color, s: SceneView, c: Command) -> Result<(SceneView, Action), ErrorKind> {
    if !command_in_range(c) {
        Err(ErrorKind::OutOfRange)
    } else if is_geometry(c) {
        Ok((SceneView { edges: s.edges + appended(t, c), polygons: s.polygons, transform: s.transform, pixels: s.pixels }, Action::Continue))
    } else if is_transform(c) {
        if product_fits(transform_of(t, c), s.transform) {
            Ok((SceneView { edges: s.edges, polygons: s.polygons, transform: product_seq(transform_of(t, c), s.transform), pixels: s.pixels }, Action::Continue))
        } else {
            Err(ErrorKind::Overflow)
        }
    } else {
        match c {
            Command::Ident => Ok((SceneView { edges: s.edges, polygons: s.polygons, transform: identity_entries(), pixels: s.pixels }, Action::Continue)),
            Command::Apply => if points_fit(s.transform, s.edges) && points_fit(s.transform, s.polygons) {
                Ok((SceneView {
                    edges: apply_points(s.transform, s.edges),
                    polygons: apply_points(s.transform, s.polygons),
                    transform: s.transform,
                    pixels: s.pixels,
                }, Action::Continue))
            } else {
                Err(ErrorKind::Overflow)
            },
            Command::Display => Ok((SceneView { edges: s.edges, polygons: s.polygons, transform: s.transform, pixels: rendered(s, width, color) }, Action::Display)),
            Command::Save(k) => Ok((SceneView { edges: s.edges, polygons: s.polygons, transform: s.transform, pixels: rendered(s, width, color) }, Action::Save(k))),
            Command::Clear => Ok((SceneView { edges: Seq::empty(), polygons: Seq::empty(), transform: s.transform, pixels: s.pixels }, Action::Continue)),
            Command::Quit => Ok((s, Action::Quit)),
            _ => Ok((s, Action::Continue)),
        }
    }
}

/// The outcome of running a script from line `i` in state `s`: commands are
/// parsed and carried out one by one until one asks the host to act (display,
/// save or quit), giving the state, the action and the index of the next
/// line; the end of the script counts as quitting. The first command that
/// fails to parse, or fails, gives its error and the state before it.
pub open spec fn run_spec(lines: Seq<Seq<u8>>, i: int, t: &Trig, width: int, color: Color, s: SceneView) -> Result<(SceneView, Action, int), (SceneView, ScriptError)>
    decreases lines.len() - i,
{
    if i < 0 || i >= lines.len() {
        Ok((s, Action::Quit, i))
    } else {
        match command_at(lines, i) {
            Err(e) => Err((s, e)),
            Ok((c, n)) => match step_spec(t, width, color, s, c) {
                Err(k) => Err((s, ScriptError { line: (i + 1) as usize, kind: k })),
                Ok((s2, a)) => if a == Action::Continue && n > i {
                    run_spec(lines, n, t, width, color, s2)
                } else {
                    Ok((s2, a, n))
                },
            },
        }
    }
}

pub open spec fn step_outcome(r: Result<Action, ErrorKind>, v: SceneView) -> Result<(SceneView, Action), ErrorKind> {
    match r {
        Ok(a) => Ok((v, a)),
        Err(k) => Err(k),
    }
}

pub open spec fn run_outcome(r: Result<(Action, usize), ScriptError>, v: SceneView) -> Result<(SceneView, Action, int), (SceneView, ScriptError)> {
    match r {
        Ok((a, n)) => Ok((v, a, n as int)),
        Err(e) => Err((v, e)),
    }
}

fn in_range4(a: i32, b: i32, c: i32, d: i32) -> (r: bool)
    ensures
        r == (in_limit(a as int) && in_limit(b as int) && in_limit(c as int) && in_limit(d as int)),
{
    let lo: i32 = -LIMIT;
    lo <= a && a <= LIMIT && lo <= b && b <= LIMIT && lo <= c && c <= LIMIT && lo <= d && d <= LIMIT
}

fn in_range6(a: i32, b: i32, c: i32, d: i32, e: i32, f: i32) -> (r: bool)
    ensures
        r == (in_limit(a as int) && in_limit(b as int) && in_limit(c as int) && in_limit(d as int)
            && in_limit(e as int) && in_limit(f as int)),
{
    let lo: i32 = -LIMIT;
    in_range4(a, b, c, d) && lo <= e && e <= LIMIT && lo <= f && f <= LIMIT
}

/// A command that parses ends after its own line and at most one more.
proof fn lemma_command_advances(lines: Seq<Seq<u8>>, i: int)
    requires
        0 <= i < lines.len(),
    ensures
        command_at(lines, i) matches Ok((c, n)) ==> i < n <= lines.len(),
{
}

impl Interpreter {
    pub open spec fn view(&self) -> SceneView {
        SceneView {
            edges: self.edges.points@,
            polygons: self.polygons.points@,
            transform: self.transform.m@,
            pixels: self.screen.pixels@,
        }
    }

    pub open spec fn wf(&self) -> bool {
        &&& self.transform.wf()
        &&& self.screen.wf()
        &&& self.trig.wf()
        &&& self.edges.points@.len() % 2 == 0
        &&& self.polygons.points@.len() % 3 == 0
    }

    /// A fresh state: empty buffers, an all-zero transform (a script sets it
    /// with `ident`) and a `width` by `height` framebuffer.
    pub fn new(width: usize, height: usize, color: Color, trig: Trig) -> (s: Interpreter)
        requires
            trig.wf(),
            width * height <= usize::MAX,
        ensures
            s.wf(),
            s.edges.points@.len() == 0,
            s.polygons.points@.len() == 0,
            s.transform.m@ == Seq::new(12, |i: int| 0i32),
            s.color == color,
            s.screen.width == width,
            s.screen.height == height,
            s.trig == trig,
    {
        let t = Transform { m: vec![0, 0, 0, 0, 0, 0, 0, 0, 0, 0, 0, 0] };
        assert(t.m@ =~= Seq::new(12, |i: int| 0i32));
        Interpreter {
            edges: Matrix::new(),
            polygons: Matrix::new(),
            transform: t,
            color,
            screen: Image::new(width, height),
            trig,
        }
    }

    /// Sets the running transform to `next × transform`, or fails with
    /// `Overflow` leaving it as it was.
    fn compose(&mut self, next: &Transform) -> (r: Result<Action, ErrorKind>)
        requires
            old(self).wf(),
            next.wf(),
        ensures
            final(self).wf(),
            final(self).edges == old(self).edges,
            final(self).polygons == old(self).polygons,
            final(self).color == old(self).color,
            final(self).screen == old(self).screen,
            final(self).trig == old(self).trig,
            product_fits(next.m@, old(self).transform.m@) <==> r is Ok,
            r is Ok ==> final(self).transform.m@ == product_seq(next.m@, old(self).transform.m@),
            r is Ok ==> r == Ok::<Action, ErrorKind>(Action::Continue) && forall|i: int|
                0 <= i < 12 ==> final(self).transform.m@[i] == product_entry(
                    next.m@,
                    old(self).transform.m@,
                    i / 4,
                    i % 4,
                ),
            r is Err ==> r == Err::<Action, ErrorKind>(ErrorKind::Overflow) && final(self).transform == old(self).transform,
    {
        match next.multiply(&self.transform) {
            Some(t) => {
                self.transform = t;
                Ok(Action::Continue)
            },
            None => Err(ErrorKind::Overflow),
        }
    }

    /// Clears the framebuffer and draws both buffers into it.
    fn render(&mut self)
        requires
            old(self).wf(),
        ensures
            final(self).wf(),
            final(self).edges == old(self).edges,
            final(self).polygons == old(self).polygons,
            final(self).transform == old(self).transform,
            final(self).color == old(self).color,
            final(self).trig == old(self).trig,
            final(self).screen.width == old(self).screen.width,
            final(self).screen.height == old(self).screen.height,
            final(self).screen.pixels@ == rendered(old(self).view(), old(self).screen.width as int, old(self).color),
    {
        self.screen.clear();
        let ghost bg = Seq::new(self.screen.pixels@.len(), |i: int| Color::background());
        assert(self.screen.pixels@ =~= bg);
        self.screen.draw_lines(&self.edges, self.color);
        self.screen.draw_polygons(&self.polygons, self.color);
    }

    /// Carries out one command, as `step_spec` describes; on an error the
    /// state is left as it was.
    pub fn step(&mut self, cmd: Command) -> (r: Result<Action, ErrorKind>)
        requires
            old(self).wf(),
        ensures
            final(self).wf(),
            final(self).trig == old(self).trig,
            final(self).color == old(self).color,
            final(self).screen.width == old(self).screen.width,
            final(self).screen.height == old(self).screen.height,
            step_outcome(r, final(self).view()) == step_spec(
                &old(self).trig,
                old(self).screen.width as int,
                old(self).color,
                old(self).view(),
                cmd,
            ),
            r is Err ==> final(self).view() == old(self).view(),
    {
        reveal(step_spec);
        let lo: i32 = -LIMIT;
        match cmd {
            Command::Line(x0, y0, z0, x1, y1, z1) => {
                if !(in_range6(x0, y0, z0, x1, y1, z1)) {
                    return Err(ErrorKind::OutOfRange);
                }
                self.edges.add_edge(x0, y0, z0, x1, y1, z1);
                Ok(Action::Continue)
            },
            Command::Circle(cx, cy, cz, rad) => {
                if !(in_range4(cx, cy, cz, rad)) {
                    return Err(ErrorKind::OutOfRange);
                }
                self.edges.add_circle(cx, cy, cz, rad, CIRCLE_STEPS, &self.trig);
                Ok(Action::Continue)
            },
            Command::Curve(kind, x0, y0, x1, y1, x2, y2, x3, y3) => {
                if !(in_range4(x0, y0, x1, y1) && in_range4(x2, y2, x3, y3)) {
                    return Err(ErrorKind::OutOfRange);
                }
                self.edges.add_curve(x0, y0, x1, y1, x2, y2, x3, y3, CURVE_STEPS, kind);
                Ok(Action::Continue)
            },
            Command::Box(x, y, z, w, h, d) => {
                if !(in_range6(x, y, z, w, h, d)) {
                    return Err(ErrorKind::OutOfRange);
                }
                self.edges.add_box_edges(x, y, z, w, h, d);
                Ok(Action::Continue)
            },
            Command::Sphere(cx, cy, cz, rad) => {
                if !(in_range4(cx, cy, cz, rad)) {
                    return Err(ErrorKind::OutOfRange);
                }
                self.edges.add_sphere_dots(cx, cy, cz, rad, SURFACE_STEPS, &self.trig);
                Ok(Action::Continue)
            },
            Command::Torus(cx, cy, cz, r1, r2) => {
                if !(in_range4(cx, cy, cz, r1) && lo <= r2 && r2 <= LIMIT) {
                    return Err(ErrorKind::OutOfRange);
                }
                self.edges.add_torus(cx, cy, cz, r1, r2, SURFACE_STEPS, &self.trig);
                Ok(Action::Continue)
            },
            Command::Ident => {
                self.transform = Transform::identity();
                Ok(Action::Continue)
            },
            Command::Scale(a, b, c) => {
                let t = Transform::make_scale(a, b, c);
                self.compose(&t)
            },
            Command::Translate(a, b, c) => {
                let t = Transform::make_translate(a, b, c);
                self.compose(&t)
            },
            Command::Rotate(axis, k) => {
                if axis >= 3 || k >= 3600 {
                    return Err(ErrorKind::OutOfRange);
                }
                let i: usize = k as usize;
                let c: i32 = self.trig.cos[i];
                let s: i32 = self.trig.sin[i];
                let t = Transform::make_rotation(axis, c, s);
                self.compose(&t)
            },
            Command::Apply => {
                let e = match self.edges.transformed(&self.transform) {
                    Some(e) => e,
                    None => {
                        return Err(ErrorKind::Overflow);
                    },
                };
                let p = match self.polygons.transformed(&self.transform) {
                    Some(p) => p,
                    None => {
                        return Err(ErrorKind::Overflow);
                    },
                };
                self.edges = Matrix { points: e };
                self.polygons = Matrix { points: p };
                Ok(Action::Continue)
            },
            Command::Display => {
                self.render();
                Ok(Action::Display)
            },
            Command::Save(k) => {
                self.render();
                Ok(Action::Save(k))
            },
            Command::Clear => {
                self.edges.clear();
                self.polygons.clear();
                assert(self.edges.points@ =~= Seq::<Point>::empty());
                assert(self.polygons.points@ =~= Seq::<Point>::empty());
                Ok(Action::Continue)
            },
            Command::Quit => Ok(Action::Quit),
            Command::Comment => Ok(Action::Continue),
        }
    }

    /// Runs the script from line `start` (0-based) as `run_spec` describes:
    /// until a command asks the host to act (display, save or quit) or the
    /// script ends, which counts as quitting. Returns the action with the index
    /// of the line after the command that asked for it, or the first error.
    pub fn run(&mut self, lines: &Vec<Vec<u8>>, start: usize) -> (r: Result<(Action, usize), ScriptError>)
        requires
            old(self).wf(),
        ensures
            final(self).wf(),
            final(self).trig == old(self).trig,
            final(self).color == old(self).color,
            final(self).screen.width == old(self).screen.width,
            final(self).screen.height == old(self).screen.height,
            run_outcome(r, final(self).view()) == run_spec(
                lines_view(lines@),
                start as int,
                &old(self).trig,
                old(self).screen.width as int,
                old(self).color,
                old(self).view(),
            ),
    {
        let ghost lv = lines_view(lines@);
        let ghost want = run_spec(lv, start as int, &old(self).trig, old(self).screen.width as int, old(self).color, old(self).view());
        let n: usize = lines.len();
        let mut i: usize = start;
        while i < n
            invariant
                self.wf(),
                self.trig == old(self).trig,
                self.color == old(self).color,
                self.screen.width == old(self).screen.width,
                self.screen.height == old(self).screen.height,
                n == lines@.len(),
                lv == lines_view(lines@),
                want == run_spec(lv, i as int, &self.trig, self.screen.width as int, self.color, self.view()),
                want == run_spec(lv, start as int, &old(self).trig, old(self).screen.width as int, old(self).color, old(self).view()),
            decreases n - i,
        {
            match parse_command(lines, i) {
                Err(e) => {
                    assert(command_at(lv, i as int) == Err::<(Command, int), ScriptError>(e));
                    assert(run_spec(lv, i as int, &self.trig, self.screen.width as int, self.color, self.view())
                        == Err::<(SceneView, Action, int), (SceneView, ScriptError)>((self.view(), e)));
                    return Err(e);
                },
                Ok((c, next)) => {
                    proof {
                        lemma_command_advances(lv, i as int);
                    }
                    let ghost before = self.view();
                    assert(command_at(lv, i as int) == Ok::<(Command, int), ScriptError>((c, next as int)));
                    match self.step(c) {
                        Ok(Action::Continue) => {
                            assert(step_spec(&self.trig, self.screen.width as int, self.color, before, c)
                                == Ok::<(SceneView, Action), ErrorKind>((self.view(), Action::Continue)));
                            i = next;
                        },
                        Ok(a) => {
                            assert(step_spec(&self.trig, self.screen.width as int, self.color, before, c)
                                == Ok::<(SceneView, Action), ErrorKind>((self.view(), a)));
                            assert(run_spec(lv, i as int, &self.trig, self.screen.width as int, self.color, before)
                                == Ok::<(SceneView, Action, int), (SceneView, ScriptError)>((self.view(), a, next as int)));
                            return Ok((a, next));
                        },
                        Err(k) => {
                            assert(step_spec(&self.trig, self.screen.width as int, self.color, before, c)
                                == Err::<(SceneView, Action), ErrorKind>(k));
                            return Err(ScriptError { line: i + 1, kind: k });
                        },
                    }
                },
            }
        }
        Ok((Action::Quit, i))
    }
}

} // verus!
