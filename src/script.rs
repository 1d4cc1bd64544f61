use crate::geometry::{CurveType, in_limit};
use crate::lexer::{fixed_literal, parse_fixed, split_tokens, tokens, lemma_literal_bound};
use crate::transform::{fits_i32, round_fix};
use vstd::prelude::*;

verus! {

/// What went wrong on a script line.
#[derive(Clone, Copy, Debug, PartialEq, Eq, Structural)]
pub enum ErrorKind {
    /// The line holds no known command.
    UnknownCommand,
    /// A command that takes arguments stands on the last line.
    MissingArguments,
    /// The argument line holds too few or too many values.
    WrongArgCount,
    /// An argument is not a decimal literal.
    BadNumber,
    /// The axis of a rotation is not `x`, `y` or `z`.
    BadAxis,
    /// A value is too large for the geometry it describes.
    OutOfRange,
    /// A transform or a transformed point no longer fits in an `i32`.
    Overflow,
}

/// An error with the (1-based) number of the line it concerns.
#[derive(Clone, Copy, Debug, PartialEq, Eq, Structural)]
pub struct ScriptError {
    pub line: usize,
    pub kind: ErrorKind,
}

/// A parsed script command. Coordinates are whole units; scale and translation
/// factors are in fixed point (see `transform::ONE`); a rotation holds its axis
/// (0, 1, 2 for x, y, z) and its angle in tenths of a degree, in `0..3600`.
#[derive(Clone, Copy, Debug, PartialEq, Eq, Structural)]
pub enum Command {
    Line(i32, i32, i32, i32, i32, i32),
    Circle(i32, i32, i32, i32),
    Curve(CurveType, i32, i32, i32, i32, i32, i32, i32, i32),
    Box(i32, i32, i32, i32, i32, i32),
    Sphere(i32, i32, i32, i32),
    Torus(i32, i32, i32, i32, i32),
    Ident,
    Scale(i32, i32, i32),
    Translate(i32, i32, i32),
    Rotate(u8, u16),
    Apply,
    Display,
    /// Save to the file named on the given (0-based) line.
    Save(usize),
    Clear,
    Quit,
    Comment,
}

/// The command words.
#[derive(Clone, Copy, Debug, PartialEq, Eq, Structural)]
pub enum Op {
    Line,
    Circle,
    Hermite,
    Bezier,
    Box,
    Sphere,
    Torus,
    Ident,
    Scale,
    Translate,
    Rotate,
    Apply,
    Display,
    Save,
    Clear,
    Quit,
}

pub open spec fn op_of(t: Seq<u8>) -> Option<Op> {
    if t == seq![108u8, 105, 110, 101] {
        Some(Op::Line)
    } else if t == seq![99u8, 105, 114, 99, 108, 101] {
        Some(Op::Circle)
    } else if t == seq![104u8, 101, 114, 109, 105, 116, 101] {
        Some(Op::Hermite)
    } else if t == seq![98u8, 101, 122, 105, 101, 114] {
        Some(Op::Bezier)
    } else if t == seq![98u8, 111, 120] {
        Some(Op::Box)
    } else if t == seq![115u8, 112, 104, 101, 114, 101] {
        Some(Op::Sphere)
    } else if t == seq![116u8, 111, 114, 117, 115] {
        Some(Op::Torus)
    } else if t == seq![105u8, 100, 101, 110, 116] {
        Some(Op::Ident)
    } else if t == seq![115u8, 99, 97, 108, 101] {
        Some(Op::Scale)
    } else if t == seq![116u8, 114, 97, 110, 115, 108, 97, 116, 101] || t == seq![109u8, 111, 118, 101] {
        Some(Op::Translate)
    } else if t == seq![114u8, 111, 116, 97, 116, 101] {
        Some(Op::Rotate)
    } else if t == seq![97u8, 112, 112, 108, 121] {
        Some(Op::Apply)
    } else if t == seq![100u8, 105, 115, 112, 108, 97, 121] {
        Some(Op::Display)
    } else if t == seq![115u8, 97, 118, 101] {
        Some(Op::Save)
    } else if t == seq![99u8, 108, 101, 97, 114] {
        Some(Op::Clear)
    } else if t == seq![113u8, 117, 105, 116] {
        Some(Op::Quit)
    } else {
        None
    }
}

/// How many numeric values the argument line of `op` holds; zero for a
/// command without an argument line of numbers.
pub open spec fn arity(op: Op) -> int {
    match op {
        Op::Line => 6,
        Op::Circle => 4,
        Op::Hermite => 8,
        Op::Bezier => 8,
        Op::Box => 6,
        Op::Sphere => 4,
        Op::Torus => 5,
        Op::Scale => 3,
        Op::Translate => 3,
        _ => 0,
    }
}

/// Whether `op` reads the line after it.
pub open spec fn takes_line(op: Op) -> bool {
    arity(op) > 0 || op == Op::Rotate || op == Op::Save
}

/// The values of all the tokens, when each is a decimal literal.
pub open spec fn token_values(ts: Seq<Seq<u8>>) -> Option<Seq<int>> {
    if forall|k: int| 0 <= k < ts.len() ==> (#[trigger] fixed_literal(ts[k])) is Some {
        Some(Seq::new(ts.len(), |k: int| fixed_literal(ts[k])->0))
    } else {
        None
    }
}

/// A fixed-point value as whole units, rounded to nearest.
pub open spec fn whole(v: int) -> int {
    round_fix(v)
}

pub open spec fn all_whole_in_limit(vs: Seq<int>) -> bool {
    forall|k: int| 0 <= k < vs.len() ==> in_limit(#[trigger] whole(vs[k]))
}

pub open spec fn all_fit(vs: Seq<int>) -> bool {
    forall|k: int| 0 <= k < vs.len() ==> fits_i32(#[trigger] vs[k])
}

/// The command that `op` makes of the values on its argument line.
pub open spec fn build(op: Op, vs: Seq<int>) -> Result<Command, ErrorKind> {
    let w = |k: int| whole(vs[k]) as i32;
    let f = |k: int| vs[k] as i32;
    if op == Op::Scale || op == Op::Translate {
        if !all_fit(vs) {
            Err(ErrorKind::OutOfRange)
        } else if op == Op::Scale {
            Ok(Command::Scale(f(0), f(1), f(2)))
        } else {
            Ok(Command::Translate(f(0), f(1), f(2)))
        }
    } else if !all_whole_in_limit(vs) {
        Err(ErrorKind::OutOfRange)
    } else {
        match op {
            Op::Line => Ok(Command::Line(w(0), w(1), w(2), w(3), w(4), w(5))),
            Op::Circle => Ok(Command::Circle(w(0), w(1), w(2), w(3))),
            Op::Hermite => Ok(Command::Curve(CurveType::Hermite, w(0), w(1), w(2), w(3), w(4), w(5), w(6), w(7))),
            Op::Bezier => Ok(Command::Curve(CurveType::Bezier, w(0), w(1), w(2), w(3), w(4), w(5), w(6), w(7))),
            Op::Box => Ok(Command::Box(w(0), w(1), w(2), w(3), w(4), w(5))),
            Op::Sphere => Ok(Command::Sphere(w(0), w(1), w(2), w(3))),
            _ => Ok(Command::Torus(w(0), w(1), w(2), w(3), w(4))),
        }
    }
}

/// An angle in fixed-point degrees as tenths of a degree in `0..3600`,
/// rounded to nearest.
pub open spec fn angle_index(v: int) -> int {
    ((v + 500) / 1000) % 3600
}

/// The axis a token names: 0 for `x`, 1 for `y`, 2 for `z`.
pub open spec fn axis_of(t: Seq<u8>) -> Option<u8> {
    if t == seq![120u8] {
        Some(0u8)
    } else if t == seq![121u8] {
        Some(1u8)
    } else if t == seq![122u8] {
        Some(2u8)
    } else {
        None
    }
}

/// The command of an argument line of `rotate`: an axis, then degrees.
pub open spec fn rotation_of(ts: Seq<Seq<u8>>) -> Result<Command, ErrorKind> {
    if ts.len() != 2 {
        Err(ErrorKind::WrongArgCount)
    } else if axis_of(ts[0]) is None {
        Err(ErrorKind::BadAxis)
    } else if fixed_literal(ts[1]) is None {
        Err(ErrorKind::BadNumber)
    } else {
        Ok(Command::Rotate(axis_of(ts[0])->0, angle_index(fixed_literal(ts[1])->0) as u16))
    }
}

/// The command that starts at line `i` (0-based) of a script, with the index
/// of the line after it; or the error, with the 1-based number of the line
/// that holds it.
pub open spec fn command_at(lines: Seq<Seq<u8>>, i: int) -> Result<(Command, int), ScriptError> {
    let t = lines[i];
    if t.len() > 0 && t[0] == 35 {
        Ok((Command::Comment, i + 1))
    } else if op_of(t) is None {
        Err(ScriptError { line: (i + 1) as usize, kind: ErrorKind::UnknownCommand })
    } else {
        let op = op_of(t)->0;
        if !takes_line(op) {
            Ok((
                match op {
                    Op::Ident => Command::Ident,
                    Op::Apply => Command::Apply,
                    Op::Display => Command::Display,
                    Op::Clear => Command::Clear,
                    _ => Command::Quit,
                },
                i + 1,
            ))
        } else if i + 1 >= lines.len() {
            Err(ScriptError { line: (i + 1) as usize, kind: ErrorKind::MissingArguments })
        } else if op == Op::Save {
            Ok((Command::Save((i + 1) as usize), i + 2))
        } else {
            let ts = tokens(lines[i + 1]);
            let here = (i + 2) as usize;
            let r = if op == Op::Rotate {
                rotation_of(ts)
            } else if ts.len() != arity(op) {
                Err(ErrorKind::WrongArgCount)
            } else if token_values(ts) is None {
                Err(ErrorKind::BadNumber)
            } else {
                build(op, token_values(ts)->0)
            };
            match r {
                Ok(c) => Ok((c, i + 2)),
                Err(k) => Err(ScriptError { line: here, kind: k }),
            }
        }
    }
}

pub open spec fn values_of(v: Seq<i64>) -> Seq<int> {
    Seq::new(v.len(), |k: int| v[k] as int)
}

pub open spec fn lines_view(lines: Seq<Vec<u8>>) -> Seq<Seq<u8>> {
    Seq::new(lines.len(), |i: int| lines[i]@)
}

/// Whether `t` holds exactly the bytes of `w`.
fn same_bytes(t: &Vec<u8>, w: &[u8]) -> (r: bool)
    ensures
        r == (t@ == w@),
{
    if t.len() != w.len() {
        return false;
    }
    let mut k: usize = 0;
    while k < t.len()
        invariant
            t@.len() == w@.len(),
            k <= t@.len(),
            forall|j: int| 0 <= j < k ==> t@[j] == w@[j],
        decreases t@.len() - k,
    {
        if t[k] != w[k] {
            return false;
        }
        k = k + 1;
    }
    assert(t@ =~= w@);
    true
}

fn op_word(t: &Vec<u8>) -> (r: Option<Op>)
    ensures
        r == op_of(t@),
{
    if same_bytes(t, &[108u8, 105, 110, 101]) {
        Some(Op::Line)
    } else if same_bytes(t, &[99u8, 105, 114, 99, 108, 101]) {
        Some(Op::Circle)
    } else if same_bytes(t, &[104u8, 101, 114, 109, 105, 116, 101]) {
        Some(Op::Hermite)
    } else if same_bytes(t, &[98u8, 101, 122, 105, 101, 114]) {
        Some(Op::Bezier)
    } else if same_bytes(t, &[98u8, 111, 120]) {
        Some(Op::Box)
    } else if same_bytes(t, &[115u8, 112, 104, 101, 114, 101]) {
        Some(Op::Sphere)
    } else if same_bytes(t, &[116u8, 111, 114, 117, 115]) {
        Some(Op::Torus)
    } else if same_bytes(t, &[105u8, 100, 101, 110, 116]) {
        Some(Op::Ident)
    } else if same_bytes(t, &[115u8, 99, 97, 108, 101]) {
        Some(Op::Scale)
    } else if same_bytes(t, &[116u8, 114, 97, 110, 115, 108, 97, 116, 101]) || same_bytes(t, &[109u8, 111, 118, 101]) {
        Some(Op::Translate)
    } else if same_bytes(t, &[114u8, 111, 116, 97, 116, 101]) {
        Some(Op::Rotate)
    } else if same_bytes(t, &[97u8, 112, 112, 108, 121]) {
        Some(Op::Apply)
    } else if same_bytes(t, &[100u8, 105, 115, 112, 108, 97, 121]) {
        Some(Op::Display)
    } else if same_bytes(t, &[115u8, 97, 118, 101]) {
        Some(Op::Save)
    } else if same_bytes(t, &[99u8, 108, 101, 97, 114]) {
        Some(Op::Clear)
    } else if same_bytes(t, &[113u8, 117, 105, 116]) {
        Some(Op::Quit)
    } else {
        None
    }
}


/// The values of the tokens, when each is a decimal literal.
fn parse_values(ts: &Vec<Vec<u8>>) -> (r: Option<Vec<i64>>)
    ensures
        r matches Some(v) ==> token_values(lines_view(ts@)) == Some(values_of(v@)),
        r is None ==> token_values(lines_view(ts@)) is None,
{
    let ghost tv = lines_view(ts@);
    let mut out: Vec<i64> = Vec::new();
    let mut k: usize = 0;
    while k < ts.len()
        invariant
            tv == lines_view(ts@),
            k <= ts@.len(),
            out@.len() == k,
            forall|j: int| 0 <= j < k ==> fixed_literal(#[trigger] tv[j]) == Some(out@[j] as int),
        decreases ts@.len() - k,
    {
        match parse_fixed(&ts[k]) {
            Some(v) => {
                out.push(v);
            },
            None => {
                assert(fixed_literal(tv[k as int]) is None);
                return None;
            },
        }
        k = k + 1;
    }
    proof {
        let want = Seq::new(tv.len(), |j: int| fixed_literal(tv[j])->0);
        assert(want =~= values_of(out@));
    }
    Some(out)
}

/// `v / ONE` rounded to nearest, when within `LIMIT`.
fn whole_in_limit(v: i64) -> (r: Option<i32>)
    requires
        -100_000_000_000_000 <= v <= 100_000_000_000_000,
    ensures
        r matches Some(w) ==> in_limit(whole(v as int)) && w == whole(v as int),
        r is None ==> !in_limit(whole(v as int)),
{
    let q: Option<i64> = (v + 5000).checked_div_euclid(10000);
    match q {
        Some(q) => {
            if -0x0200_0000 <= q && q <= 0x0200_0000 {
                Some(q as i32)
            } else {
                None
            }
        },
        None => None,
    }
}

/// The command `op` makes of the values `vs`.
fn build_command(op: Op, vs: &Vec<i64>) -> (r: Result<Command, ErrorKind>)
    requires
        vs@.len() == arity(op),
        arity(op) > 0,
        forall|k: int| 0 <= k < vs@.len() ==> -100_000_000_000_000 <= #[trigger] vs@[k] <= 100_000_000_000_000,
    ensures
        r == build(op, values_of(vs@)),
{
    let ghost vi = values_of(vs@);
    let n: usize = vs.len();
    if op == Op::Scale || op == Op::Translate {
        let mut k: usize = 0;
        while k < n
            invariant
                n == vs@.len(),
                k <= n,
                vi == values_of(vs@),
                op == Op::Scale || op == Op::Translate,
                forall|j: int| 0 <= j < k ==> fits_i32(#[trigger] vi[j]),
            decreases n - k,
        {
            if vs[k] < -0x8000_0000 || vs[k] > 0x7fff_ffff {
                assert(!fits_i32(vi[k as int]));
                assert(!all_fit(vi));
                return Err(ErrorKind::OutOfRange);
            }
            k = k + 1;
        }
        assert(n == 3);
        assert(all_fit(vi));
        let (a, b, c) = (vs[0] as i32, vs[1] as i32, vs[2] as i32);
        if op == Op::Scale {
            return Ok(Command::Scale(a, b, c));
        } else {
            return Ok(Command::Translate(a, b, c));
        }
    }
    let mut w: Vec<i32> = Vec::new();
    let mut k: usize = 0;
    while k < n
        invariant
            n == vs@.len(),
            k <= n,
            w@.len() == k,
            forall|j: int| 0 <= j < n ==> -100_000_000_000_000 <= #[trigger] vs@[j] <= 100_000_000_000_000,
            vi == values_of(vs@),
            op != Op::Scale && op != Op::Translate,
            forall|j: int| 0 <= j < k ==> in_limit(#[trigger] whole(vi[j])) && w@[j] == whole(vi[j]),
        decreases n - k,
    {
        match whole_in_limit(vs[k]) {
            Some(x) => {
                w.push(x);
            },
            None => {
                assert(!in_limit(whole(vi[k as int])));
                return Err(ErrorKind::OutOfRange);
            },
        }
        k = k + 1;
    }
    assert(all_whole_in_limit(vi));
    match op {
        Op::Line => Ok(Command::Line(w[0], w[1], w[2], w[3], w[4], w[5])),
        Op::Circle => Ok(Command::Circle(w[0], w[1], w[2], w[3])),
        Op::Hermite => Ok(Command::Curve(CurveType::Hermite, w[0], w[1], w[2], w[3], w[4], w[5], w[6], w[7])),
        Op::Bezier => Ok(Command::Curve(CurveType::Bezier, w[0], w[1], w[2], w[3], w[4], w[5], w[6], w[7])),
        Op::Box => Ok(Command::Box(w[0], w[1], w[2], w[3], w[4], w[5])),
        Op::Sphere => Ok(Command::Sphere(w[0], w[1], w[2], w[3])),
        _ => Ok(Command::Torus(w[0], w[1], w[2], w[3], w[4])),
    }
}

fn parse_rotation(ts: &Vec<Vec<u8>>) -> (r: Result<Command, ErrorKind>)
    ensures
        r == rotation_of(lines_view(ts@)),
{
    let ghost tv = lines_view(ts@);
    if ts.len() != 2 {
        return Err(ErrorKind::WrongArgCount);
    }
    assert(tv[0] == ts@[0]@ && tv[1] == ts@[1]@);
    let axis: u8;
    let a0 = &ts[0];
    let one: bool = a0.len() == 1;
    if one {
        assert(tv[0] =~= seq![a0@[0]]);
    }
    if one && a0[0] == 120 {
        axis = 0;
    } else if one && a0[0] == 121 {
        axis = 1;
    } else if one && a0[0] == 122 {
        axis = 2;
    } else {
        assert(axis_of(tv[0]) is None);
        return Err(ErrorKind::BadAxis);
    }
    assert(axis_of(tv[0]) == Some(axis));
    match parse_fixed(&ts[1]) {
        Some(v) => {
            proof {
                crate::lexer::lemma_literal_bound(tv[1]);
            }
            let t: Option<i64> = (v + 500).checked_div_euclid(1000);
            let tenths: i64 = match t {
                Some(t) => t,
                None => 0,
            };
            let idx: Option<i64> = tenths.checked_rem_euclid(3600);
            let a: i64 = match idx {
                Some(a) => a,
                None => 0,
            };
            Ok(Command::Rotate(axis, a as u16))
        },
        None => Err(ErrorKind::BadNumber),
    }
}

pub open spec fn parse_result(r: Result<(Command, usize), ScriptError>) -> Result<(Command, int), ScriptError> {
    match r {
        Ok((c, n)) => Ok((c, n as int)),
        Err(e) => Err(e),
    }
}

/// Parses the command that starts at line `i` of a script (one line, or two
/// when it takes an argument line), returning it with the index of the line
/// after it.
pub fn parse_command(lines: &Vec<Vec<u8>>, i: usize) -> (r: Result<(Command, usize), ScriptError>)
    requires
        i < lines@.len(),
    ensures
        parse_result(r) == command_at(lines_view(lines@), i as int),
{
    let ghost lv = lines_view(lines@);
    let n_lines: usize = lines.len();
    let t = &lines[i];
    assert(lv[i as int] == t@);
    if t.len() > 0 && t[0] == 35 {
        return Ok((Command::Comment, i + 1));
    }
    let op = match op_word(t) {
        Some(op) => op,
        None => {
            return Err(ScriptError { line: i + 1, kind: ErrorKind::UnknownCommand });
        },
    };
    match op {
        Op::Ident => {
            return Ok((Command::Ident, i + 1));
        },
        Op::Apply => {
            return Ok((Command::Apply, i + 1));
        },
        Op::Display => {
            return Ok((Command::Display, i + 1));
        },
        Op::Clear => {
            return Ok((Command::Clear, i + 1));
        },
        Op::Quit => {
            return Ok((Command::Quit, i + 1));
        },
        _ => {},
    }
    if i + 1 >= lines.len() {
        return Err(ScriptError { line: i + 1, kind: ErrorKind::MissingArguments });
    }
    if op == Op::Save {
        return Ok((Command::Save(i + 1), i + 2));
    }
    let ts = split_tokens(&lines[i + 1]);
    assert(lv[i + 1] == lines@[i + 1]@);
    assert(lines_view(ts@) =~= tokens(lv[i + 1]));
    let r = if op == Op::Rotate {
        parse_rotation(&ts)
    } else if ts.len() as u64 != arity_of(op) {
        Err(ErrorKind::WrongArgCount)
    } else {
        match parse_values(&ts) {
            None => Err(ErrorKind::BadNumber),
            Some(vs) => {
                proof {
                    assert forall|k: int| 0 <= k < vs@.len() implies -100_000_000_000_000 <= #[trigger] vs@[k] <= 100_000_000_000_000 by {
                        assert(fixed_literal(lines_view(ts@)[k]) == Some(vs@[k] as int));
                        lemma_literal_bound(lines_view(ts@)[k]);
                    }
                }
                build_command(op, &vs)
            },
        }
    };
    match r {
        Ok(c) => Ok((c, i + 2)),
        Err(k) => Err(ScriptError { line: i + 2, kind: k }),
    }
}

fn arity_of(op: Op) -> (n: u64)
    ensures
        n == arity(op),
{
    match op {
        Op::Line => 6,
        Op::Circle => 4,
        Op::Hermite => 8,
        Op::Bezier => 8,
        Op::Box => 6,
        Op::Sphere => 4,
        Op::Torus => 5,
        Op::Scale => 3,
        Op::Translate => 3,
        _ => 0,
    }
}

} // verus!
