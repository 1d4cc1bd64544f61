use wireframe::color::Color;
use wireframe::geometry::Trig;
use wireframe::interpreter::{Action, Interpreter};
use wireframe::lexer::{parse_fixed, split_tokens};
use wireframe::script::{parse_command, Command, ErrorKind, ScriptError};

fn trig() -> Trig {
    let mut c = Vec::new();
    let mut s = Vec::new();
    for k in 0..3600 {
        let a = (k as f64) * std::f64::consts::PI / 1800.0;
        c.push((a.cos() * 10000.0).round() as i32);
        s.push((a.sin() * 10000.0).round() as i32);
    }
    Trig::from_tables(c, s).unwrap()
}

fn lines(text: &str) -> Vec<Vec<u8>> {
    text.split('\n').map(|l| l.as_bytes().to_vec()).collect()
}

fn lit(st: &Interpreter, x: usize, y: usize) -> bool {
    let c = st.screen.pixels[y * st.screen.width + x];
    c.r != 0 || c.g != 0 || c.b != 0
}

fn count_lit(st: &Interpreter) -> usize {
    st.screen.pixels.iter().filter(|c| c.r != 0 || c.g != 0 || c.b != 0).count()
}

fn fresh() -> Interpreter {
    Interpreter::new(200, 200, Color::new_color(0, 255, 0), trig())
}

#[test]
fn fixed_literals() {
    assert_eq!(parse_fixed(&b"12".to_vec()), Some(120000));
    assert_eq!(parse_fixed(&b"12.5".to_vec()), Some(125000));
    assert_eq!(parse_fixed(&b"-0.25".to_vec()), Some(-2500));
    assert_eq!(parse_fixed(&b"1.23456".to_vec()), Some(12345));
    assert_eq!(parse_fixed(&b"abc".to_vec()), None);
    assert_eq!(parse_fixed(&b"1.".to_vec()), Some(10000));
    assert_eq!(parse_fixed(&b".5".to_vec()), Some(5000));
    assert_eq!(parse_fixed(&b"+5".to_vec()), Some(50000));
    assert_eq!(parse_fixed(&b"-.25".to_vec()), Some(-2500));
    assert_eq!(parse_fixed(&b".".to_vec()), None);
    assert_eq!(parse_fixed(&b"1.2.3".to_vec()), None);
    assert_eq!(parse_fixed(&b"".to_vec()), None);
    assert_eq!(parse_fixed(&b"-".to_vec()), None);
    assert_eq!(parse_fixed(&b"1234567890".to_vec()), None);
}

#[test]
fn tokens_split_on_each_space() {
    let t = split_tokens(&b"a b  c".to_vec());
    assert_eq!(t, vec![b"a".to_vec(), b"b".to_vec(), b"".to_vec(), b"c".to_vec()]);
    assert_eq!(split_tokens(&Vec::new()), vec![Vec::<u8>::new()]);
}

#[test]
fn parse_line_command() {
    let l = lines("line\n0 0 0 100 100.4 0.5");
    assert_eq!(parse_command(&l, 0), Ok((Command::Line(0, 0, 0, 100, 100, 1), 2)));
}

#[test]
fn parse_simple_commands() {
    let l = lines("ident\napply\ndisplay\nclear\nquit\n# a note\nsave\nout.ppm");
    assert_eq!(parse_command(&l, 0), Ok((Command::Ident, 1)));
    assert_eq!(parse_command(&l, 1), Ok((Command::Apply, 2)));
    assert_eq!(parse_command(&l, 2), Ok((Command::Display, 3)));
    assert_eq!(parse_command(&l, 3), Ok((Command::Clear, 4)));
    assert_eq!(parse_command(&l, 4), Ok((Command::Quit, 5)));
    assert_eq!(parse_command(&l, 5), Ok((Command::Comment, 6)));
    assert_eq!(parse_command(&l, 6), Ok((Command::Save(7), 8)));
}

#[test]
fn parse_transforms() {
    let l = lines("scale\n2 0.5 1\nmove\n1 -2 3\nrotate\ny 90\nrotate\nz -90");
    assert_eq!(parse_command(&l, 0), Ok((Command::Scale(20000, 5000, 10000), 2)));
    assert_eq!(parse_command(&l, 2), Ok((Command::Translate(10000, -20000, 30000), 4)));
    assert_eq!(parse_command(&l, 4), Ok((Command::Rotate(1, 900), 6)));
    assert_eq!(parse_command(&l, 6), Ok((Command::Rotate(2, 2700), 8)));
}

#[test]
fn parse_errors() {
    let l = lines("frobnicate");
    assert_eq!(parse_command(&l, 0), Err(ScriptError { line: 1, kind: ErrorKind::UnknownCommand }));
    let l = lines("line");
    assert_eq!(parse_command(&l, 0), Err(ScriptError { line: 1, kind: ErrorKind::MissingArguments }));
    let l = lines("circle\n1 2 3");
    assert_eq!(parse_command(&l, 0), Err(ScriptError { line: 2, kind: ErrorKind::WrongArgCount }));
    let l = lines("box\n1 2 3 x 5 6");
    assert_eq!(parse_command(&l, 0), Err(ScriptError { line: 2, kind: ErrorKind::BadNumber }));
    let l = lines("sphere\n0 0 0 99999999");
    assert_eq!(parse_command(&l, 0), Err(ScriptError { line: 2, kind: ErrorKind::OutOfRange }));
    let l = lines("rotate\nx abc");
    assert_eq!(parse_command(&l, 0), Err(ScriptError { line: 2, kind: ErrorKind::BadNumber }));
}

#[test]
fn rotate_with_bad_axis_fails() {
    let l = lines("rotate\nq 45");
    assert_eq!(parse_command(&l, 0), Err(ScriptError { line: 2, kind: ErrorKind::BadAxis }));
    let mut st = fresh();
    assert_eq!(st.run(&l, 0), Err(ScriptError { line: 2, kind: ErrorKind::BadAxis }));
}

#[test]
fn apply_overflow_leaves_buffers() {
    let l = lines("line
1 2 3 4 5 6
ident
scale
100000 1 1
apply");
    let mut st = fresh();
    assert_eq!(st.run(&l, 0), Ok((Action::Quit, 6)));
    let l = lines("line
30000000 0 0 0 0 0
ident
scale
100 1 1
apply");
    let mut st = fresh();
    assert_eq!(st.run(&l, 0), Err(ScriptError { line: 6, kind: ErrorKind::Overflow }));
    let p = st.edges.points[0];
    assert_eq!((p.x, p.y, p.z), (30000000, 0, 0));
}

#[test]
fn comments_and_state_across_runs() {
    let l = lines("# a comment
ident
translate
5 0 0
line
0 0 0 1 0 0
apply
apply
quit");
    let mut st = fresh();
    assert_eq!(st.run(&l, 0), Ok((Action::Quit, 9)));
    let p = st.edges.points[1];
    assert_eq!((p.x, p.y, p.z), (11, 0, 0));
    let l = lines("line
0 0 0 1 1 1 1");
    assert_eq!(fresh().run(&l, 0), Err(ScriptError { line: 2, kind: ErrorKind::WrongArgCount }));
}

#[test]
fn diagonal_script_stops_at_quit() {
    let l = lines("line\n0 0 0 100 100 0\ndisplay\nquit\nline\n0 5 0 100 5 0\ndisplay");
    let mut st = fresh();
    assert_eq!(st.run(&l, 0), Ok((Action::Display, 3)));
    for k in 0..=100 {
        assert!(lit(&st, k, k));
    }
    assert_eq!(count_lit(&st), 101);
    assert!(!lit(&st, 1, 0));
    assert_eq!(st.run(&l, 3), Ok((Action::Quit, 4)));
    assert_eq!(st.edges.len(), 2);
}

#[test]
fn box_script_saves_wireframe() {
    let l = lines("box\n0 0 0 10 10 10\nsave\nout.img\n");
    let mut st = fresh();
    assert_eq!(st.run(&l, 0), Ok((Action::Save(3), 4)));
    assert_eq!(l[3], b"out.img".to_vec());
    assert_eq!(st.edges.len(), 24);
    // front and back faces coincide in x-y: the square from (0,-10) to (10,0),
    // of which only the row y = 0 is inside the framebuffer
    for x in 0..=10 {
        assert!(lit(&st, x, 0));
    }
    assert_eq!(count_lit(&st), 11);
    assert_eq!(st.run(&l, 4), Err(ScriptError { line: 5, kind: ErrorKind::UnknownCommand }));
}

#[test]
fn box_script_inside_the_frame() {
    let l = lines("box\n20 40 0 10 10 10\ndisplay");
    let mut st = fresh();
    assert_eq!(st.run(&l, 0), Ok((Action::Display, 3)));
    assert_eq!(count_lit(&st), 40);
    assert!(lit(&st, 20, 30) && lit(&st, 30, 40) && lit(&st, 25, 30) && lit(&st, 30, 35));
}

#[test]
fn script_composes_transforms_in_order() {
    let l = lines("ident\nscale\n2 2 2\ntranslate\n1 0 0\nline\n0 0 0 0 0 0\napply\nquit");
    let mut st = fresh();
    assert_eq!(st.run(&l, 0), Ok((Action::Quit, 9)));
    let p = st.edges.points[0];
    assert_eq!((p.x, p.y, p.z), (1, 0, 0));
    let l = lines("ident\ntranslate\n1 0 0\nscale\n2 2 2\nline\n0 0 0 0 0 0\napply\nquit");
    let mut st = fresh();
    assert_eq!(st.run(&l, 0), Ok((Action::Quit, 9)));
    let p = st.edges.points[0];
    assert_eq!((p.x, p.y, p.z), (2, 0, 0));
}

#[test]
fn step_reports_range_and_overflow() {
    let mut st = fresh();
    assert_eq!(st.step(Command::Sphere(0, 0, 0, i32::MAX)), Err(ErrorKind::OutOfRange));
    assert_eq!(st.step(Command::Ident), Ok(Action::Continue));
    assert_eq!(st.step(Command::Scale(i32::MAX, 1, 1)), Ok(Action::Continue));
    assert_eq!(st.step(Command::Scale(i32::MAX, 1, 1)), Err(ErrorKind::Overflow));
    assert_eq!(st.step(Command::Rotate(5, 0)), Err(ErrorKind::OutOfRange));
}

#[test]
fn clear_and_end_of_script() {
    let l = lines("line\n1 1 0 5 5 0\nclear\n# done");
    let mut st = fresh();
    assert_eq!(st.run(&l, 0), Ok((Action::Quit, 4)));
    assert_eq!(st.edges.len(), 0);
}

#[test]
fn shapes_from_script() {
    let l = lines("circle\n100 100 0 50\nhermite\n0 0 100 100 10 10 10 10\nbezier\n0 0 0 100 100 100 100 0\nsphere\n100 100 0 40\ntorus\n100 100 0 5 40\ndisplay");
    let mut st = fresh();
    assert_eq!(st.run(&l, 0), Ok((Action::Display, 11)));
    assert_eq!(st.edges.len(), 198 + 198 + 198 + 800 + 800);
    assert!(lit(&st, 150, 100));
    assert!(lit(&st, 0, 0));
}
