use wireframe::geometry::{CurveType, Trig};
use wireframe::matrix::Matrix;
use wireframe::transform::{Transform, ONE};

fn trig() -> Trig {
    let mut c = Vec::new();
    let mut s = Vec::new();
    for k in 0..3600 {
        let a = (k as f64) * std::f64::consts::PI / 1800.0;
        c.push((a.cos() * 10000.0).round() as i32);
        s.push((a.sin() * 10000.0).round() as i32);
    }
    Trig::from_tables(c, s).unwrap()
}

fn xyz(m: &Matrix, i: usize) -> (i32, i32, i32) {
    let p = m.points[i];
    (p.x, p.y, p.z)
}

#[test]
fn trig_table_is_checked() {
    assert!(Trig::from_tables(vec![0; 10], vec![0; 10]).is_none());
    let mut big = vec![0; 3600];
    big[7] = ONE + 1;
    assert!(Trig::from_tables(big, vec![0; 3600]).is_none());
    let good = trig();
    let mut c = good.cos.clone();
    c[100] = 5000;
    assert!(Trig::from_tables(c, good.sin.clone()).is_none());
    assert_eq!((good.cos[0], good.sin[0], good.cos[900], good.sin[900]), (ONE, 0, 0, ONE));
}

#[test]
fn sphere_and_torus_point_counts() {
    let t = trig();
    for step in [1usize, 2, 5, 20] {
        assert_eq!(Matrix::generate_sphere(0, 0, 0, 50, step, &t).len(), step * step);
        assert_eq!(Matrix::generate_torus(0, 0, 0, 5, 20, step, &t).len(), step * step);
    }
}

#[test]
fn sphere_lattice_values() {
    let t = trig();
    let m = Matrix::generate_sphere(100, 100, 0, 50, 4, &t);
    assert_eq!(xyz(&m, 0), (150, 100, 0));
    // phi = 0, theta = 2: a quarter turn round the half circle
    assert_eq!(xyz(&m, 2), (100, 150, 0));
    // phi = 1 (a quarter turn about x), theta = 2
    assert_eq!(xyz(&m, 6), (100, 100, 50));
}

#[test]
fn torus_lattice_values() {
    let t = trig();
    let m = Matrix::generate_torus(0, 0, 0, 5, 20, 4, &t);
    assert_eq!(xyz(&m, 0), (25, 0, 0));
    assert_eq!(xyz(&m, 1), (20, 5, 0));
    assert_eq!(xyz(&m, 4), (0, 0, -25));
}

#[test]
fn torus_and_sphere_as_dots() {
    let t = trig();
    let mut m = Matrix::new();
    m.add_torus(0, 0, 0, 5, 20, 3, &t);
    assert_eq!(m.len(), 18);
    assert_eq!(xyz(&m, 0), xyz(&m, 1));
    let mut s = Matrix::new();
    s.add_sphere_dots(0, 0, 0, 10, 3, &t);
    assert_eq!(s.len(), 18);
}

#[test]
fn sphere_mesh_size() {
    let t = trig();
    let mut m = Matrix::new();
    m.add_sphere(0, 0, 0, 20, 20, &t);
    assert_eq!(m.len(), 6 * 20 * 19 + 3 * 18);
    let lattice = Matrix::generate_sphere(0, 0, 0, 20, 20, &t);
    assert_eq!(xyz(&m, 0), xyz(&lattice, 0));
    assert_eq!(xyz(&m, 1), xyz(&lattice, 1));
    assert_eq!(xyz(&m, 2), xyz(&lattice, 21));
    assert_eq!(xyz(&m, 5), xyz(&lattice, 20));
    // the fan closing the far end starts from the last point of the first ring
    let cap = 6 * 20 * 19;
    assert_eq!(xyz(&m, cap), xyz(&lattice, 19));
    assert_eq!(xyz(&m, cap + 1), xyz(&lattice, 20 + 19));
    assert_eq!(xyz(&m, cap + 2), xyz(&lattice, 40 + 19));
}

#[test]
fn small_steps_give_nothing() {
    let t = trig();
    assert_eq!(Matrix::generate_sphere(0, 0, 0, 50, 0, &t).len(), 0);
    assert_eq!(Matrix::generate_torus(0, 0, 0, 5, 20, 0, &t).len(), 0);
    let mut m = Matrix::new();
    m.add_circle(0, 0, 0, 10, 0, &t);
    m.add_circle(0, 0, 0, 10, 1, &t);
    m.add_curve(0, 0, 1, 1, 2, 2, 3, 3, 0, CurveType::Bezier);
    m.add_curve(0, 0, 1, 1, 2, 2, 3, 3, 1, CurveType::Hermite);
    m.add_sphere(0, 0, 0, 10, 0, &t);
    m.add_sphere(0, 0, 0, 10, 1, &t);
    assert_eq!(m.len(), 0);
}

#[test]
fn large_step_lattice() {
    let t = trig();
    assert_eq!(Matrix::generate_torus(0, 0, 0, 5, 20, 4000, &t).len(), 16_000_000);
}

#[test]
fn circle_quarter_points() {
    let t = trig();
    let mut m = Matrix::new();
    m.add_circle(10, 20, 3, 10, 4, &t);
    assert_eq!(m.len(), 6);
    assert_eq!(xyz(&m, 0), (20, 20, 3));
    assert_eq!(xyz(&m, 1), (10, 30, 3));
    assert_eq!(xyz(&m, 2), (10, 30, 3));
    assert_eq!(xyz(&m, 3), (0, 20, 3));
    assert_eq!(xyz(&m, 5), (10, 10, 3));
}

#[test]
fn curve_coefficients() {
    assert_eq!(wireframe::geometry::generate_curve_coefs(0, 10, 20, 30, CurveType::Bezier), (0, 0, 30, 0));
    assert_eq!(wireframe::geometry::generate_curve_coefs(1, 2, 3, 4, CurveType::Hermite), (5, -7, 3, 1));
}

#[test]
fn bezier_curve_samples() {
    let mut m = Matrix::new();
    m.add_curve(0, 0, 0, 100, 100, 100, 100, 0, 3, CurveType::Bezier);
    assert_eq!(m.len(), 4);
    assert_eq!(xyz(&m, 0), (0, 0, 0));
    assert_eq!(xyz(&m, 1), (50, 75, 0));
    assert_eq!(xyz(&m, 3), (100, 0, 0));
}

#[test]
fn hermite_curve_ends() {
    let mut m = Matrix::new();
    m.add_curve(0, 0, 30, 10, 5, 5, 5, -5, 10, CurveType::Hermite);
    assert_eq!(m.len(), 18);
    assert_eq!(xyz(&m, 0), (0, 0, 0));
    assert_eq!(xyz(&m, 17), (30, 10, 0));
}

#[test]
fn identity_keeps_points() {
    let mut m = Matrix::new();
    m.add_point(3, -4, 5);
    m.add_point(-100, 0, 7);
    assert!(m.multiply_matrixes(&Transform::identity()));
    assert_eq!(xyz(&m, 0), (3, -4, 5));
    assert_eq!(xyz(&m, 1), (-100, 0, 7));
}

#[test]
fn composition_order_matters() {
    let s = Transform::make_scale(2 * ONE, 2 * ONE, 2 * ONE);
    let t = Transform::make_translate(ONE, 0, 0);
    // scale, then translate: the running transform becomes T x S
    let ts = t.multiply(&s).unwrap();
    let mut a = Matrix::new();
    a.add_point(0, 0, 0);
    assert!(a.multiply_matrixes(&ts));
    assert_eq!(xyz(&a, 0), (1, 0, 0));
    // translate, then scale: S x T
    let st = s.multiply(&t).unwrap();
    let mut b = Matrix::new();
    b.add_point(0, 0, 0);
    assert!(b.multiply_matrixes(&st));
    assert_eq!(xyz(&b, 0), (2, 0, 0));
}

#[test]
fn rotation_quarter_turn() {
    let r = Transform::make_rotation(2, 0, ONE);
    let mut m = Matrix::new();
    m.add_point(10, 0, 4);
    assert!(m.multiply_matrixes(&r));
    assert_eq!(xyz(&m, 0), (0, 10, 4));
}

#[test]
fn overflowing_transforms_fail() {
    let big = Transform::make_scale(i32::MAX, 1, 1);
    assert!(big.multiply(&big).is_none());
    let mut m = Matrix::new();
    m.add_point(i32::MAX, 0, 0);
    let two = Transform::make_scale(2 * ONE, ONE, ONE);
    assert!(!m.multiply_matrixes(&two));
    assert_eq!(xyz(&m, 0), (i32::MAX, 0, 0));
}

#[test]
fn translate_by_fraction_rounds() {
    let t = Transform::make_translate(5000, -5000, 2500);
    let mut m = Matrix::new();
    m.add_point(1, 1, 1);
    assert!(m.multiply_matrixes(&t));
    assert_eq!(xyz(&m, 0), (2, 1, 1));
}
