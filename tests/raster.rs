use wireframe::color::Color;
use wireframe::image::Image;
use wireframe::matrix::Matrix;

fn lit(img: &Image, x: usize, y: usize) -> bool {
    let c = img.pixels[y * img.width + x];
    c.r != 0 || c.g != 0 || c.b != 0
}

fn lit_set(img: &Image) -> Vec<(usize, usize)> {
    let mut v = Vec::new();
    for y in 0..img.height {
        for x in 0..img.width {
            if lit(img, x, y) {
                v.push((x, y));
            }
        }
    }
    v
}

fn green() -> Color {
    Color::new_color(0, 255, 0)
}

#[test]
fn color_channels() {
    let c = Color::new_color(1, 2, 3);
    assert_eq!((c.r, c.g, c.b), (1, 2, 3));
}

#[test]
fn new_image_is_background() {
    let img = Image::new(4, 3);
    assert_eq!(img.pixels.len(), 12);
    assert!(lit_set(&img).is_empty());
}

#[test]
fn plot_and_clip() {
    let mut img = Image::new(5, 5);
    img.plot(2, 3, green());
    img.plot(-1, 0, green());
    img.plot(5, 0, green());
    img.plot(0, 7, green());
    assert_eq!(lit_set(&img), vec![(2, 3)]);
    img.clear();
    assert!(lit_set(&img).is_empty());
}

#[test]
fn diagonal_line() {
    let mut img = Image::new(10, 10);
    img.draw_line(0, 0, 5, 5, green());
    assert_eq!(lit_set(&img), vec![(0, 0), (1, 1), (2, 2), (3, 3), (4, 4), (5, 5)]);
}

#[test]
fn shallow_line_rounds_rows_up() {
    let mut img = Image::new(10, 10);
    img.draw_line(0, 0, 4, 1, green());
    // row = ceil(x / 4)
    assert_eq!(lit_set(&img), vec![(0, 0), (1, 1), (2, 1), (3, 1), (4, 1)]);
}

#[test]
fn steep_descending_line() {
    let mut img = Image::new(10, 10);
    img.draw_line(1, 8, 3, 2, green());
    let s = lit_set(&img);
    assert_eq!(s.len(), 7);
    assert!(s.contains(&(1, 8)));
    assert!(s.contains(&(3, 2)));
    for y in 2..=8 {
        assert_eq!(s.iter().filter(|p| p.1 == y).count(), 1);
    }
}

#[test]
fn vertical_and_single_point() {
    let mut img = Image::new(10, 10);
    img.draw_line(4, 7, 4, 2, green());
    assert_eq!(lit_set(&img), vec![(4, 2), (4, 3), (4, 4), (4, 5), (4, 6), (4, 7)]);
    let mut one = Image::new(3, 3);
    one.draw_line(1, 1, 1, 1, green());
    assert_eq!(lit_set(&one), vec![(1, 1)]);
}

#[test]
fn line_is_connected_with_endpoints() {
    let cases = [(0, 0, 17, 5), (3, 19, 12, 0), (19, 2, 0, 9), (5, 5, 6, 19), (0, 10, 19, 10)];
    for &(x0, y0, x1, y1) in cases.iter() {
        let mut img = Image::new(20, 20);
        img.draw_line(x0, y0, x1, y1, green());
        let s = lit_set(&img);
        let dx = (x1 - x0).abs() as usize;
        let dy = (y1 - y0).abs() as usize;
        assert_eq!(s.len(), dx.max(dy) + 1);
        assert!(s.contains(&(x0 as usize, y0 as usize)));
        assert!(s.contains(&(x1 as usize, y1 as usize)));
        // every pixel but an endpoint has a neighbour on each side along the major axis
        for &(x, y) in s.iter() {
            let near = s
                .iter()
                .filter(|q| (q.0 as i64 - x as i64).abs().max((q.1 as i64 - y as i64).abs()) == 1)
                .count();
            assert!(near >= 1);
        }
    }
}

#[test]
fn line_is_symmetric() {
    let cases = [(0, 0, 17, 5), (3, 19, 12, 0), (19, 2, 0, 9), (4, 1, 4, 15), (2, 2, 9, 11)];
    for &(x0, y0, x1, y1) in cases.iter() {
        let mut a = Image::new(20, 20);
        let mut b = Image::new(20, 20);
        a.draw_line(x0, y0, x1, y1, green());
        b.draw_line(x1, y1, x0, y0, green());
        assert_eq!(lit_set(&a), lit_set(&b));
    }
}

#[test]
fn line_partly_outside_is_clipped() {
    let mut img = Image::new(5, 5);
    img.draw_line(-3, 2, 10, 2, green());
    assert_eq!(lit_set(&img), vec![(0, 2), (1, 2), (2, 2), (3, 2), (4, 2)]);
}

#[test]
fn draw_lines_pairs() {
    let mut m = Matrix::new();
    m.add_edge(0, 0, 0, 3, 0, 0);
    m.add_edge_int(0, 2, 0, 0, 4, 0);
    let mut img = Image::new(6, 6);
    img.draw_lines(&m, green());
    assert_eq!(lit_set(&img), vec![(0, 0), (1, 0), (2, 0), (3, 0), (0, 2), (0, 3), (0, 4)]);
}

#[test]
fn draw_polygons_outlines() {
    let mut m = Matrix::new();
    m.add_polygon(0, 0, 0, 4, 0, 0, 0, 4, 0);
    let mut img = Image::new(6, 6);
    img.draw_polygons(&m, green());
    let s = lit_set(&img);
    assert!(s.contains(&(0, 0)) && s.contains(&(4, 0)) && s.contains(&(0, 4)));
    assert!(s.contains(&(2, 2)));
    assert!(!s.contains(&(1, 1)));
    assert_eq!(s.len(), 12);
}

#[test]
fn box_has_twelve_distinct_edges() {
    let mut m = Matrix::new();
    m.add_box_edges(0, 10, 0, 10, 10, 10);
    assert_eq!(m.len(), 24);
    let mut segs: Vec<((i32, i32, i32), (i32, i32, i32))> = Vec::new();
    for k in 0..12 {
        let a = m.points[2 * k];
        let b = m.points[2 * k + 1];
        let (p, q) = ((a.x, a.y, a.z), (b.x, b.y, b.z));
        assert_ne!(p, q);
        segs.push(if p < q { (p, q) } else { (q, p) });
    }
    segs.sort();
    segs.dedup();
    assert_eq!(segs.len(), 12);
    let mut img = Image::new(30, 30);
    img.draw_lines(&m, green());
    let s = lit_set(&img);
    assert!(s.contains(&(0, 0)) && s.contains(&(10, 10)) && s.contains(&(5, 0)) && s.contains(&(10, 5)));
}

#[test]
fn box_faces_are_twelve_triangles() {
    let mut m = Matrix::new();
    m.add_box(1, 2, 3, 4, 5, 6);
    assert_eq!(m.len(), 36);
    let p = m.points[0];
    assert_eq!((p.x, p.y, p.z), (5, -3, 3));
    let q = m.points[35];
    assert_eq!((q.x, q.y, q.z), (5, -3, -3));
}
