use char_grid::{Point, Shape, Window, DEFAULT_FILL};

fn rows(w: &Window) -> Vec<String> {
    w.render().split('\n').map(|l| l.to_string()).collect()
}

#[test]
fn fresh_window_renders_h_lines_of_w() {
    for (w, h) in [(1usize, 1usize), (3, 2), (7, 4), (1, 5), (6, 1)] {
        let lines = rows(&Window::new(w, h));
        assert_eq!(lines.len(), h);
        for line in &lines {
            assert_eq!(line.chars().count(), w);
            assert!(line.chars().all(|c| c == DEFAULT_FILL));
        }
    }
}

#[test]
fn render_exact_text() {
    let mut w = Window::new(3, 2);
    assert_eq!(w.render(), "   \n   ");
    w.fill('x');
    assert_eq!(w.render(), "xxx\nxxx");
}

#[test]
fn render_without_rows_is_empty() {
    assert_eq!(Window::new(4, 0).render(), "");
}

#[test]
fn resize_keeps_overlap_and_fills_the_rest() {
    let mut w = Window::new(4, 3);
    w.fill('.');
    w.draw(Point::new(0, 0), Shape::Square(2, 1), '#');
    w.draw(Point::new(3, 2), Shape::Square(1, 1), '@');
    assert_eq!(w.render(), "##..\n....\n...@");
    w.resize(2, 5);
    assert_eq!(w.width(), 2);
    assert_eq!(w.height(), 5);
    assert_eq!(w.render(), "##\n..\n..\n  \n  ");
    w.resize(5, 1);
    assert_eq!(w.render(), "##   ");
}

#[test]
fn resize_cell_by_cell() {
    let mut w = Window::new(3, 3);
    w.fill('a');
    w.draw(Point::new(1, 1), Shape::Square(2, 2), 'b');
    let before: Vec<Vec<char>> = (0..3).map(|y| (0..3).map(|x| w.get(x, y)).collect()).collect();
    w.resize(4, 2);
    for y in 0..2 {
        for x in 0..4 {
            if x < 3 && y < 3 {
                assert_eq!(w.get(x, y), before[y][x]);
            } else {
                assert_eq!(w.get(x, y), DEFAULT_FILL);
            }
        }
    }
}

#[test]
fn fill_twice_is_fill_once() {
    let mut once = Window::new(4, 3);
    once.draw(Point::new(1, 1), Shape::Circle(1), '#');
    let mut twice = Window::new(4, 3);
    twice.draw(Point::new(1, 1), Shape::Circle(1), '#');
    once.fill('*');
    twice.fill('*');
    twice.fill('*');
    assert_eq!(once.render(), twice.render());
    assert_eq!(once.render(), "****\n****\n****");
}

#[test]
fn replace_absent_changes_nothing() {
    let mut w = Window::new(3, 3);
    w.fill('.');
    w.draw(Point::new(1, 1), Shape::Circle(1), '#');
    let before = w.render();
    w.replace('z', '#');
    assert_eq!(w.render(), before);
}

#[test]
fn replace_changes_only_matching_cells() {
    let mut w = Window::new(3, 3);
    w.fill('.');
    w.draw(Point::new(1, 1), Shape::Circle(1), '#');
    assert_eq!(w.render(), ".#.\n###\n.#.");
    w.replace('#', 'o');
    assert_eq!(w.render(), ".o.\nooo\n.o.");
}

#[test]
fn draw_clips_at_the_far_corner() {
    let mut w = Window::new(4, 3);
    w.fill('.');
    w.draw(Point::new(3, 2), Shape::Square(3, 3), '#');
    assert_eq!(w.render(), "....\n....\n...#");
}

#[test]
fn draw_clips_at_the_origin() {
    let mut w = Window::new(3, 3);
    w.fill('.');
    w.draw(Point::new(0, 0), Shape::Circle(1), '#');
    assert_eq!(w.render(), "##.\n#..\n...");
    w.draw(Point::new(-5, -5), Shape::Circle(2), 'x');
    assert_eq!(w.render(), "##.\n#..\n...");
    w.draw(Point::new(isize::MIN, isize::MAX), Shape::Circle(isize::MAX), 'y');
    assert_eq!(w.render(), "##.\n#..\n...");
}

#[test]
fn draw_large_circle_covers_everything() {
    let mut w = Window::new(3, 2);
    w.draw(Point::new(1, 1), Shape::Circle(10), '#');
    assert_eq!(w.render(), "###\n###");
}

#[test]
fn circle_rasterization_is_mirror_symmetric() {
    for r in 1..6isize {
        let cells = Shape::Circle(r).rasterize();
        for p in &cells {
            assert!(p.x * p.x + p.y * p.y <= r * r);
            assert!(cells.contains(&Point::new(-p.x, p.y)));
            assert!(cells.contains(&Point::new(p.x, -p.y)));
        }
    }
}

#[test]
fn circle_rasterization_exact() {
    let one = Shape::Circle(1).rasterize();
    assert_eq!(
        one,
        vec![Point::new(0, -1), Point::new(-1, 0), Point::new(0, 0), Point::new(1, 0), Point::new(0, 1)]
    );
    assert_eq!(Shape::Circle(2).rasterize().len(), 13);
}

#[test]
fn square_rasterization_exact() {
    let cells = Shape::Square(2, 3).rasterize();
    assert_eq!(
        cells,
        vec![
            Point::new(0, 0),
            Point::new(1, 0),
            Point::new(0, 1),
            Point::new(1, 1),
            Point::new(0, 2),
            Point::new(1, 2)
        ]
    );
}

#[test]
fn point_translation() {
    let p = Point::new(2, -3).plus(Point::new(-5, 7));
    assert_eq!(p, Point::new(-3, 4));
}

#[test]
fn contains_matches_formula() {
    let c = Shape::Circle(3);
    assert!(c.contains(0, 3));
    assert!(c.contains(-2, 2));
    assert!(!c.contains(-3, 1));
    let s = Shape::Square(2, 1);
    assert!(s.contains(1, 0));
    assert!(!s.contains(2, 0));
    assert!(!s.contains(0, -1));
}
