use vstd::prelude::*;
use crate::point::Point;

verus! {

/// A parametric shape: a filled disk of a radius, or a filled rectangle of a
/// width and a height whose top-left cell is the origin.
#[derive(Debug, Clone, Copy, PartialEq, Eq, Structural)]
pub enum Shape {
    Circle(isize),
    Square(isize, isize),
}

impl Shape {
    /// Whether the shape covers the cell at offset `(dx, dy)` from its origin.
    pub open spec fn covers(self, dx: int, dy: int) -> bool {
        match self {
            Shape::Circle(r) => dx * dx + dy * dy <= r * r,
            Shape::Square(w, h) => 0 <= dx < w && 0 <= dy < h,
        }
    }

    /// Every magnitude is positive, as the parser guarantees.
    pub open spec fn valid(self) -> bool {
        match self {
            Shape::Circle(r) => r >= 1,
            Shape::Square(w, h) => w >= 1 && h >= 1,
        }
    }

    /// Membership test on wide integers, so that any offset between two cells of
    /// a window can be asked about.
    pub fn contains(&self, dx: i128, dy: i128) -> (r: bool)
        requires
            -0x1000_0000_0000_0000_0000 <= dx <= 0x1000_0000_0000_0000_0000,
            -0x1000_0000_0000_0000_0000 <= dy <= 0x1000_0000_0000_0000_0000,
        ensures
            r == self.covers(dx as int, dy as int),
    {
        match *self {
            Shape::Circle(r) => {
                let ar: u128 = if r < 0 { (-(r as i128)) as u128 } else { r as u128 };
                let adx: u128 = if dx < 0 { (-dx) as u128 } else { dx as u128 };
                let ady: u128 = if dy < 0 { (-dy) as u128 } else { dy as u128 };
                let ghost (a, b, c) = (adx as int, ady as int, ar as int);
                proof {
                    assert(a * a == dx * dx) by (nonlinear_arith)
                        requires a == dx || a == -dx;
                    assert(b * b == dy * dy) by (nonlinear_arith)
                        requires b == dy || b == -dy;
                    assert(c * c == r * r) by (nonlinear_arith)
                        requires c == r || c == -r;
                }
                if adx > ar || ady > ar {
                    assert(a * a + b * b > c * c) by (nonlinear_arith)
                        requires a > c || b > c, a >= 0, b >= 0, c >= 0;
                    false
                } else {
                    assert(c * c <= 0x4000_0000_0000_0000_0000_0000_0000_0000) by (nonlinear_arith)
                        requires 0 <= c <= 0x8000_0000_0000_0000;
                    assert(a * a <= c * c && b * b <= c * c) by (nonlinear_arith)
                        requires 0 <= a <= c, 0 <= b <= c;
                    adx * adx + ady * ady <= ar * ar
                }
            },
            Shape::Square(w, h) => 0 <= dx && dx < w as i128 && 0 <= dy && dy < h as i128,
        }
    }

    /// Every cell that the shape covers, relative to its origin, each once, in
    /// row-major order.
    pub fn rasterize(&self) -> (cells: Vec<Point>)
        requires
            self.valid(),
        ensures
            cells@.no_duplicates(),
            forall|p: Point| cells@.contains(p) <==> self.covers(p.x as int, p.y as int),
            forall|i: int, j: int|
                0 <= i < j < cells@.len() ==> before(#[trigger] cells@[i], #[trigger] cells@[j]),
    {
        let (x0, x1, y0, y1): (isize, isize, isize, isize) = match *self {
            Shape::Circle(r) => (-r, r, -r, r),
            Shape::Square(w, h) => (0, w - 1, 0, h - 1),
        };
        proof {
            assert forall|p: Point| self.covers(p.x as int, p.y as int) implies x0 <= p.x <= x1 && y0 <= p.y <= y1 by {
                if let Shape::Circle(r) = *self {
                    let (a, b, c) = (p.x as int, p.y as int, r as int);
                    assert(-c <= a <= c && -c <= b <= c) by (nonlinear_arith)
                        requires a * a + b * b <= c * c, c >= 1;
                }
            }
        }
        let mut cells: Vec<Point> = Vec::new();
        let mut y: i128 = y0 as i128;
        while y <= y1 as i128
            invariant
                self.valid(),
                y0 <= y <= y1 + 1,
                x0 <= x1,
                forall|p: Point| self.covers(p.x as int, p.y as int) ==> x0 <= p.x <= x1 && y0 <= p.y <= y1,
                forall|p: Point| cells@.contains(p) <==> self.covers(p.x as int, p.y as int) && p.y < y,
                forall|i: int| 0 <= i < cells@.len() ==> (#[trigger] cells@[i]).y < y,
                forall|i: int, j: int|
                    0 <= i < j < cells@.len() ==> before(#[trigger] cells@[i], #[trigger] cells@[j]),
            decreases y1 + 1 - y,
        {
            let mut x: i128 = x0 as i128;
            let ghost start = cells@.len();
            while x <= x1 as i128
                invariant
                    self.valid(),
                    y0 <= y <= y1,
                    x0 <= x <= x1 + 1,
                    start <= cells@.len(),
                    forall|p: Point| self.covers(p.x as int, p.y as int) ==> x0 <= p.x <= x1 && y0 <= p.y <= y1,
                    forall|p: Point| cells@.contains(p) <==>
                        self.covers(p.x as int, p.y as int) && (p.y < y || (p.y == y && p.x < x)),
                    forall|i: int| 0 <= i < cells@.len() ==> (#[trigger] cells@[i]).y < y || (cells@[i].y == y && cells@[i].x < x),
                    forall|i: int, j: int|
                        0 <= i < j < cells@.len() ==> before(#[trigger] cells@[i], #[trigger] cells@[j]),
                decreases x1 + 1 - x,
            {
                if self.contains(x, y) {
                    let ghost prev = cells@;
                    let p = Point::new(x as isize, y as isize);
                    cells.push(p);
                    assert forall|q: Point| cells@.contains(q) <==>
                        self.covers(q.x as int, q.y as int) && (q.y < y || (q.y == y && q.x < x + 1)) by {
                        if cells@.contains(q) && q != p {
                            let k = choose|k: int| 0 <= k < cells@.len() && cells@[k] == q;
                            assert(prev[k] == q);
                            assert(prev.contains(q));
                        }
                        if q != p && self.covers(q.x as int, q.y as int) && (q.y < y || (q.y == y && q.x < x + 1)) {
                            assert(prev.contains(q));
                            let k = choose|k: int| 0 <= k < prev.len() && prev[k] == q;
                            assert(cells@[k] == q);
                        }
                        if q == p {
                            assert(cells@[cells@.len() - 1] == q);
                        }
                    }
                }
                x = x + 1;
            }
            y = y + 1;
        }
        proof {
            assert forall|i: int, j: int| 0 <= i < cells@.len() && 0 <= j < cells@.len() && i != j
                implies cells@[i] != cells@[j] by {
                if i < j {
                    assert(before(cells@[i], cells@[j]));
                } else {
                    assert(before(cells@[j], cells@[i]));
                }
            }
        }
        cells
    }
}

/// Row-major order: `a` lies on an earlier row, or on the same row further left.
pub open spec fn before(a: Point, b: Point) -> bool {
    a.y < b.y || (a.y == b.y && a.x < b.x)
}

/// A disk looks the same in a mirror, whichever axis the mirror stands on.
pub proof fn lemma_circle_symmetric(r: isize, dx: int, dy: int)
    ensures
        Shape::Circle(r).covers(dx, dy) <==> Shape::Circle(r).covers(-dx, dy),
        Shape::Circle(r).covers(dx, dy) <==> Shape::Circle(r).covers(dx, -dy),
{
    assert(dx * dx == (-dx) * (-dx)) by (nonlinear_arith);
    assert(dy * dy == (-dy) * (-dy)) by (nonlinear_arith);
}

} // verus!
