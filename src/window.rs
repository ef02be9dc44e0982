use vstd::prelude::*;
use crate::point::Point;
use crate::shape::Shape;
use crate::text::{join_with, push_char, split_on, lemma_split_join};

verus! {

/// The character that a fresh cell holds.
pub const DEFAULT_FILL: char = ' ';

/// A rectangular grid of characters, stored as `height` rows of `width` cells.
pub struct Window {
    width: usize,
    height: usize,
    rows: Vec<Vec<char>>,
}

/// A `w` by `h` grid whose every cell holds `c`.
pub open spec fn uniform(w: nat, h: nat, c: char) -> Seq<Seq<char>> {
    Seq::new(h, |_y: int| Seq::new(w, |_x: int| c))
}

/// Every cell of `cells` set to `c`.
pub open spec fn filled(cells: Seq<Seq<char>>, c: char) -> Seq<Seq<char>> {
    cells.map_values(|row: Seq<char>| row.map_values(|_ch: char| c))
}

/// Every cell of `cells` that holds `from` set to `to`.
pub open spec fn replaced(cells: Seq<Seq<char>>, from: char, to: char) -> Seq<Seq<char>> {
    cells.map_values(|row: Seq<char>| row.map_values(|ch: char| if ch == from { to } else { ch }))
}

/// `cells` with `glyph` stamped on every cell that `shape`, placed at `origin`,
/// covers; cells that the shape does not reach keep their character.
pub open spec fn drawn(cells: Seq<Seq<char>>, origin: Point, shape: Shape, glyph: char) -> Seq<Seq<char>> {
    Seq::new(
        cells.len(),
        |y: int|
            Seq::new(
                cells[y].len(),
                |x: int| if shape.covers(x - origin.x, y - origin.y) { glyph } else { cells[y][x] },
            ),
    )
}

/// A `w` by `h` grid that keeps the cells of `cells` where the two overlap,
/// anchored at the top-left corner, and holds the default fill elsewhere.
pub open spec fn resized(cells: Seq<Seq<char>>, w: nat, h: nat) -> Seq<Seq<char>> {
    Seq::new(
        h,
        |y: int|
            Seq::new(
                w,
                |x: int| if y < cells.len() && x < cells[y].len() { cells[y][x] } else { DEFAULT_FILL },
            ),
    )
}

/// Whether `cells` has `h` rows of `w` cells each.
pub open spec fn is_grid(cells: Seq<Seq<char>>, w: nat, h: nat) -> bool {
    cells.len() == h && forall|y: int| 0 <= y < h ==> (#[trigger] cells[y]).len() == w
}

impl Window {
    pub closed spec fn w(&self) -> nat {
        self.width as nat
    }

    pub closed spec fn h(&self) -> nat {
        self.height as nat
    }

    /// The rows of the grid, top to bottom.
    pub closed spec fn cells(&self) -> Seq<Seq<char>> {
        self.rows@.map_values(|r: Vec<char>| r@)
    }

    pub open spec fn wf(&self) -> bool {
        is_grid(self.cells(), self.w(), self.h())
    }

    /// A grid of the given size whose cells hold the default fill.
    pub fn new(width: usize, height: usize) -> (r: Window)
        ensures
            r.wf(),
            r.w() == width,
            r.h() == height,
            r.cells() == uniform(width as nat, height as nat, DEFAULT_FILL),
    {
        let mut rows: Vec<Vec<char>> = Vec::new();
        let mut y: usize = 0;
        while y < height
            invariant
                y <= height,
                rows@.len() == y,
                forall|i: int| 0 <= i < y ==> (#[trigger] rows@[i])@ == Seq::new(width as nat, |_x: int| DEFAULT_FILL),
            decreases height - y,
        {
            rows.push(row_of(width, DEFAULT_FILL));
            y = y + 1;
        }
        let r = Window { width, height, rows };
        assert(r.cells() =~= uniform(width as nat, height as nat, DEFAULT_FILL));
        r
    }

    pub fn width(&self) -> (r: usize)
        ensures
            r == self.w(),
    {
        self.width
    }

    pub fn height(&self) -> (r: usize)
        ensures
            r == self.h(),
    {
        self.height
    }

    /// The character at column `x` of row `y`.
    pub fn get(&self, x: usize, y: usize) -> (r: char)
        requires
            self.wf(),
            x < self.w(),
            y < self.h(),
        ensures
            r == self.cells()[y as int][x as int],
    {
        assert(self.cells()[y as int] == self.rows@[y as int]@);
        self.rows[y][x]
    }

    /// Sets every cell to `c`.
    pub fn fill(&mut self, c: char)
        requires
            old(self).wf(),
        ensures
            final(self).wf(),
            final(self).w() == old(self).w(),
            final(self).h() == old(self).h(),
            final(self).cells() == filled(old(self).cells(), c),
    {
        let ghost before = self.cells();
        let mut rows: Vec<Vec<char>> = Vec::new();
        let mut y: usize = 0;
        while y < self.height
            invariant
                self.cells() == before,
                is_grid(before, self.w(), self.h()),
                y <= self.height,
                rows@.len() == y,
                forall|i: int| 0 <= i < y ==> (#[trigger] rows@[i])@ == filled(before, c)[i],
            decreases self.height - y,
        {
            let row = row_of(self.width, c);
            assert(row@ =~= filled(before, c)[y as int]);
            rows.push(row);
            y = y + 1;
        }
        self.rows = rows;
        assert(self.cells() =~= filled(before, c));
    }

    /// Sets every cell that holds `from` to `to`; other cells keep their character.
    pub fn replace(&mut self, from: char, to: char)
        requires
            old(self).wf(),
        ensures
            final(self).wf(),
            final(self).w() == old(self).w(),
            final(self).h() == old(self).h(),
            final(self).cells() == replaced(old(self).cells(), from, to),
    {
        let ghost before = self.cells();
        let mut rows: Vec<Vec<char>> = Vec::new();
        let mut y: usize = 0;
        while y < self.height
            invariant
                self.cells() == before,
                is_grid(before, self.w(), self.h()),
                y <= self.height,
                rows@.len() == y,
                forall|i: int| 0 <= i < y ==> (#[trigger] rows@[i])@ == replaced(before, from, to)[i],
            decreases self.height - y,
        {
            let mut row: Vec<char> = Vec::new();
            let mut x: usize = 0;
            assert(before[y as int] == self.rows@[y as int]@);
            while x < self.width
                invariant
                    self.cells() == before,
                    is_grid(before, self.w(), self.h()),
                    y < self.height,
                    x <= self.width,
                    before[y as int] == self.rows@[y as int]@,
                    row@ =~= replaced(before, from, to)[y as int].take(x as int),
                decreases self.width - x,
            {
                let ch = self.rows[y][x];
                row.push(if ch == from { to } else { ch });
                x = x + 1;
            }
            assert(row@ =~= replaced(before, from, to)[y as int]);
            rows.push(row);
            y = y + 1;
        }
        self.rows = rows;
        assert(self.cells() =~= replaced(before, from, to));
    }

    /// Stamps `glyph` on every cell that `shape` covers when placed at `origin`.
    /// Cells of the shape that fall outside the grid are dropped; every other
    /// cell keeps its character.
    pub fn draw(&mut self, origin: Point, shape: Shape, glyph: char)
        requires
            old(self).wf(),
        ensures
            final(self).wf(),
            final(self).w() == old(self).w(),
            final(self).h() == old(self).h(),
            final(self).cells() == drawn(old(self).cells(), origin, shape, glyph),
    {
        let ghost before = self.cells();
        let ghost after = drawn(before, origin, shape, glyph);
        let mut rows: Vec<Vec<char>> = Vec::new();
        let mut y: usize = 0;
        while y < self.height
            invariant
                self.cells() == before,
                after == drawn(before, origin, shape, glyph),
                is_grid(before, self.w(), self.h()),
                y <= self.height,
                rows@.len() == y,
                forall|i: int| 0 <= i < y ==> (#[trigger] rows@[i])@ == after[i],
            decreases self.height - y,
        {
            let mut row: Vec<char> = Vec::new();
            let mut x: usize = 0;
            assert(before[y as int] == self.rows@[y as int]@);
            let dy: i128 = y as i128 - origin.y as i128;
            while x < self.width
                invariant
                    self.cells() == before,
                    is_grid(before, self.w(), self.h()),
                    y < self.height,
                    x <= self.width,
                    dy == y - origin.y,
                    after == drawn(before, origin, shape, glyph),
                    before[y as int] == self.rows@[y as int]@,
                    row@ =~= after[y as int].take(x as int),
                decreases self.width - x,
            {
                let dx: i128 = x as i128 - origin.x as i128;
                let ch = if shape.contains(dx, dy) { glyph } else { self.rows[y][x] };
                assert(after[y as int][x as int] == ch);
                row.push(ch);
                x = x + 1;
            }
            assert(row@ =~= after[y as int]);
            rows.push(row);
            y = y + 1;
        }
        self.rows = rows;
        assert(self.cells() =~= after);
    }

    /// Gives the grid a new size. Cells where the old and the new extent overlap,
    /// counted from the top-left corner, keep their character; cells beyond the
    /// old extent hold the default fill; cells beyond the new extent are dropped.
    pub fn resize(&mut self, new_width: usize, new_height: usize)
        requires
            old(self).wf(),
        ensures
            final(self).wf(),
            final(self).w() == new_width,
            final(self).h() == new_height,
            final(self).cells() == resized(old(self).cells(), new_width as nat, new_height as nat),
    {
        let ghost before = self.cells();
        let ghost after = resized(before, new_width as nat, new_height as nat);
        let mut rows: Vec<Vec<char>> = Vec::new();
        let mut y: usize = 0;
        while y < new_height
            invariant
                self.cells() == before,
                is_grid(before, self.w(), self.h()),
                y <= new_height,
                after == resized(before, new_width as nat, new_height as nat),
                rows@.len() == y,
                forall|i: int| 0 <= i < y ==> (#[trigger] rows@[i])@ == after[i],
            decreases new_height - y,
        {
            let mut row: Vec<char> = Vec::new();
            let mut x: usize = 0;
            while x < new_width
                invariant
                    self.cells() == before,
                    is_grid(before, self.w(), self.h()),
                    y < new_height,
                    x <= new_width,
                    after == resized(before, new_width as nat, new_height as nat),
                    row@ =~= after[y as int].take(x as int),
                decreases new_width - x,
            {
                let ch = if y < self.height && x < self.width {
                    assert(before[y as int] == self.rows@[y as int]@);
                    self.rows[y][x]
                } else {
                    DEFAULT_FILL
                };
                assert(after[y as int][x as int] == ch);
                row.push(ch);
                x = x + 1;
            }
            assert(row@ =~= after[y as int]);
            rows.push(row);
            y = y + 1;
        }
        self.width = new_width;
        self.height = new_height;
        self.rows = rows;
        assert(self.cells() =~= after);
    }

    /// The grid as text: one line per row, top to bottom, each line the row's
    /// characters from left to right, lines separated by a line break.
    pub fn render(&self) -> (r: String)
        requires
            self.wf(),
        ensures
            r@ == join_with(self.cells(), '\n'),
    {
        let mut out = String::new();
        let mut y: usize = 0;
        while y < self.height
            invariant
                self.wf(),
                y <= self.height,
                out@ == join_with(self.cells().take(y as int), '\n'),
            decreases self.height - y,
        {
            let ghost prefix = if y == 0 {
                Seq::<char>::empty()
            } else {
                join_with(self.cells().take(y as int), '\n') + seq!['\n']
            };
            if y > 0 {
                push_char(&mut out, '\n');
            }
            assert(out@ =~= prefix);
            let ghost row = self.cells()[y as int];
            assert(row == self.rows@[y as int]@);
            let mut x: usize = 0;
            while x < self.width
                invariant
                    self.wf(),
                    y < self.height,
                    x <= self.width,
                    row == self.rows@[y as int]@,
                    row.len() == self.width,
                    out@ =~= prefix + row.take(x as int),
                decreases self.width - x,
            {
                push_char(&mut out, self.rows[y][x]);
                assert(row.take(x as int + 1) =~= row.take(x as int).push(row[x as int]));
                x = x + 1;
            }
            assert(row.take(x as int) =~= row);
            assert(self.cells().take(y as int + 1).drop_last() =~= self.cells().take(y as int));
            if y == 0 {
                assert(self.cells().take(1) =~= seq![row]);
            }
            y = y + 1;
        }
        assert(self.cells().take(self.height as int) =~= self.cells());
        out
    }
}

/// A row of `w` copies of `c`.
fn row_of(w: usize, c: char) -> (r: Vec<char>)
    ensures
        r@ == Seq::new(w as nat, |_x: int| c),
{
    let mut row: Vec<char> = Vec::new();
    let mut x: usize = 0;
    while x < w
        invariant
            x <= w,
            row@ =~= Seq::new(x as nat, |_x: int| c),
        decreases w - x,
    {
        row.push(c);
        x = x + 1;
    }
    row
}

/// A fresh `w` by `h` grid, rendered, splits at its line breaks into exactly
/// `h` lines of exactly `w` characters each.
pub proof fn lemma_fresh_render_shape(w: nat, h: nat)
    requires
        w >= 1,
        h >= 1,
    ensures
        split_on(join_with(uniform(w, h, DEFAULT_FILL), '\n'), '\n').len() == h,
        forall|y: int| 0 <= y < h ==>
            (#[trigger] split_on(join_with(uniform(w, h, DEFAULT_FILL), '\n'), '\n')[y]).len() == w,
{
    let g = uniform(w, h, DEFAULT_FILL);
    assert forall|i: int| 0 <= i < g.len() implies !(#[trigger] g[i]).contains('\n') by {
        if g[i].contains('\n') {
            let k = choose|k: int| 0 <= k < g[i].len() && g[i][k] == '\n';
            assert(g[i][k] == DEFAULT_FILL);
        }
    }
    lemma_split_join(g, '\n');
}

/// Resizing keeps every cell inside both the old and the new extent, and holds
/// the default fill in every other cell of the new extent.
pub proof fn lemma_resize_keeps_overlap(cells: Seq<Seq<char>>, w: nat, h: nat, w2: nat, h2: nat)
    requires
        is_grid(cells, w, h),
    ensures
        is_grid(resized(cells, w2, h2), w2, h2),
        forall|x: int, y: int| 0 <= x < w && x < w2 && 0 <= y < h && y < h2 ==>
            #[trigger] resized(cells, w2, h2)[y][x] == cells[y][x],
        forall|x: int, y: int| 0 <= x < w2 && 0 <= y < h2 && !(x < w && y < h) ==>
            #[trigger] resized(cells, w2, h2)[y][x] == DEFAULT_FILL,
{
}

/// Filling twice with one character gives what filling once gives.
pub proof fn lemma_fill_idempotent(cells: Seq<Seq<char>>, c: char)
    ensures
        filled(filled(cells, c), c) == filled(cells, c),
{
    assert forall|y: int| 0 <= y < cells.len() implies
        #[trigger] filled(filled(cells, c), c)[y] == filled(cells, c)[y] by {
        assert(filled(filled(cells, c), c)[y] =~= filled(cells, c)[y]);
    }
    assert(filled(filled(cells, c), c) =~= filled(cells, c));
}

/// Replacing a character that no cell holds changes nothing.
pub proof fn lemma_replace_absent(cells: Seq<Seq<char>>, from: char, to: char)
    requires
        forall|y: int, x: int| 0 <= y < cells.len() && 0 <= x < cells[y].len() ==>
            #[trigger] cells[y][x] != from,
    ensures
        replaced(cells, from, to) == cells,
{
    assert forall|y: int| 0 <= y < cells.len() implies
        #[trigger] replaced(cells, from, to)[y] == cells[y] by {
        assert(replaced(cells, from, to)[y] =~= cells[y]);
    }
    assert(replaced(cells, from, to) =~= cells);
}

/// Drawing keeps the grid's size, and changes a cell only where the shape,
/// placed at `origin`, covers it: every cell outside the shape keeps its
/// character, wherever the shape reaches beyond the grid.
pub proof fn lemma_draw_clips(cells: Seq<Seq<char>>, w: nat, h: nat, origin: Point, shape: Shape, glyph: char)
    requires
        is_grid(cells, w, h),
    ensures
        is_grid(drawn(cells, origin, shape, glyph), w, h),
        forall|x: int, y: int| 0 <= x < w && 0 <= y < h && !shape.covers(x - origin.x, y - origin.y) ==>
            #[trigger] drawn(cells, origin, shape, glyph)[y][x] == cells[y][x],
        forall|x: int, y: int| 0 <= x < w && 0 <= y < h && shape.covers(x - origin.x, y - origin.y) ==>
            #[trigger] drawn(cells, origin, shape, glyph)[y][x] == glyph,
{
}

} // verus!
