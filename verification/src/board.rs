//! The playing field: a grid of tiles with collision queries, locking of
//! landed pieces and collapsing of full rows.

use crate::geometry::fits_i32;
use crate::geometry::Color;
use crate::geometry::Point;
use crate::piece::lemma_cells_distinct;
use crate::piece::Tetromino;
use vstd::prelude::*;

verus! {

/// One cell of the field.
#[derive(Clone, Copy, Debug, PartialEq, Eq, Structural)]
pub struct Tile {
    pub filled: bool,
    pub color: Color,
}

/// The tile of a cell that holds nothing.
pub open spec fn empty_tile() -> Tile {
    Tile { filled: false, color: Color { c: 0 } }
}

/// A row of `width` empty tiles.
pub open spec fn empty_row(width: int) -> Seq<Tile> {
    Seq::new(width as nat, |x: int| empty_tile())
}

/// Whether every tile of `row` is filled.
pub open spec fn row_is_full(row: Seq<Tile>) -> bool {
    forall|x: int| 0 <= x < row.len() ==> (#[trigger] row[x]).filled
}

/// The rows that a clearing keeps: those that are not full.
pub open spec fn kept() -> spec_fn(Seq<Tile>) -> bool {
    |row: Seq<Tile>| !row_is_full(row)
}

/// The mathematical model of the field: `rows[y][x]` is the tile in column
/// `x` of row `y`, and row 0 is the top row.
pub struct Grid {
    pub width: int,
    pub rows: Seq<Seq<Tile>>,
}

impl Grid {
    pub open spec fn height(self) -> int {
        self.rows.len() as int
    }

    /// At least four columns and four rows, and every row has `width` tiles.
    pub open spec fn wf(self) -> bool {
        &&& self.width >= 4
        &&& self.rows.len() >= 4
        &&& forall|y: int| 0 <= y < self.rows.len() ==> (#[trigger] self.rows[y]).len() == self.width
    }

    /// The grid of the given size whose tiles are all empty.
    pub open spec fn blank(width: int, height: int) -> Grid {
        Grid { width, rows: Seq::new(height as nat, |y: int| empty_row(width)) }
    }

    pub open spec fn in_bounds(self, x: int, y: int) -> bool {
        0 <= x < self.width && 0 <= y < self.height()
    }

    pub open spec fn tile(self, x: int, y: int) -> Tile {
        self.rows[y][x]
    }

    pub open spec fn row_full(self, y: int) -> bool {
        row_is_full(self.rows[y])
    }

    /// Whether a piece cell at `(x, y)` would be off the field or on a filled tile.
    pub open spec fn blocked(self, x: int, y: int) -> bool {
        !self.in_bounds(x, y) || self.tile(x, y).filled
    }

    /// Whether any of `cells` is blocked.
    pub open spec fn collides(self, cells: Seq<(int, int)>) -> bool {
        exists|i: int| 0 <= i < cells.len() && self.blocked((#[trigger] cells[i]).0, cells[i].1)
    }

    /// Whether all of `cells` lie on the field.
    pub open spec fn contains_all(self, cells: Seq<(int, int)>) -> bool {
        forall|i: int| 0 <= i < cells.len() ==> self.in_bounds((#[trigger] cells[i]).0, cells[i].1)
    }

    /// Whether any of `cells` is a filled tile.
    pub open spec fn overlaps(self, cells: Seq<(int, int)>) -> bool {
        exists|i: int| 0 <= i < cells.len() && self.tile((#[trigger] cells[i]).0, cells[i].1).filled
    }

    /// The grid with the tile at `(x, y)` replaced by `t`.
    pub open spec fn with_tile(self, x: int, y: int, t: Tile) -> Grid {
        Grid { width: self.width, rows: self.rows.update(y, self.rows[y].update(x, t)) }
    }

    /// The grid after `cells` are locked in `color`: each of them that was
    /// empty is now filled and colored; every filled tile keeps its color.
    pub open spec fn locked(self, cells: Seq<(int, int)>, color: Color) -> Grid {
        Grid {
            width: self.width,
            rows: Seq::new(
                self.rows.len(),
                |y: int|
                    Seq::new(
                        self.width as nat,
                        |x: int|
                            if cells.contains((x, y)) && !self.rows[y][x].filled {
                                Tile { filled: true, color }
                            } else {
                                self.rows[y][x]
                            },
                    ),
            ),
        }
    }

    /// The grid after row `y` is taken out: the rows above it move down by
    /// one, tiles and colors alike, and an empty row enters at the top.
    pub open spec fn collapsed(self, y: int) -> Grid {
        Grid { width: self.width, rows: seq![empty_row(self.width)] + self.rows.remove(y) }
    }

    /// The number of full rows.
    pub open spec fn full_rows(self) -> nat {
        (self.rows.len() - self.rows.filter(kept()).len()) as nat
    }

    /// The grid after all full rows are taken out: the remaining rows keep
    /// their order and rest at the bottom, under as many empty rows as were full.
    pub open spec fn cleared(self) -> Grid {
        Grid {
            width: self.width,
            rows: Seq::new(self.full_rows(), |y: int| empty_row(self.width)) + self.rows.filter(
                kept(),
            ),
        }
    }
}

/// The field as the engine stores it: the tiles of all rows in one vector,
/// row after row.
#[derive(Debug)]
pub struct Board {
    tiles: Vec<Tile>,
    width: i32,
    height: i32,
}

impl View for Board {
    type V = Grid;

    closed spec fn view(&self) -> Grid {
        Grid {
            width: self.width as int,
            rows: Seq::new(
                self.height as nat,
                |y: int| self.tiles@.subrange(y * self.width, (y + 1) * self.width),
            ),
        }
    }
}

proof fn lemma_index_in_range(x: int, y: int, w: int, h: int)
    requires
        0 <= x < w,
        0 <= y < h,
    ensures
        0 <= y * w,
        y * w + w == (y + 1) * w,
        y * w + x < (y + 1) * w,
        (y + 1) * w <= h * w,
        h * w == w * h,
{
    assert(0 <= y * w) by (nonlinear_arith)
        requires
            0 <= y,
            0 <= w,
    ;
    assert(y * w + w == (y + 1) * w) by (nonlinear_arith);
    assert((y + 1) * w <= h * w) by (nonlinear_arith)
        requires
            y + 1 <= h,
            0 <= w,
    ;
    assert(h * w == w * h) by (nonlinear_arith);
}

proof fn lemma_rows_ordered(a: int, b: int, w: int)
    requires
        a <= b,
        0 <= w,
    ensures
        a * w <= b * w,
{
    assert(a * w <= b * w) by (nonlinear_arith)
        requires
            a <= b,
            0 <= w,
    ;
}

impl Board {
    /// The stored layout is consistent: the dimensions are at least four,
    /// their product fits the machine integers, and the vector holds one
    /// tile for each cell.
    pub closed spec fn layout_ok(&self) -> bool {
        &&& self.width >= 4
        &&& self.height >= 4
        &&& self.width * self.height <= i32::MAX
        &&& self.tiles@.len() == self.width * self.height
    }

    pub open spec fn wf(&self) -> bool {
        self.layout_ok() && self@.wf() && self@.width * self@.height() <= i32::MAX
    }

    proof fn lemma_view(&self)
        requires
            self.layout_ok(),
        ensures
            self@.wf(),
            self@.width == self.width,
            self@.height() == self.height,
            forall|x: int, y: int|
                0 <= x < self.width && 0 <= y < self.height ==> #[trigger] self@.tile(x, y)
                    == self.tiles@[x + y * self.width] && 0 <= x + y * self.width
                    < self.tiles@.len(),
    {
        let w = self.width as int;
        let h = self.height as int;
        assert forall|y: int| 0 <= y < h implies (#[trigger] self@.rows[y]).len() == w by {
            lemma_index_in_range(0, y, w, h);
        }
        assert forall|x: int, y: int| 0 <= x < w && 0 <= y < h implies #[trigger] self@.tile(x, y)
            == self.tiles@[x + y * w] && 0 <= x + y * w < self.tiles@.len() by {
            lemma_index_in_range(x, y, w, h);
        }
    }

    pub fn new(width: i32, height: i32) -> (board: Self)
        requires
            width >= 4,
            height >= 4,
            width * height <= i32::MAX,
        ensures
            board.wf(),
            board@ == Grid::blank(width as int, height as int),
    {
        let n: i32 = width * height;
        let mut tiles: Vec<Tile> = Vec::new();
        let mut i: usize = 0;
        while i < n as usize
            invariant
                0 <= n,
                i <= n,
                tiles@.len() == i,
                forall|k: int| 0 <= k < i ==> tiles@[k] == empty_tile(),
            decreases n - i,
        {
            tiles.push(Tile { filled: false, color: Color { c: 0 } });
            i += 1;
        }
        let board = Board { tiles, width, height };
        proof {
            board.lemma_view();
            let blank = Grid::blank(width as int, height as int);
            assert forall|y: int| 0 <= y < height implies #[trigger] board@.rows[y] == blank.rows[y] by {
                lemma_index_in_range(0, y, width as int, height as int);
                assert(board@.rows[y] =~= blank.rows[y]);
            }
            assert(board@.rows =~= blank.rows);
        }
        board
    }

    pub fn width(&self) -> (w: i32)
        requires
            self.wf(),
        ensures
            w == self@.width,
    {
        proof {
            self.lemma_view();
        }
        self.width
    }

    pub fn height(&self) -> (h: i32)
        requires
            self.wf(),
        ensures
            h == self@.height(),
    {
        proof {
            self.lemma_view();
        }
        self.height
    }

    /// The position of the tile of `p` in the stored vector.
    pub fn p2i(&self, p: &Point) -> (i: usize)
        requires
            self.wf(),
            self@.in_bounds(p.x as int, p.y as int),
        ensures
            i == p.x + p.y * self@.width,
            i < self@.width * self@.height(),
    {
        proof {
            self.lemma_view();
            lemma_index_in_range(p.x as int, p.y as int, self.width as int, self.height as int);
        }
        (p.x + p.y * self.width) as usize
    }

    pub fn get_tile(&self, p: Point) -> (t: &Tile)
        requires
            self.wf(),
            self@.in_bounds(p.x as int, p.y as int),
        ensures
            *t == self@.tile(p.x as int, p.y as int),
    {
        proof {
            self.lemma_view();
        }
        let i = self.p2i(&p);
        &self.tiles[i]
    }

    pub fn is_line_full(&self, y: i32) -> (full: bool)
        requires
            self.wf(),
            0 <= y < self@.height(),
        ensures
            full == self@.row_full(y as int),
    {
        proof {
            self.lemma_view();
        }
        let mut x: i32 = 0;
        while x < self.width
            invariant
                self.wf(),
                0 <= y < self@.height(),
                self@.width == self.width,
                0 <= x <= self.width,
                forall|k: int| 0 <= k < x ==> (#[trigger] self@.rows[y as int][k]).filled,
            decreases self.width - x,
        {
            if !self.get_tile(Point::from(x, y)).filled {
                return false;
            }
            x += 1;
        }
        true
    }

    /// Takes row `y` out: every row above it moves down by one and the top
    /// row becomes empty.
    pub fn clear_line(&mut self, y: i32)
        requires
            old(self).wf(),
            0 <= y < old(self)@.height(),
        ensures
            final(self).wf(),
            final(self)@ == old(self)@.collapsed(y as int),
    {
        proof {
            self.lemma_view();
        }
        let ghost before = *self;
        let ghost prior = self.tiles@;
        let ghost w = self.width as int;
        let ghost h = self.height as int;
        let ghost below = (y + 1) * w;
        proof {
            lemma_index_in_range(0, y as int, w, h);
        }
        let width = self.width as usize;
        // Drop all rows above down by one
        let mut row: i32 = y;
        while row >= 1
            invariant
                self.width == w,
                self.height == h,
                width == w,
                w >= 4,
                w * h <= i32::MAX,
                self.tiles@.len() == w * h,
                prior.len() == w * h,
                0 <= row <= y < h,
                below == (y + 1) * w,
                below <= w * h,
                forall|i: int|
                    0 <= i < w * h ==> #[trigger] self.tiles@[i] == if (row + 1) * w <= i < below {
                        prior[i - w]
                    } else {
                        prior[i]
                    },
            decreases row,
        {
            proof {
                lemma_index_in_range(0, row as int, w, h);
                lemma_index_in_range(0, row - 1, w, h);
                lemma_rows_ordered(row + 1, y + 1, w);
            }
            let src_start = ((row - 1) * self.width) as usize;
            let dst_start = (row * self.width) as usize;
            let mut x: usize = 0;
            while x < width
                invariant
                    self.width == w,
                    self.height == h,
                    width == w,
                    w >= 4,
                    self.tiles@.len() == w * h,
                    prior.len() == w * h,
                    1 <= row <= y < h,
                    x <= width,
                    src_start == (row - 1) * w,
                    dst_start == row * w,
                    dst_start == src_start + w,
                    dst_start + w == (row + 1) * w,
                    (row + 1) * w <= below,
                    below <= w * h,
                    w * h <= i32::MAX,
                    forall|i: int|
                        0 <= i < w * h ==> #[trigger] self.tiles@[i] == if (dst_start <= i
                            < dst_start + x) || ((row + 1) * w <= i < below) {
                            prior[i - w]
                        } else {
                            prior[i]
                        },
                decreases width - x,
            {
                let tile = self.tiles[src_start + x];
                self.tiles[dst_start + x] = tile;
                x += 1;
            }
            row -= 1;
        }
        // Clear top row
        let mut x: usize = 0;
        while x < width
            invariant
                self.width == w,
                self.height == h,
                width == w,
                w >= 4,
                h >= 4,
                self.tiles@.len() == w * h,
                prior.len() == w * h,
                x <= width,
                w <= below <= w * h,
                forall|i: int|
                    0 <= i < w * h ==> #[trigger] self.tiles@[i] == if i < x {
                        empty_tile()
                    } else if w <= i < below {
                        prior[i - w]
                    } else {
                        prior[i]
                    },
            decreases width - x,
        {
            self.tiles[x] = Tile { filled: false, color: Color { c: 0 } };
            x += 1;
        }
        proof {
            self.lemma_view();
            let target = before@.collapsed(y as int);
            assert(target.rows.len() == h);
            assert forall|r: int| 0 <= r < h implies #[trigger] self@.rows[r] == target.rows[r] by {
                lemma_index_in_range(0, r, w, h);
                if r == 0 {
                    assert(self@.rows[r] =~= target.rows[r]);
                } else if r <= y {
                    lemma_index_in_range(0, r - 1, w, h);
                    lemma_rows_ordered(1, r, w);
                    lemma_rows_ordered(r + 1, y + 1, w);
                    assert(target.rows[r] == before@.rows[r - 1]);
                    assert(self@.rows[r] =~= before@.rows[r - 1]);
                } else {
                    lemma_rows_ordered(y + 1, r, w);
                    assert(target.rows[r] == before@.rows[r]);
                    assert(self@.rows[r] =~= before@.rows[r]);
                }
            }
            assert(self@.rows =~= target.rows);
        }
    }

    /// Takes out every full row, scanning from the bottom row upward, and
    /// returns how many were taken out.
    pub fn check_and_clear_lines(&mut self) -> (lines_count: u32)
        requires
            old(self).wf(),
        ensures
            final(self).wf(),
            final(self)@ == old(self)@.cleared(),
            lines_count == old(self)@.full_rows(),
            lines_count <= old(self)@.height(),
    {
        let ghost start = self@;
        let ghost w = start.width;
        let ghost h = start.height();
        let mut lines_count: u32 = 0;
        let mut y: i32 = self.height() - 1;
        // The number of rows of `start` that the scan has not reached yet.
        let ghost mut pending: int = h;
        proof {
            assert(start.rows.skip(h) =~= Seq::<Seq<Tile>>::empty());
            start.rows.skip(h).lemma_filter_len(kept());
            assert(self@.rows =~= Seq::new(0, |i: int| empty_row(w)) + start.rows.take(h)
                + start.rows.skip(h).filter(kept()));
        }
        while y >= 0
            invariant
                self.wf(),
                start.wf(),
                self@.width == w,
                self@.height() == h,
                start.width == w,
                start.height() == h,
                w * h <= i32::MAX,
                -1 <= y < h,
                0 <= pending <= h,
                lines_count + start.rows.skip(pending).filter(kept()).len() == h - pending,
                self@.rows == Seq::new(lines_count as nat, |i: int| empty_row(w)) + start.rows.take(
                    pending,
                ) + start.rows.skip(pending).filter(kept()),
                pending > 0 ==> y + 1 == lines_count + pending,
                pending == 0 ==> y + 1 <= lines_count,
            decreases y + 1 + pending,
        {
            let ghost cur = self@;
            let ghost rest = start.rows.skip(pending);
            proof {
                if pending > 0 {
                    assert(cur.rows[y as int] == start.rows[pending - 1]);
                    assert(start.rows.skip(pending - 1) =~= seq![start.rows[pending - 1]] + rest);
                    rest.lemma_filter_prepend(start.rows[pending - 1], kept());
                } else {
                    assert(cur.rows[y as int] == empty_row(w));
                    assert(!empty_row(w)[0].filled);
                }
            }
            if self.is_line_full(y) {
                // Don't decrement y - check same row again since rows dropped
                self.clear_line(y);
                lines_count += 1;
                proof {
                    pending = pending - 1;
                    assert(start.rows.skip(pending).filter(kept()) =~= rest.filter(kept()));
                    assert(self@.rows =~= Seq::new(lines_count as nat, |i: int| empty_row(w))
                        + start.rows.take(pending) + start.rows.skip(pending).filter(kept()));
                }
            } else {
                proof {
                    if pending > 0 {
                        pending = pending - 1;
                        assert(start.rows.skip(pending).filter(kept()) =~= seq![
                            start.rows[pending],
                        ] + rest.filter(kept()));
                        assert(self@.rows =~= Seq::new(lines_count as nat, |i: int| empty_row(w))
                            + start.rows.take(pending) + start.rows.skip(pending).filter(kept()));
                    }
                }
                y -= 1;
            }
        }
        proof {
            assert(start.rows.skip(0) =~= start.rows);
            assert(start.rows.take(0) =~= Seq::<Seq<Tile>>::empty());
            assert(self@.rows =~= start.cleared().rows);
        }
        lines_count
    }

    /// Replaces the tile at `p`.
    fn set_tile(&mut self, p: &Point, t: Tile)
        requires
            old(self).wf(),
            old(self)@.in_bounds(p.x as int, p.y as int),
        ensures
            final(self).wf(),
            final(self)@ == old(self)@.with_tile(p.x as int, p.y as int, t),
    {
        let ghost before = *self;
        let ghost w = self.width as int;
        let ghost h = self.height as int;
        let i = self.p2i(p);
        proof {
            self.lemma_view();
        }
        self.tiles[i] = t;
        proof {
            self.lemma_view();
            let target = before@.with_tile(p.x as int, p.y as int, t);
            lemma_index_in_range(p.x as int, p.y as int, w, h);
            assert forall|r: int| 0 <= r < h implies #[trigger] self@.rows[r] == target.rows[r] by {
                lemma_index_in_range(0, r, w, h);
                if r < p.y {
                    lemma_rows_ordered(r + 1, p.y as int, w);
                } else if r > p.y {
                    lemma_rows_ordered(p.y + 1, r, w);
                }
                assert(self@.rows[r] =~= target.rows[r]);
            }
            assert(self@.rows =~= target.rows);
        }
    }

    /// Locks the four cells of `tet` into the field and reports whether any
    /// of them was filled already. A cell that was filled keeps its color.
    pub fn fill_tetromino_check_gameover(&mut self, tet: &Tetromino) -> (overlap: bool)
        requires
            old(self).wf(),
            old(self)@.contains_all(tet.cells()),
        ensures
            final(self).wf(),
            final(self)@ == old(self)@.locked(tet.cells(), tet.color),
            overlap == old(self)@.overlaps(tet.cells()),
    {
        let ghost start = self@;
        let ghost cells = tet.cells();
        proof {
            lemma_cells_distinct(*tet);
            assert forall|k: int| 0 <= k < 4 implies fits_i32((#[trigger] tet.cell(k)).0)
                && fits_i32(tet.cell(k).1) by {
                assert(start.in_bounds(cells[k].0, cells[k].1));
            }
            assert(self@.rows =~~= start.locked(cells.take(0), tet.color).rows);
        }
        let pts = tet.points();
        let mut overlap = false;
        let mut i: usize = 0;
        while i < 4
            invariant
                i <= 4,
                self.wf(),
                start.wf(),
                cells == tet.cells(),
                start.contains_all(cells),
                forall|a: int, b: int| 0 <= a < b < 4 ==> tet.cell(a) != tet.cell(b),
                forall|k: int| 0 <= k < 4 ==> (#[trigger] pts[k]).pair() == tet.cell(k),
                self@ == start.locked(cells.take(i as int), tet.color),
                overlap == start.overlaps(cells.take(i as int)),
            decreases 4 - i,
        {
            let p = pts[i];
            let ghost cur = self@;
            let ghost done = cells.take(i as int);
            let ghost next = cells.take(i + 1);
            proof {
                assert(cells[i as int] == tet.cell(i as int));
                assert(start.in_bounds(cells[i as int].0, cells[i as int].1));
                assert(!done.contains(cells[i as int])) by {
                    if done.contains(cells[i as int]) {
                        let j = choose|j: int| 0 <= j < done.len() && done[j] == cells[i as int];
                        assert(tet.cell(j) == tet.cell(i as int));
                    }
                }
                assert forall|c: (int, int)| next.contains(c) == (done.contains(c) || c
                    == cells[i as int]) by {
                    if next.contains(c) {
                        let j = choose|j: int| 0 <= j < next.len() && next[j] == c;
                        if j < i {
                            assert(done[j] == c);
                        }
                    }
                    if done.contains(c) {
                        let j = choose|j: int| 0 <= j < done.len() && done[j] == c;
                        assert(next[j] == c);
                    }
                    assert(next[i as int] == cells[i as int]);
                }
                assert(start.overlaps(next) == (start.overlaps(done) || start.tile(
                    cells[i as int].0,
                    cells[i as int].1,
                ).filled)) by {
                    if start.overlaps(next) {
                        let j = choose|j: int|
                            0 <= j < next.len() && start.tile((#[trigger] next[j]).0, next[j].1).filled;
                        if j < i {
                            assert(start.tile(done[j].0, done[j].1).filled);
                        }
                    }
                    if start.overlaps(done) {
                        let j = choose|j: int|
                            0 <= j < done.len() && start.tile((#[trigger] done[j]).0, done[j].1).filled;
                        assert(start.tile(next[j].0, next[j].1).filled);
                    }
                    if start.tile(cells[i as int].0, cells[i as int].1).filled {
                        assert(start.tile(next[i as int].0, next[i as int].1).filled);
                    }
                }
            }
            if self.get_tile(p).filled {
                overlap = true;
                proof {
                    assert(self@.rows =~~= start.locked(next, tet.color).rows);
                }
            } else {
                self.set_tile(&p, Tile { filled: true, color: tet.color });
                proof {
                    assert(self@.rows =~~= start.locked(next, tet.color).rows);
                }
            }
            i += 1;
        }
        proof {
            assert(cells.take(4) =~= cells);
        }
        overlap
    }
}

/// A filter that every entry passes keeps the sequence, and one that no
/// entry passes keeps nothing.
proof fn lemma_filter_all_or_none(s: Seq<Seq<Tile>>)
    ensures
        (forall|i: int| 0 <= i < s.len() ==> !row_is_full(#[trigger] s[i])) ==> s.filter(kept())
            == s,
        (forall|i: int| 0 <= i < s.len() ==> row_is_full(#[trigger] s[i])) ==> s.filter(kept())
            == Seq::<Seq<Tile>>::empty(),
    decreases s.len(),
{
    reveal(Seq::filter);
    if s.len() > 0 {
        lemma_filter_all_or_none(s.drop_last());
        if forall|i: int| 0 <= i < s.len() ==> !row_is_full(#[trigger] s[i]) {
            assert forall|i: int| 0 <= i < s.drop_last().len() implies !row_is_full(
                #[trigger] s.drop_last()[i],
            ) by {
                assert(s.drop_last()[i] == s[i]);
            }
            assert(!row_is_full(s[s.len() - 1]));
            assert(s.drop_last().push(s.last()) =~= s);
        }
        if forall|i: int| 0 <= i < s.len() ==> row_is_full(#[trigger] s[i]) {
            assert forall|i: int| 0 <= i < s.drop_last().len() implies row_is_full(
                #[trigger] s.drop_last()[i],
            ) by {
                assert(s.drop_last()[i] == s[i]);
            }
            assert(row_is_full(s[s.len() - 1]));
        }
    } else {
        assert(s.filter(kept()) =~= s);
    }
}

/// Clearing a field that has no full row clears nothing and leaves every
/// tile as it was.
pub proof fn lemma_clear_without_full_rows(grid: Grid)
    requires
        grid.wf(),
        forall|y: int| 0 <= y < grid.height() ==> !grid.row_full(y),
    ensures
        grid.full_rows() == 0,
        grid.cleared() == grid,
{
    assert forall|i: int| 0 <= i < grid.rows.len() implies !row_is_full(#[trigger] grid.rows[i]) by {
        assert(!grid.row_full(i));
    }
    lemma_filter_all_or_none(grid.rows);
    assert(grid.full_rows() == 0);
    assert(grid.cleared().rows =~= grid.rows);
}

/// Clearing a field whose full rows are exactly the rows from `top` up to,
/// not including, `below` clears `below - top` rows: as many empty rows
/// enter at the top, every row that was above the block lies lower by the
/// height of the block, tiles and colors alike, and every row that was under
/// the block stays where it was.
pub proof fn lemma_clear_block_of_full_rows(grid: Grid, top: int, below: int)
    requires
        grid.wf(),
        0 <= top <= below <= grid.height(),
        forall|y: int| 0 <= y < grid.height() ==> (grid.row_full(y) <==> top <= y < below),
    ensures
        grid.full_rows() == below - top,
        grid.cleared().wf(),
        grid.cleared().height() == grid.height(),
        forall|y: int| 0 <= y < below - top ==> #[trigger] grid.cleared().rows[y] == empty_row(grid.width),
        forall|y: int| 0 <= y < top ==> #[trigger] grid.cleared().rows[y + (below - top)] == grid.rows[y],
        forall|y: int| below <= y < grid.height() ==> #[trigger] grid.cleared().rows[y] == grid.rows[y],
{
    let h = grid.height();
    let above = grid.rows.subrange(0, top);
    let block = grid.rows.subrange(top, below);
    let under = grid.rows.subrange(below, h);
    assert(grid.rows =~= above + block + under);
    Seq::filter_distributes_over_add(above + block, under, kept());
    Seq::filter_distributes_over_add(above, block, kept());
    lemma_filter_all_or_none(above);
    lemma_filter_all_or_none(block);
    lemma_filter_all_or_none(under);
    assert forall|i: int| 0 <= i < above.len() implies !row_is_full(#[trigger] above[i]) by {
        assert(!grid.row_full(i));
    }
    assert forall|i: int| 0 <= i < block.len() implies row_is_full(#[trigger] block[i]) by {
        assert(grid.row_full(top + i));
    }
    assert forall|i: int| 0 <= i < under.len() implies !row_is_full(#[trigger] under[i]) by {
        assert(!grid.row_full(below + i));
    }
    assert(grid.rows.filter(kept()) =~= above + under);
}

/// Clearing a field with exactly one full row, row `y`, clears one row: the
/// top row becomes empty, every row that was above `y` lies one row lower,
/// tiles and colors alike, and the rows under `y` stay where they were.
pub proof fn lemma_clear_single_full_row(grid: Grid, y: int)
    requires
        grid.wf(),
        0 <= y < grid.height(),
        forall|r: int| 0 <= r < grid.height() ==> (grid.row_full(r) <==> r == y),
    ensures
        grid.full_rows() == 1,
        grid.cleared() == grid.collapsed(y),
        grid.cleared().rows[0] == empty_row(grid.width),
        forall|r: int| 0 <= r < y ==> #[trigger] grid.cleared().rows[r + 1] == grid.rows[r],
        forall|r: int| y < r < grid.height() ==> #[trigger] grid.cleared().rows[r] == grid.rows[r],
{
    lemma_clear_block_of_full_rows(grid, y, y + 1);
    assert(grid.cleared().rows[0] == empty_row(grid.width));
    assert forall|r: int| 0 <= r < grid.height() implies #[trigger] grid.cleared().rows[r]
        == grid.collapsed(y).rows[r] by {
        if 1 <= r <= y {
            assert(grid.cleared().rows[(r - 1) + 1] == grid.rows[r - 1]);
        }
    }
    assert(grid.cleared().rows =~= grid.collapsed(y).rows);
}

/// After a clearing no row is full, and the field keeps its size.
pub proof fn lemma_cleared_has_no_full_row(grid: Grid)
    requires
        grid.wf(),
    ensures
        grid.cleared().wf(),
        grid.cleared().width == grid.width,
        grid.cleared().height() == grid.height(),
        grid.full_rows() <= grid.height(),
        forall|y: int| 0 <= y < grid.height() ==> !grid.cleared().row_full(y),
{
    let rest = grid.rows.filter(kept());
    let n = grid.full_rows() as int;
    grid.rows.lemma_filter_len(kept());
    assert forall|y: int| 0 <= y < grid.cleared().rows.len() implies (
    #[trigger] grid.cleared().rows[y]).len() == grid.width && !row_is_full(grid.cleared().rows[y]) by {
        if y < n {
            assert(!empty_row(grid.width)[0].filled);
        } else {
            assert(grid.cleared().rows[y] == rest[y - n]);
            assert(rest.contains(rest[y - n]));
            grid.rows.lemma_filter_pred(kept(), y - n);
            grid.rows.lemma_filter_contains_rev(kept(), rest[y - n]);
            let k = choose|k: int| 0 <= k < grid.rows.len() && grid.rows[k] == rest[y - n];
            assert(grid.rows[k].len() == grid.width);
        }
    }
}

/// How many of four cells lie above row `n`.
spec fn cells_above(cells: Seq<(int, int)>, n: int) -> int {
    (if cells[0].1 < n { 1int } else { 0int }) + (if cells[1].1 < n { 1int } else { 0int }) + (if cells[2].1 < n {
        1int
    } else {
        0int
    }) + (if cells[3].1 < n { 1int } else { 0int })
}

/// Among the first `n` rows of a field that had no full row before four
/// cells were locked, no more rows are full than cells lie in them.
proof fn lemma_full_rows_hold_cells(grid: Grid, cells: Seq<(int, int)>, color: Color, n: int)
    requires
        grid.wf(),
        cells.len() == 4,
        0 <= n <= grid.height(),
        forall|y: int| 0 <= y < grid.height() ==> !grid.row_full(y),
    ensures
        n - grid.locked(cells, color).rows.take(n).filter(kept()).len() <= cells_above(cells, n),
    decreases n,
{
    let after = grid.locked(cells, color);
    if n == 0 {
        assert(after.rows.take(0).len() == 0);
        after.rows.take(0).lemma_filter_len(kept());
    } else {
        lemma_full_rows_hold_cells(grid, cells, color, n - 1);
        let head = after.rows.take(n - 1);
        let row = after.rows[n - 1];
        assert(after.rows.take(n) =~= head.push(row));
        head.lemma_filter_push(row, kept());
        if row_is_full(row) {
            assert(!grid.row_full(n - 1));
            let x = choose|x: int| 0 <= x < grid.rows[n - 1].len() && !(#[trigger] grid.rows[n - 1][x]).filled;
            assert(row[x].filled);
            assert(cells.contains((x, n - 1)));
            let i = choose|i: int| 0 <= i < cells.len() && cells[i] == (x, n - 1);
            assert(cells[i].1 == n - 1);
        }
    }
}

/// Locking four cells into a field that has no full row completes at most
/// four rows.
pub proof fn lemma_lock_completes_at_most_four_rows(grid: Grid, cells: Seq<(int, int)>, color: Color)
    requires
        grid.wf(),
        cells.len() == 4,
        forall|y: int| 0 <= y < grid.height() ==> !grid.row_full(y),
    ensures
        grid.locked(cells, color).full_rows() <= 4,
{
    let after = grid.locked(cells, color);
    lemma_full_rows_hold_cells(grid, cells, color, grid.height());
    assert(after.rows.take(grid.height()) =~= after.rows);
}

} // verus!
