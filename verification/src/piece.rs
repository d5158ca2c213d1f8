//! A positioned, rotated instance of one of the seven shapes.

use crate::board::Board;
use crate::geometry::fits_i32;
use crate::geometry::lemma_rotation_has_order_four;
use crate::geometry::lemma_shape_distinct;
use crate::geometry::shape_of;
use crate::geometry::Color;
use crate::geometry::Direction;
use crate::geometry::Point;
use crate::geometry::Rotation;
use crate::geometry::TetrominoVariant;
use vstd::prelude::*;

verus! {

/// The falling piece. The cells it occupies are derived from kind, rotation
/// and center each time they are asked for.
#[derive(Default, Clone, Copy)]
pub struct Tetromino {
    pub variant: TetrominoVariant,
    pub center: Point,
    pub rotation: Rotation,
    pub color: Color,
}

/// The palette index that a kind is drawn with.
pub open spec fn kind_color(kind: TetrominoVariant) -> Color {
    Color { c: (9 + kind.index()) as u8 }
}

/// The unrotated piece of the given kind centered at `(x, y)`.
pub open spec fn spawned(kind: TetrominoVariant, x: i32, y: i32) -> Tetromino {
    Tetromino {
        variant: kind,
        center: Point { x, y },
        rotation: Rotation::Deg0,
        color: kind_color(kind),
    }
}

impl Tetromino {
    /// The `i`-th occupied cell: the kind's `i`-th offset, rotated, then
    /// shifted by the center.
    pub open spec fn cell(self, i: int) -> (int, int) {
        let o = self.rotation.apply(self.variant.shape()[i]);
        (self.center.x + o.0, self.center.y + o.1)
    }

    /// The four occupied cells.
    pub open spec fn cells(self) -> Seq<(int, int)> {
        Seq::new(4, |i: int| self.cell(i))
    }

    /// Whether every occupied cell has coordinates that fit the machine integers.
    pub open spec fn representable(self) -> bool {
        forall|i: int| 0 <= i < 4 ==> fits_i32((#[trigger] self.cell(i)).0) && fits_i32(self.cell(i).1)
    }

    /// The piece shifted by `(dx, dy)`.
    pub open spec fn shifted(self, dx: int, dy: int) -> Tetromino {
        Tetromino {
            center: Point { x: (self.center.x + dx) as i32, y: (self.center.y + dy) as i32 },
            ..self
        }
    }

    /// The piece turned one quarter towards `dir`.
    pub open spec fn turned(self, dir: Direction) -> Tetromino {
        Tetromino { rotation: self.rotation.turned(dir), ..self }
    }

    /// A piece of a random kind at `(x, y)`.
    pub fn random(x: i32, y: i32) -> (t: Self)
        ensures
            t == spawned(t.variant, x, y),
    {
        let variant = TetrominoVariant::random();
        Tetromino::new(variant, x, y)
    }

    pub fn new(variant: TetrominoVariant, x: i32, y: i32) -> (t: Self)
        ensures
            t == spawned(variant, x, y),
    {
        let index: usize = variant.to_index();
        Self {
            variant,
            center: Point { x, y },
            rotation: Rotation::Deg0,
            color: Color { c: 9 + index as u8 },
        }
    }

    pub fn points(&self) -> (pts: [Point; 4])
        requires
            self.representable(),
        ensures
            forall|i: int| 0 <= i < 4 ==> (#[trigger] pts[i]).pair() == self.cell(i),
            pts@.map_values(|p: Point| p.pair()) == self.cells(),
    {
        let mut tet = shape_of(self.variant);
        let ghost shape = tet;
        let mut i: usize = 0;
        while i < 4
            invariant
                i <= 4,
                self.representable(),
                forall|k: int| 0 <= k < 4 ==> (#[trigger] shape[k]).pair() == self.variant.shape()[k],
                forall|k: int|
                    0 <= k < 4 ==> -1 <= (#[trigger] self.variant.shape()[k]).0 <= 2 && 0
                        <= self.variant.shape()[k].1 <= 1,
                forall|k: int| 0 <= k < i ==> (#[trigger] tet[k]).pair() == self.cell(k),
                forall|k: int| i <= k < 4 ==> tet[k] == shape[k],
            decreases 4 - i,
        {
            let p_prev = tet[i];
            let mut p = p_prev;
            match self.rotation {
                Rotation::Deg0 => (),
                Rotation::Deg90 => {
                    p.x = p_prev.y;
                    p.y = -p_prev.x;
                },
                Rotation::Deg180 => {
                    p.x = -p_prev.x;
                    p.y = -p_prev.y;
                },
                Rotation::Deg270 => {
                    p.x = -p_prev.y;
                    p.y = p_prev.x;
                },
            }
            assert(p.pair() == self.rotation.apply(self.variant.shape()[i as int]));
            assert(fits_i32(self.cell(i as int).0) && fits_i32(self.cell(i as int).1));
            tet[i] = p + self.center;
            i += 1;
        }
        assert(tet@.map_values(|p: Point| p.pair()) =~= self.cells());
        tet
    }

    pub fn fall(&mut self)
        requires
            fits_i32(old(self).center.y + 1),
        ensures
            *final(self) == old(self).shifted(0, 1),
    {
        self.center = self.center + (0i32, 1i32);
    }

    /// Whether the piece cannot stand where it is: one of its cells is off
    /// the field, above the top row included, or on a filled tile.
    pub fn collides(&self, board: &Board) -> (hit: bool)
        requires
            self.representable(),
            board.wf(),
        ensures
            hit == board@.collides(self.cells()),
    {
        let pts = self.points();
        let height = board.height();
        let width = board.width();
        let mut i: usize = 0;
        while i < 4
            invariant
                i <= 4,
                board.wf(),
                height == board@.height(),
                width == board@.width,
                forall|k: int| 0 <= k < 4 ==> (#[trigger] pts[k]).pair() == self.cell(k),
                forall|k: int| 0 <= k < i ==> !board@.blocked(self.cell(k).0, self.cell(k).1),
            decreases 4 - i,
        {
            let p = pts[i];
            proof {
                assert(self.cells()[i as int] == self.cell(i as int));
            }
            if p.y < 0 {
                return true;
            }
            if p.y >= height {
                return true;
            }
            if p.x < 0 {
                return true;
            }
            if p.x >= width {
                return true;
            }
            if board.get_tile(p).filled {
                return true;
            }
            i += 1;
        }
        proof {
            assert forall|k: int| 0 <= k < self.cells().len() implies !board@.blocked(
                (#[trigger] self.cells()[k]).0,
                self.cells()[k].1,
            ) by {
                assert(self.cells()[k] == self.cell(k));
            }
        }
        false
    }

    /// Turns the piece one quarter towards `dir`; always reports success.
    pub fn rotate(&mut self, dir: &Direction) -> (done: bool)
        ensures
            done,
            *final(self) == old(self).turned(*dir),
    {
        self.rotation.rotate(dir);
        true
    }

    /// Moves the piece one unit step towards `dir`; always reports success.
    pub fn mov(&mut self, dir: &Direction) -> (done: bool)
        requires
            fits_i32(old(self).center.x + dir.delta().0),
            fits_i32(old(self).center.y + dir.delta().1),
        ensures
            done,
            *final(self) == old(self).shifted(dir.delta().0, dir.delta().1),
    {
        self.center.mov(dir);
        true
    }

    pub fn offset(&mut self, dx: i32, dy: i32)
        requires
            fits_i32(old(self).center.x + dx),
            fits_i32(old(self).center.y + dy),
        ensures
            *final(self) == old(self).shifted(dx as int, dy as int),
    {
        self.center.x += dx;
        self.center.y += dy;
    }
}

/// A piece occupies four different cells, each within two steps of its center.
pub proof fn lemma_cells_distinct(t: Tetromino)
    ensures
        forall|i: int, j: int| 0 <= i < j < 4 ==> t.cell(i) != t.cell(j),
        forall|i: int|
            0 <= i < 4 ==> t.center.x - 2 <= (#[trigger] t.cell(i)).0 <= t.center.x + 2
                && t.center.y - 2 <= t.cell(i).1 <= t.center.y + 2,
{
    lemma_shape_distinct(t.variant);
    let s = t.variant.shape();
    assert forall|i: int, j: int| 0 <= i < j < 4 implies t.cell(i) != t.cell(j) by {
        assert(s[i] != s[j]);
        assert(t.rotation.apply(s[i]) != t.rotation.apply(s[j]));
    }
    assert forall|i: int| 0 <= i < 4 implies t.center.x - 2 <= (#[trigger] t.cell(i)).0
        <= t.center.x + 2 && t.center.y - 2 <= t.cell(i).1 <= t.center.y + 2 by {
        assert(-1 <= s[i].0 <= 2 && 0 <= s[i].1 <= 1);
    }
}

/// Four quarter turns to the right, and likewise to the left, bring a piece
/// back to the rotation and to the cells it had, and a turn to the left
/// undoes a turn to the right.
pub proof fn lemma_four_turns_restore(t: Tetromino)
    ensures
        t.turned(Direction::Right).turned(Direction::Right).turned(Direction::Right).turned(
            Direction::Right,
        ) == t,
        t.turned(Direction::Right).turned(Direction::Right).turned(Direction::Right).turned(
            Direction::Right,
        ).cells() == t.cells(),
        t.turned(Direction::Left).turned(Direction::Left).turned(Direction::Left).turned(
            Direction::Left,
        ) == t,
        t.turned(Direction::Right).turned(Direction::Left) == t,
        t.turned(Direction::Left).turned(Direction::Right) == t,
{
    lemma_rotation_has_order_four(t.rotation);
}

} // verus!
