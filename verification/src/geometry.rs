//! Lattice points, directions, quarter-turn rotations and the seven shapes.

use vstd::prelude::*;
use vstd::std_specs::ops::AddSpecImpl;
use vstd::std_specs::ops::SubSpecImpl;

verus! {

/// A palette index.
#[derive(Clone, Copy, Default, Debug, PartialEq, Eq, Structural)]
pub struct Color {
    pub c: u8,
}

/// A lattice coordinate. `x` grows to the right, `y` grows towards the bottom row.
#[derive(Debug, Default, PartialEq, Eq, Structural, Clone, Copy)]
pub struct Point {
    pub x: i32,
    pub y: i32,
}

#[derive(PartialEq, Eq, Structural, Clone, Copy, Debug)]
pub enum Direction {
    Left,
    Right,
    Up,
    Down,
}

impl Direction {
    /// The unit step of a direction. `Up` raises `y` and `Down` lowers it.
    pub open spec fn delta(self) -> (int, int) {
        match self {
            Direction::Left => (-1, 0),
            Direction::Right => (1, 0),
            Direction::Up => (0, 1),
            Direction::Down => (0, -1),
        }
    }
}

/// Whether `v` can be stored in an `i32`.
pub open spec fn fits_i32(v: int) -> bool {
    i32::MIN <= v <= i32::MAX
}

impl Point {
    pub fn from(x: i32, y: i32) -> (p: Self)
        ensures
            p.x == x,
            p.y == y,
    {
        Point { x, y }
    }

    /// The point as a pair of mathematical integers.
    pub open spec fn pair(self) -> (int, int) {
        (self.x as int, self.y as int)
    }

    /// Moves the point one unit step in direction `dir`.
    pub fn mov(&mut self, dir: &Direction)
        requires
            fits_i32(old(self).x + dir.delta().0),
            fits_i32(old(self).y + dir.delta().1),
        ensures
            final(self).x == old(self).x + dir.delta().0,
            final(self).y == old(self).y + dir.delta().1,
    {
        match dir {
            Direction::Left => *self = *self + (-1i32, 0i32),
            Direction::Right => *self = *self + (1i32, 0i32),
            Direction::Up => *self = *self + (0i32, 1i32),
            Direction::Down => *self = *self + (0i32, -1i32),
        }
    }
}

impl core::ops::Add for Point {
    type Output = Point;

    fn add(self, other: Point) -> (sum: Point) {
        Point { x: self.x + other.x, y: self.y + other.y }
    }
}

impl AddSpecImpl for Point {
    open spec fn obeys_add_spec() -> bool {
        true
    }

    open spec fn add_req(self, other: Point) -> bool {
        fits_i32(self.x + other.x) && fits_i32(self.y + other.y)
    }

    open spec fn add_spec(self, other: Point) -> Point {
        Point { x: (self.x + other.x) as i32, y: (self.y + other.y) as i32 }
    }
}

impl core::ops::Add<(i32, i32)> for Point {
    type Output = Point;

    fn add(self, other: (i32, i32)) -> (sum: Point) {
        Point { x: self.x + other.0, y: self.y + other.1 }
    }
}

impl AddSpecImpl<(i32, i32)> for Point {
    open spec fn obeys_add_spec() -> bool {
        true
    }

    open spec fn add_req(self, other: (i32, i32)) -> bool {
        fits_i32(self.x + other.0) && fits_i32(self.y + other.1)
    }

    open spec fn add_spec(self, other: (i32, i32)) -> Point {
        Point { x: (self.x + other.0) as i32, y: (self.y + other.1) as i32 }
    }
}

impl core::ops::Sub for Point {
    type Output = Point;

    fn sub(self, other: Point) -> (diff: Point) {
        Point { x: self.x - other.x, y: self.y - other.y }
    }
}

impl SubSpecImpl for Point {
    open spec fn obeys_sub_spec() -> bool {
        true
    }

    open spec fn sub_req(self, other: Point) -> bool {
        fits_i32(self.x - other.x) && fits_i32(self.y - other.y)
    }

    open spec fn sub_spec(self, other: Point) -> Point {
        Point { x: (self.x - other.x) as i32, y: (self.y - other.y) as i32 }
    }
}

/// A quarter-turn orientation.
#[derive(Default, Clone, Copy, PartialEq, Eq, Structural, Debug)]
pub enum Rotation {
    #[default]
    Deg0,
    Deg90,
    Deg180,
    Deg270,
}

impl Rotation {
    /// The orientation one quarter turn to the right.
    pub open spec fn succ(self) -> Rotation {
        match self {
            Rotation::Deg0 => Rotation::Deg90,
            Rotation::Deg90 => Rotation::Deg180,
            Rotation::Deg180 => Rotation::Deg270,
            Rotation::Deg270 => Rotation::Deg0,
        }
    }

    /// The orientation one quarter turn to the left.
    pub open spec fn pred(self) -> Rotation {
        match self {
            Rotation::Deg0 => Rotation::Deg270,
            Rotation::Deg90 => Rotation::Deg0,
            Rotation::Deg180 => Rotation::Deg90,
            Rotation::Deg270 => Rotation::Deg180,
        }
    }

    /// The orientation after a turn towards `d`. Only `Right` and `Left` turn.
    pub open spec fn turned(self, d: Direction) -> Rotation {
        match d {
            Direction::Right => self.succ(),
            Direction::Left => self.pred(),
            _ => self,
        }
    }

    /// The image of the offset `p` under this orientation.
    pub open spec fn apply(self, p: (int, int)) -> (int, int) {
        match self {
            Rotation::Deg0 => p,
            Rotation::Deg90 => (p.1, -p.0),
            Rotation::Deg180 => (-p.0, -p.1),
            Rotation::Deg270 => (-p.1, p.0),
        }
    }

    pub fn rotate(&mut self, d: &Direction)
        ensures
            *final(self) == old(self).turned(*d),
    {
        match self {
            Rotation::Deg0 => {
                if *d == Direction::Right {
                    *self = Rotation::Deg90;
                } else if *d == Direction::Left {
                    *self = Rotation::Deg270;
                }
            },
            Rotation::Deg90 => {
                if *d == Direction::Right {
                    *self = Rotation::Deg180;
                } else if *d == Direction::Left {
                    *self = Rotation::Deg0;
                }
            },
            Rotation::Deg180 => {
                if *d == Direction::Right {
                    *self = Rotation::Deg270;
                } else if *d == Direction::Left {
                    *self = Rotation::Deg90;
                }
            },
            Rotation::Deg270 => {
                if *d == Direction::Right {
                    *self = Rotation::Deg0;
                } else if *d == Direction::Left {
                    *self = Rotation::Deg180;
                }
            },
        }
    }
}

/// Four right turns, and likewise four left turns, restore every orientation,
/// and a left turn undoes a right turn.
pub proof fn lemma_rotation_has_order_four(r: Rotation)
    ensures
        r.turned(Direction::Right).turned(Direction::Right).turned(Direction::Right).turned(
            Direction::Right,
        ) == r,
        r.turned(Direction::Left).turned(Direction::Left).turned(Direction::Left).turned(
            Direction::Left,
        ) == r,
        r.turned(Direction::Right).turned(Direction::Left) == r,
        r.turned(Direction::Left).turned(Direction::Right) == r,
        r.turned(Direction::Right) != r,
        r.turned(Direction::Right).turned(Direction::Right) != r,
        r.turned(Direction::Right).turned(Direction::Right).turned(Direction::Right) != r,
{
}

/// Turning right composes one more quarter turn onto the transform, so the
/// four orientations act on offsets as the cyclic group of order four.
pub proof fn lemma_turn_composes(r: Rotation, p: (int, int))
    ensures
        r.turned(Direction::Right).apply(p) == Rotation::Deg90.apply(r.apply(p)),
        r.turned(Direction::Left).apply(p) == Rotation::Deg270.apply(r.apply(p)),
        Rotation::Deg90.apply(Rotation::Deg90.apply(Rotation::Deg90.apply(Rotation::Deg90.apply(p))))
            == p,
{
}

/// The seven piece kinds.
#[derive(Clone, Copy, Default, PartialEq, Eq, Structural, Debug)]
pub enum TetrominoVariant {
    #[default]
    I,
    J,
    L,
    O,
    S,
    T,
    Z,
}

impl TetrominoVariant {
    /// The position of the kind in the order I, J, L, O, S, T, Z.
    pub open spec fn index(self) -> int {
        match self {
            TetrominoVariant::I => 0,
            TetrominoVariant::J => 1,
            TetrominoVariant::L => 2,
            TetrominoVariant::O => 3,
            TetrominoVariant::S => 4,
            TetrominoVariant::T => 5,
            TetrominoVariant::Z => 6,
        }
    }

    /// The four offsets that the kind occupies around its center, unrotated.
    pub open spec fn shape(self) -> Seq<(int, int)> {
        match self {
            TetrominoVariant::I => seq![(-1int, 0int), (0int, 0int), (1int, 0int), (2int, 0int)],
            TetrominoVariant::J => seq![(-1int, 0int), (-1int, 1int), (0int, 0int), (1int, 0int)],
            TetrominoVariant::L => seq![(-1int, 0int), (0int, 0int), (1int, 0int), (1int, 1int)],
            TetrominoVariant::O => seq![(0int, 0int), (0int, 1int), (1int, 0int), (1int, 1int)],
            TetrominoVariant::S => seq![(0int, 0int), (1int, 0int), (-1int, 1int), (0int, 1int)],
            TetrominoVariant::T => seq![(-1int, 0int), (0int, 0int), (1int, 0int), (0int, 1int)],
            TetrominoVariant::Z => seq![(-1int, 0int), (0int, 0int), (0int, 1int), (1int, 1int)],
        }
    }

    pub fn to_index(self) -> (i: usize)
        ensures
            i == self.index(),
    {
        match self {
            TetrominoVariant::I => 0,
            TetrominoVariant::J => 1,
            TetrominoVariant::L => 2,
            TetrominoVariant::O => 3,
            TetrominoVariant::S => 4,
            TetrominoVariant::T => 5,
            TetrominoVariant::Z => 6,
        }
    }

    pub fn by_index(i: usize) -> (kind: Self)
        requires
            i < 7,
        ensures
            kind.index() == i,
    {
        if i == 0 {
            TetrominoVariant::I
        } else if i == 1 {
            TetrominoVariant::J
        } else if i == 2 {
            TetrominoVariant::L
        } else if i == 3 {
            TetrominoVariant::O
        } else if i == 4 {
            TetrominoVariant::S
        } else if i == 5 {
            TetrominoVariant::T
        } else {
            TetrominoVariant::Z
        }
    }

    /// A kind drawn by the thread's random generator.
    pub fn random() -> (kind: Self) {
        TetrominoVariant::by_index(random_below(7))
    }
}

/// The offsets of a kind are four different points, each at most two steps
/// from the origin.
pub proof fn lemma_shape_distinct(kind: TetrominoVariant)
    ensures
        kind.shape().len() == 4,
        forall|i: int, j: int| 0 <= i < j < 4 ==> kind.shape()[i] != kind.shape()[j],
        forall|i: int|
            0 <= i < 4 ==> -1 <= (#[trigger] kind.shape()[i]).0 <= 2 && 0 <= kind.shape()[i].1 <= 1,
{
    let s = kind.shape();
    match kind {
        TetrominoVariant::I => {
            assert(s[0] == (-1int, 0int) && s[1] == (0int, 0int) && s[2] == (1int, 0int) && s[3] == (
                2int,
                0int,
            ));
        },
        TetrominoVariant::J => {
            assert(s[0] == (-1int, 0int) && s[1] == (-1int, 1int) && s[2] == (0int, 0int) && s[3]
                == (1int, 0int));
        },
        TetrominoVariant::L => {
            assert(s[0] == (-1int, 0int) && s[1] == (0int, 0int) && s[2] == (1int, 0int) && s[3] == (
                1int,
                1int,
            ));
        },
        TetrominoVariant::O => {
            assert(s[0] == (0int, 0int) && s[1] == (0int, 1int) && s[2] == (1int, 0int) && s[3] == (
                1int,
                1int,
            ));
        },
        TetrominoVariant::S => {
            assert(s[0] == (0int, 0int) && s[1] == (1int, 0int) && s[2] == (-1int, 1int) && s[3] == (
                0int,
                1int,
            ));
        },
        TetrominoVariant::T => {
            assert(s[0] == (-1int, 0int) && s[1] == (0int, 0int) && s[2] == (1int, 0int) && s[3] == (
                0int,
                1int,
            ));
        },
        TetrominoVariant::Z => {
            assert(s[0] == (-1int, 0int) && s[1] == (0int, 0int) && s[2] == (0int, 1int) && s[3] == (
                1int,
                1int,
            ));
        },
    }
}

/// Calls `rand::random_range` on the range from 0 up to, not including,
/// `bound`. The range must not be empty; the value drawn lies in it. Which
/// value comes is left open.
#[verifier::external_body]
fn random_below(bound: usize) -> (r: usize)
    requires
        bound > 0,
    ensures
        r < bound,
{
    rand::random_range(0..bound)
}

/// The kind's four offsets as points. Every offset lies within two steps of the origin.
pub fn shape_of(kind: TetrominoVariant) -> (pts: [Point; 4])
    ensures
        forall|i: int| 0 <= i < 4 ==> (#[trigger] pts[i]).pair() == kind.shape()[i],
        forall|i: int|
            0 <= i < 4 ==> -1 <= (#[trigger] kind.shape()[i]).0 <= 2 && 0 <= kind.shape()[i].1 <= 1,
{
    match kind {
        TetrominoVariant::I => [
            Point { x: -1, y: 0 },
            Point { x: 0, y: 0 },
            Point { x: 1, y: 0 },
            Point { x: 2, y: 0 },
        ],
        TetrominoVariant::J => [
            Point { x: -1, y: 0 },
            Point { x: -1, y: 1 },
            Point { x: 0, y: 0 },
            Point { x: 1, y: 0 },
        ],
        TetrominoVariant::L => [
            Point { x: -1, y: 0 },
            Point { x: 0, y: 0 },
            Point { x: 1, y: 0 },
            Point { x: 1, y: 1 },
        ],
        TetrominoVariant::O => [
            Point { x: 0, y: 0 },
            Point { x: 0, y: 1 },
            Point { x: 1, y: 0 },
            Point { x: 1, y: 1 },
        ],
        TetrominoVariant::S => [
            Point { x: 0, y: 0 },
            Point { x: 1, y: 0 },
            Point { x: -1, y: 1 },
            Point { x: 0, y: 1 },
        ],
        TetrominoVariant::T => [
            Point { x: -1, y: 0 },
            Point { x: 0, y: 0 },
            Point { x: 1, y: 0 },
            Point { x: 0, y: 1 },
        ],
        TetrominoVariant::Z => [
            Point { x: -1, y: 0 },
            Point { x: 0, y: 0 },
            Point { x: 0, y: 1 },
            Point { x: 1, y: 1 },
        ],
    }
}

} // verus!
