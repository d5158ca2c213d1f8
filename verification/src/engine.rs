//! The game: a board, the falling piece, the randomizer and the counters,
//! with the rules for moving, turning, landing, scoring and ending.

use crate::bag::draws;
use crate::bag::is_full_set;
use crate::bag::lemma_full_set;
use crate::bag::Bag;
use crate::board::Board;
use crate::board::empty_tile;
use crate::board::Grid;
use crate::geometry::Color;
use crate::geometry::lemma_shape_distinct;
use crate::geometry::Direction;
use crate::geometry::Point;
use crate::geometry::TetrominoVariant;
use crate::piece::lemma_cells_distinct;
use crate::piece::spawned;
use crate::piece::Tetromino;
use vstd::prelude::*;

verus! {

#[derive(PartialEq, Eq, Structural, Clone, Copy, Debug)]
pub enum GameState {
    Running,
    Paused,
    GameOver,
}

/// The points that clearing `n` rows at once is worth at level one.
pub open spec fn line_points(n: int) -> int {
    if n == 1 {
        100
    } else if n == 2 {
        300
    } else if n == 3 {
        500
    } else if n == 4 {
        800
    } else {
        0
    }
}

/// The level that `lines` cleared rows amount to.
pub open spec fn level_of(lines: int) -> int {
    lines / 10 + 1
}

/// The milliseconds between two gravity steps at `level`.
pub open spec fn tick_rate_of(level: int) -> int {
    if 500 - 40 * (level - 1) >= 100 {
        500 - 40 * (level - 1)
    } else {
        100
    }
}

/// The offsets that a turn tries, in this order, when the turned piece collides.
pub open spec fn kicks() -> Seq<(int, int)> {
    seq![(1int, 0int), (-1int, 0int), (0int, -1int), (2int, 0int), (-2int, 0int)]
}

/// Whether `p` can stand on `grid`: none of its cells is off the field or
/// on a filled tile.
pub open spec fn fits(grid: Grid, p: Tetromino) -> bool {
    !grid.collides(p.cells())
}

/// The turned piece `t` moved by the first of the kicks from number `i` on
/// with which it fits, if there is one.
pub open spec fn first_kick(grid: Grid, t: Tetromino, i: int) -> Option<Tetromino>
    decreases 5 - i,
{
    if i < 0 || i >= 5 {
        None
    } else {
        let k = t.shifted(kicks()[i].0, kicks()[i].1);
        if fits(grid, k) {
            Some(k)
        } else {
            first_kick(grid, t, i + 1)
        }
    }
}

/// Where the turned piece `t` comes to stand: where it is if it fits there,
/// else at the first kick with which it fits, else nowhere.
pub open spec fn kicked(grid: Grid, t: Tetromino) -> Option<Tetromino> {
    if fits(grid, t) {
        Some(t)
    } else {
        first_kick(grid, t, 0)
    }
}

/// Where `p` comes to rest when it falls until the next step down would collide.
pub open spec fn landing(grid: Grid, p: Tetromino) -> Tetromino
    decreases i32::MAX - p.center.y,
{
    if p.center.y >= i32::MAX || !fits(grid, p.shifted(0, 1)) {
        p
    } else {
        landing(grid, p.shifted(0, 1))
    }
}

/// Whether the center of `p` is within two columns of the field, at most
/// two rows above it and at most three below.
pub open spec fn near(grid: Grid, p: Tetromino) -> bool {
    -2 <= p.center.x <= grid.width + 1 && -2 <= p.center.y <= grid.height() + 2
}

/// The piece of kind `kind` where it enters a field of the given width.
pub open spec fn entering(kind: TetrominoVariant, width: int) -> Tetromino {
    spawned(kind, (width / 2) as i32, 0)
}

/// The mathematical model of a game.
pub struct Game {
    pub phase: GameState,
    pub grid: Grid,
    pub piece: Tetromino,
    pub queue: Seq<TetrominoVariant>,
    pub score: int,
    pub high_score: int,
    pub lines: int,
    pub level: int,
}

impl Game {
    pub open spec fn wf(self) -> bool {
        &&& self.grid.wf()
        &&& self.grid.width * self.grid.height() <= i32::MAX
        &&& near(self.grid, self.piece)
        &&& self.queue.no_duplicates()
        &&& 0 <= self.score <= self.high_score <= u32::MAX
        &&& 0 <= self.lines <= u32::MAX
        &&& self.level == level_of(self.lines)
    }

    /// The game as it opens: paused, on a blank field, with the first piece
    /// entering and all counters at their start.
    pub open spec fn opening(
        width: int,
        height: int,
        high_score: int,
        kind: TetrominoVariant,
        queue: Seq<TetrominoVariant>,
    ) -> Game {
        Game {
            phase: GameState::Paused,
            grid: Grid::blank(width, height),
            piece: entering(kind, width),
            queue,
            score: 0,
            high_score,
            lines: 0,
            level: 1,
        }
    }

    pub open spec fn with_piece(self, piece: Tetromino) -> Game {
        Game { piece, ..self }
    }

    pub open spec fn with_phase(self, phase: GameState) -> Game {
        Game { phase, ..self }
    }

    /// Whether the falling piece stands free.
    pub open spec fn settled(self) -> bool {
        fits(self.grid, self.piece)
    }

    /// Whether the counters leave room for the reward of one more landing.
    pub open spec fn headroom(self) -> bool {
        self.lines + self.grid.height() <= u32::MAX && self.score + 800 * self.level <= u32::MAX
    }

    /// Whether a landing of the falling piece is in order: in a running game
    /// a piece that cannot fall further lies on the field.
    pub open spec fn can_land(self) -> bool {
        self.phase == GameState::Running && !fits(self.grid, self.piece.shifted(0, 1))
            ==> self.grid.contains_all(self.piece.cells())
    }

    /// The piece that a request to turn towards `rot` and then to step
    /// towards `mov` puts in place of the falling piece, if the request is
    /// accepted. A turn that fits at no kick rejects the whole request, and
    /// so does a step that collides.
    pub open spec fn moved(self, mov: Option<Direction>, rot: Option<Direction>) -> Option<
        Tetromino,
    > {
        let turned = match rot {
            Some(r) => kicked(self.grid, self.piece.turned(r)),
            None => Some(self.piece),
        };
        match (turned, mov) {
            (Some(t), Some(m)) => {
                let stepped = t.shifted(m.delta().0, m.delta().1);
                if fits(self.grid, stepped) {
                    Some(stepped)
                } else {
                    None
                }
            },
            (Some(t), None) => Some(t),
            (None, _) => None,
        }
    }

    /// Whether a request to turn and step is accepted: the game is running
    /// and the request can be met as a whole.
    pub open spec fn accepts(self, mov: Option<Direction>, rot: Option<Direction>) -> bool {
        self.phase == GameState::Running && self.moved(mov, rot) is Some
    }

    /// The game after a request to turn and step: with the piece turned and
    /// stepped if the request is accepted, else as it was.
    pub open spec fn after_move(self, mov: Option<Direction>, rot: Option<Direction>) -> Game {
        if self.accepts(mov, rot) {
            self.with_piece(self.moved(mov, rot)->0)
        } else {
            self
        }
    }

    /// Where the falling piece would rest if it were dropped now. A piece
    /// that collides where it is counts as resting one row higher.
    pub open spec fn preview(self) -> Tetromino {
        if fits(self.grid, self.piece) {
            landing(self.grid, self.piece)
        } else {
            self.piece.shifted(0, -1)
        }
    }

    /// The number of rows that locking `piece` clears: none if it overlaps.
    pub open spec fn lines_on_lock(self, piece: Tetromino) -> nat {
        if self.grid.overlaps(piece.cells()) {
            0
        } else {
            self.grid.locked(piece.cells(), piece.color).full_rows()
        }
    }

    /// Whether locking `piece` ends the game when `kind` enters next: the
    /// piece overlaps the stack, or the entering piece collides.
    pub open spec fn ends_on_lock(self, piece: Tetromino, kind: TetrominoVariant) -> bool {
        self.grid.overlaps(piece.cells()) || !fits(
            self.grid.locked(piece.cells(), piece.color).cleared(),
            entering(kind, self.grid.width),
        )
    }

    /// The game after `piece` is locked, with `kind` entering next and
    /// `queue` left in the bag. A piece that overlaps the stack ends the
    /// game and changes nothing but the field. Else the full rows are
    /// cleared and counted, their reward at the level before the landing is
    /// added to the score, the high score follows the score, the level
    /// follows the lines, and the game ends if the entering piece collides.
    pub open spec fn landed(
        self,
        piece: Tetromino,
        kind: TetrominoVariant,
        queue: Seq<TetrominoVariant>,
    ) -> Game {
        let filled = self.grid.locked(piece.cells(), piece.color);
        if self.grid.overlaps(piece.cells()) {
            Game { phase: GameState::GameOver, grid: filled, ..self }
        } else {
            let n = filled.full_rows() as int;
            let score = self.score + line_points(n) * self.level;
            Game {
                phase: if self.ends_on_lock(piece, kind) {
                    GameState::GameOver
                } else {
                    self.phase
                },
                grid: filled.cleared(),
                piece: entering(kind, self.grid.width),
                queue,
                score,
                high_score: if score > self.high_score {
                    score
                } else {
                    self.high_score
                },
                lines: self.lines + n,
                level: level_of(self.lines + n),
            }
        }
    }

    /// The character that shows the cell at `(x, y)` in a plain-text
    /// picture of the game: `x` for a filled tile, the digits 1 to 4 for the
    /// four cells of the falling piece, and a blank for the rest.
    pub open spec fn glyph(self, x: int, y: int) -> char {
        if self.grid.tile(x, y).filled {
            'x'
        } else if self.piece.cell(0) == (x, y) {
            '1'
        } else if self.piece.cell(1) == (x, y) {
            '2'
        } else if self.piece.cell(2) == (x, y) {
            '3'
        } else if self.piece.cell(3) == (x, y) {
            '4'
        } else {
            ' '
        }
    }

    /// Whether a gravity step lands the falling piece.
    pub open spec fn lands_on_tick(self) -> bool {
        self.phase == GameState::Running && !fits(self.grid, self.piece.shifted(0, 1))
    }

    /// The game after a gravity step. Only a running game changes: the
    /// piece falls by one row, and where it cannot, it is locked where it was.
    pub open spec fn ticked(self, kind: TetrominoVariant, queue: Seq<TetrominoVariant>) -> Game {
        let fallen = self.piece.shifted(0, 1);
        if self.phase != GameState::Running {
            self
        } else if fits(self.grid, fallen) {
            self.with_piece(fallen)
        } else {
            self.with_piece(fallen).landed(self.piece, kind, queue)
        }
    }

    /// The game after a hard drop. Only a running game changes: the piece
    /// is locked where it comes to rest.
    pub open spec fn dropped(self, kind: TetrominoVariant, queue: Seq<TetrominoVariant>) -> Game {
        let rest = landing(self.grid, self.piece);
        if self.phase != GameState::Running {
            self
        } else {
            self.with_piece(rest.shifted(0, 1)).landed(rest, kind, queue)
        }
    }
}

/// A piece whose center is within six cells of a field has cells that the
/// machine integers hold.
pub proof fn lemma_near_is_representable(grid: Grid, p: Tetromino)
    requires
        grid.wf(),
        grid.width * grid.height() <= i32::MAX,
        -6 <= p.center.x <= grid.width + 6,
        -6 <= p.center.y <= grid.height() + 6,
    ensures
        p.representable(),
        grid.width + 8 <= i32::MAX,
        grid.height() + 8 <= i32::MAX,
{
    let w = grid.width;
    let h = grid.height();
    assert(4 * w <= w * h && 4 * h <= w * h) by (nonlinear_arith)
        requires
            w >= 4,
            h >= 4,
    ;
    lemma_cells_distinct(p);
}

/// A piece that lies on the field has its center within two cells of it.
pub proof fn lemma_on_field_is_near(grid: Grid, p: Tetromino)
    requires
        grid.wf(),
        grid.contains_all(p.cells()),
    ensures
        near(grid, p),
        p.center.y <= grid.height() + 1,
{
    lemma_cells_distinct(p);
    assert(p.cells()[0] == p.cell(0));
    assert(grid.in_bounds(p.cells()[0].0, p.cells()[0].1));
}

/// A piece that fits lies on the field, with its center within two cells of it.
pub proof fn lemma_fits_is_near(grid: Grid, p: Tetromino)
    requires
        grid.wf(),
        fits(grid, p),
    ensures
        grid.contains_all(p.cells()),
        near(grid, p),
        p.center.y <= grid.height() + 1,
{
    assert forall|i: int| 0 <= i < p.cells().len() implies grid.in_bounds(
        (#[trigger] p.cells()[i]).0,
        p.cells()[i].1,
    ) by {
        assert(!grid.blocked(p.cells()[i].0, p.cells()[i].1));
    }
    lemma_on_field_is_near(grid, p);
}

/// A piece that stands free comes to rest straight below where it stands,
/// or there: the resting place keeps kind, rotation, color and column, it
/// stands free, and one row lower the piece would collide.
pub proof fn lemma_landing_rests(grid: Grid, p: Tetromino)
    requires
        grid.wf(),
        grid.width * grid.height() <= i32::MAX,
        fits(grid, p),
    ensures
        fits(grid, landing(grid, p)),
        !fits(grid, landing(grid, p).shifted(0, 1)),
        landing(grid, p) == p.shifted(0, landing(grid, p).center.y - p.center.y),
        p.center.y <= landing(grid, p).center.y <= grid.height() + 1,
    decreases i32::MAX - p.center.y,
{
    lemma_fits_is_near(grid, p);
    lemma_near_is_representable(grid, p);
    assert(p.shifted(0, 0) == p);
    if fits(grid, p.shifted(0, 1)) {
        let next = p.shifted(0, 1);
        lemma_landing_rests(grid, next);
        lemma_fits_is_near(grid, landing(grid, next));
        let fall = landing(grid, next).center.y - next.center.y;
        assert(next.shifted(0, fall) == p.shifted(0, fall + 1));
    }
}

/// A game whose falling piece stands free is in order for a landing.
pub proof fn lemma_settled_can_land(game: Game)
    requires
        game.grid.wf(),
        game.settled(),
    ensures
        game.can_land(),
{
    lemma_fits_is_near(game.grid, game.piece);
}

/// A request to turn and step takes effect as a whole or not at all: a
/// request that is not accepted leaves the game as it was, the rotation and
/// the center of the falling piece included.
pub proof fn lemma_move_is_all_or_nothing(game: Game, mov: Option<Direction>, rot: Option<Direction>)
    ensures
        !game.accepts(mov, rot) ==> game.after_move(mov, rot) == game,
        game.accepts(mov, rot) ==> game.after_move(mov, rot) == game.with_piece(
            game.moved(mov, rot)->0,
        ),
{
}

/// A turn towards `r` that fits at no kick is rejected, with or without a
/// step. A turn that fits, kicked or not, is still rejected together with a
/// step towards `m` that collides after it. A lone step that collides is
/// rejected. Each time the game is left as it was.
pub proof fn lemma_blocked_request_is_rejected(game: Game, m: Direction, r: Direction)
    ensures
        kicked(game.grid, game.piece.turned(r)) is None ==> !game.accepts(None, Some(r))
            && !game.accepts(Some(m), Some(r)) && game.after_move(Some(m), Some(r)) == game,
        kicked(game.grid, game.piece.turned(r)) is Some && !fits(
            game.grid,
            kicked(game.grid, game.piece.turned(r))->0.shifted(m.delta().0, m.delta().1),
        ) ==> !game.accepts(Some(m), Some(r)) && game.after_move(Some(m), Some(r)) == game,
        !fits(game.grid, game.piece.shifted(m.delta().0, m.delta().1)) ==> !game.accepts(
            Some(m),
            None,
        ) && game.after_move(Some(m), None) == game,
{
}

/// A piece that a request puts in place stands free, unless the request
/// asked for nothing.
pub proof fn lemma_accepted_piece_fits(game: Game, mov: Option<Direction>, rot: Option<Direction>)
    requires
        game.accepts(mov, rot),
        mov is Some || rot is Some,
    ensures
        game.after_move(mov, rot).settled(),
{
    if let Some(r) = rot {
        let t = game.piece.turned(r);
        if !fits(game.grid, t) {
            lemma_first_kick_fits(game.grid, t, 0);
        }
    }
}

/// The piece that a kick yields stands free.
pub proof fn lemma_first_kick_fits(grid: Grid, t: Tetromino, i: int)
    ensures
        first_kick(grid, t, i) matches Some(k) ==> fits(grid, k),
    decreases 5 - i,
{
    if 0 <= i < 5 {
        lemma_first_kick_fits(grid, t, i + 1);
    }
}

/// The first piece of a game stands free where it enters, with one
/// exception: on a field four columns wide the I piece reaches past the
/// right wall.
pub proof fn lemma_opening_piece_fits(
    width: int,
    height: int,
    high_score: int,
    kind: TetrominoVariant,
    queue: Seq<TetrominoVariant>,
)
    requires
        4 <= width <= i32::MAX,
        4 <= height,
    ensures
        Game::opening(width, height, high_score, kind, queue).settled() <==> !(width == 4 && kind
            == TetrominoVariant::I),
{
    let game = Game::opening(width, height, high_score, kind, queue);
    let piece = game.piece;
    let cells = piece.cells();
    lemma_shape_distinct(kind);
    assert(piece.center.x == width / 2 && piece.center.y == 0);
    assert forall|i: int| 0 <= i < 4 implies #[trigger] cells[i] == (
        width / 2 + kind.shape()[i].0,
        kind.shape()[i].1,
    ) by {
        assert(cells[i] == piece.cell(i));
    }
    if width == 4 && kind == TetrominoVariant::I {
        assert(kind.shape()[3] == (2int, 0int));
        assert(cells[3] == (4int, 0int));
        assert(game.grid.blocked(cells[3].0, cells[3].1));
    } else {
        assert forall|i: int| 0 <= i < cells.len() implies !game.grid.blocked(
            (#[trigger] cells[i]).0,
            cells[i].1,
        ) by {
            let o = kind.shape()[i];
            assert(-1 <= o.0 <= 2 && 0 <= o.1 <= 1);
            if kind != TetrominoVariant::I {
                assert(o.0 <= 1);
            }
            assert(game.grid.in_bounds(cells[i].0, cells[i].1));
            assert(game.grid.rows[cells[i].1][cells[i].0] == empty_tile());
        }
    }
}

/// Locking a piece onto filled tiles ends the game.
pub proof fn lemma_overlap_ends_game(
    game: Game,
    piece: Tetromino,
    kind: TetrominoVariant,
    queue: Seq<TetrominoVariant>,
)
    requires
        game.grid.overlaps(piece.cells()),
    ensures
        game.landed(piece, kind, queue).phase == GameState::GameOver,
        game.ends_on_lock(piece, kind),
        game.lines_on_lock(piece) == 0,
{
}

/// A game that is over stays as it is: neither a request to turn or step,
/// nor a gravity step, nor a hard drop changes it.
pub proof fn lemma_game_over_is_final(
    game: Game,
    mov: Option<Direction>,
    rot: Option<Direction>,
    kind: TetrominoVariant,
    queue: Seq<TetrominoVariant>,
)
    requires
        game.phase == GameState::GameOver,
    ensures
        !game.accepts(mov, rot),
        game.after_move(mov, rot) == game,
        game.ticked(kind, queue) == game,
        game.dropped(kind, queue) == game,
{
}

/// A landing that does not overlap adds the cleared rows to the lines, the
/// reward for them at the level before the landing to the score, and sets
/// the level to what the lines amount to.
pub proof fn lemma_landing_reward(
    game: Game,
    piece: Tetromino,
    kind: TetrominoVariant,
    queue: Seq<TetrominoVariant>,
)
    requires
        !game.grid.overlaps(piece.cells()),
    ensures
        game.landed(piece, kind, queue).lines == game.lines + game.lines_on_lock(piece),
        game.landed(piece, kind, queue).score == game.score + line_points(
            game.lines_on_lock(piece) as int,
        ) * game.level,
        game.landed(piece, kind, queue).level == level_of(game.landed(piece, kind, queue).lines),
        game.landed(piece, kind, queue).high_score >= game.high_score,
        game.landed(piece, kind, queue).high_score >= game.landed(piece, kind, queue).score,
{
}

/// The level never falls as lines are cleared, and it rises by one exactly
/// when the lines reach a multiple of ten.
pub proof fn lemma_level_steps(lines: int, more: int)
    requires
        0 <= lines,
        0 <= more,
    ensures
        level_of(lines) <= level_of(lines + more),
        level_of(lines + 1) == if (lines + 1) % 10 == 0 {
            level_of(lines) + 1
        } else {
            level_of(lines)
        },
{
}

/// The engine.
pub struct Tetris {
    state: GameState,
    board: Board,
    tetromino: Tetromino,
    score: u32,
    high_score: u32,
    lines_cleared: u32,
    level: u32,
    bag: Bag,
}

impl View for Tetris {
    type V = Game;

    closed spec fn view(&self) -> Game {
        Game {
            phase: self.state,
            grid: self.board@,
            piece: self.tetromino,
            queue: self.bag@,
            score: self.score as int,
            high_score: self.high_score as int,
            lines: self.lines_cleared as int,
            level: self.level as int,
        }
    }
}

impl Tetris {
    /// The stored board is laid out consistently.
    pub closed spec fn layout_ok(&self) -> bool {
        self.board.wf()
    }

    pub open spec fn wf(&self) -> bool {
        self.layout_ok() && self@.wf()
    }

    /// A paused game on a blank field of the given size, with a freshly
    /// shuffled bag, its first kind entering, and the high score handed in.
    pub fn new(width: i32, height: i32, high_score: u32) -> (game: Self)
        requires
            width >= 4,
            height >= 4,
            width * height <= i32::MAX,
        ensures
            game.wf(),
            game@ == Game::opening(
                width as int,
                height as int,
                high_score as int,
                game@.piece.variant,
                game@.queue,
            ),
            is_full_set(game@.queue.push(game@.piece.variant)),
    {
        let bag = Bag::new();
        proof {
            lemma_full_set(bag@);
            assert(bag@.drop_last().push(bag@.last()) =~= bag@);
        }
        Tetris::with_bag(width, height, high_score, bag)
    }

    /// A paused game on a blank field of the given size that deals from `bag`.
    pub fn with_bag(width: i32, height: i32, high_score: u32, bag: Bag) -> (game: Self)
        requires
            width >= 4,
            height >= 4,
            width * height <= i32::MAX,
            bag.wf(),
        ensures
            game.wf(),
            game@ == Game::opening(
                width as int,
                height as int,
                high_score as int,
                game@.piece.variant,
                game@.queue,
            ),
            draws(bag@, game@.piece.variant, game@.queue),
    {
        let mut bag = bag;
        let tetromino = Tetromino::new(bag.next(), width / 2, 0);
        Tetris {
            state: GameState::Paused,
            board: Board::new(width, height),
            tetromino,
            score: 0,
            high_score,
            lines_cleared: 0,
            level: 1,
            bag,
        }
    }

    pub fn dimensions(&self) -> (dims: (i32, i32))
        requires
            self.wf(),
        ensures
            dims.0 == self@.grid.width,
            dims.1 == self@.grid.height(),
    {
        (self.board.width(), self.board.height())
    }

    /// Sets a paused game running. A game that is over stays over.
    pub fn start(&mut self)
        ensures
            final(self)@ == if old(self)@.phase == GameState::GameOver {
                old(self)@
            } else {
                old(self)@.with_phase(GameState::Running)
            },
            old(self).wf() ==> final(self).wf(),
    {
        if self.state != GameState::GameOver {
            self.state = GameState::Running
        }
    }

    /// Pauses a running game. A game that is over stays over.
    pub fn pause(&mut self)
        ensures
            final(self)@ == if old(self)@.phase == GameState::GameOver {
                old(self)@
            } else {
                old(self)@.with_phase(GameState::Paused)
            },
            old(self).wf() ==> final(self).wf(),
    {
        if self.state != GameState::GameOver {
            self.state = GameState::Paused
        }
    }

    pub fn is_running(&self) -> (running: bool)
        ensures
            running == (self@.phase == GameState::Running),
    {
        self.state == GameState::Running
    }

    pub fn is_gameover(&self) -> (over: bool)
        ensures
            over == (self@.phase == GameState::GameOver),
    {
        self.state == GameState::GameOver
    }

    pub fn score(&self) -> (score: u32)
        ensures
            score == self@.score,
    {
        self.score
    }

    pub fn high_score(&self) -> (high_score: u32)
        ensures
            high_score == self@.high_score,
    {
        self.high_score
    }

    pub fn level(&self) -> (level: u32)
        ensures
            level == self@.level,
    {
        self.level
    }

    pub fn lines_cleared(&self) -> (lines: u32)
        ensures
            lines == self@.lines,
    {
        self.lines_cleared
    }

    /// The milliseconds between two gravity steps: 500 at level one, 40 less
    /// for each further level, and never under 100.
    pub fn tick_rate_ms(&self) -> (ms: u64)
        requires
            self.wf(),
        ensures
            ms == tick_rate_of(self@.level),
    {
        let base: u64 = 500u64;
        let reduction: u64 = (self.level - 1) as u64 * 40;
        let rate: u64 = if reduction >= base {
            0
        } else {
            base - reduction
        };
        if rate >= 100 {
            rate
        } else {
            100
        }
    }

    /// Adds the reward for `lines` rows cleared at once, at the current
    /// level, and lets the high score follow the score.
    fn add_score(&mut self, lines: u32)
        requires
            old(self).score + 800 * old(self).level <= u32::MAX,
        ensures
            final(self).score == old(self).score + line_points(lines as int) * old(self).level,
            final(self).high_score == if final(self).score > old(self).high_score {
                final(self).score
            } else {
                old(self).high_score
            },
            *final(self) == (Tetris {
                score: final(self).score,
                high_score: final(self).high_score,
                ..*old(self)
            }),
    {
        let points: u32 = if lines == 1 {
            100  // Single
        } else if lines == 2 {
            300  // Double
        } else if lines == 3 {
            500  // Triple
        } else if lines == 4 {
            800  // Tetris
        } else {
            0
        };
        assert(points * self.level <= 800 * self.level) by (nonlinear_arith)
            requires
                0 <= points <= 800,
                0 <= self.level,
        ;
        self.score += points * self.level;
        if self.score > self.high_score {
            self.high_score = self.score;
        }
    }

    /// Raises the level to what the cleared lines amount to: one level for
    /// every ten lines.
    fn check_level_up(&mut self)
        ensures
            final(self).level == if level_of(old(self).lines_cleared as int) > old(self).level {
                level_of(old(self).lines_cleared as int)
            } else {
                old(self).level as int
            },
            *final(self) == (Tetris { level: final(self).level, ..*old(self) }),
    {
        let new_level: u32 = (self.lines_cleared / 10) + 1;
        if new_level > self.level {
            self.level = new_level;
        }
    }

    /// Turns the falling piece towards `rot`, then steps it towards `mov`,
    /// if the game is running and the whole request can be met. A request
    /// that is not accepted changes nothing.
    pub fn move_tet(&mut self, mov: Option<Direction>, rot: Option<Direction>) -> (accepted: bool)
        requires
            old(self).wf(),
        ensures
            final(self).wf(),
            accepted == old(self)@.accepts(mov, rot),
            final(self)@ == old(self)@.after_move(mov, rot),
    {
        if self.state != GameState::Running {
            return false;
        }
        let ghost grid = self.board@;
        let mut tet_next = self.tetromino;
        proof {
            lemma_near_is_representable(grid, tet_next);
        }
        match rot {
            Some(r) => {
                tet_next.rotate(&r);
                let turned = tet_next;
                proof {
                    lemma_near_is_representable(grid, turned);
                }
                if tet_next.collides(&self.board) {
                    // Simple Wall Kick Logic
                    // Try shifting right, left, up (floor kick), and 2 steps for I-piece
                    let offsets: [(i32, i32); 5] = [(1, 0), (-1, 0), (0, -1), (2, 0), (-2, 0)];
                    let mut success = false;
                    let mut i: usize = 0;
                    while i < 5 && !success
                        invariant
                            i <= 5,
                            self.wf(),
                            self.board@ == grid,
                            self.board.wf(),
                            near(grid, turned),
                            forall|k: int|
                                0 <= k < 5 ==> (#[trigger] offsets[k]).0 == kicks()[k].0 && offsets[k].1
                                    == kicks()[k].1,
                            forall|k: int|
                                0 <= k < 5 ==> -2 <= (#[trigger] kicks()[k]).0 <= 2 && -2
                                    <= kicks()[k].1 <= 2,
                            !success ==> tet_next == turned && first_kick(grid, turned, 0)
                                == first_kick(grid, turned, i as int),
                            success ==> first_kick(grid, turned, 0) == Some(tet_next) && fits(
                                grid,
                                tet_next,
                            ),
                        decreases 5 - i + if success { 0int } else { 1int },
                    {
                        let (dx, dy) = offsets[i];
                        let mut test_tet = turned;
                        proof {
                            assert(offsets[i as int].0 == kicks()[i as int].0);
                            lemma_near_is_representable(grid, turned);
                            lemma_near_is_representable(
                                grid,
                                turned.shifted(dx as int, dy as int),
                            );
                        }
                        test_tet.offset(dx, dy);
                        if !test_tet.collides(&self.board) {
                            tet_next = test_tet;
                            success = true;
                        } else {
                            i += 1;
                        }
                    }
                    if !success {
                        return false;
                    }
                }
            },
            None => {},
        }
        // Either no turn was asked for, or the turned piece stands free,
        // with or without a kick. What is left is the step.
        let ghost turned = tet_next;
        proof {
            if rot is Some {
                lemma_fits_is_near(grid, turned);
            }
        }
        match mov {
            Some(m) => {
                proof {
                    lemma_near_is_representable(grid, turned);
                    lemma_near_is_representable(grid, turned.shifted(m.delta().0, m.delta().1));
                }
                tet_next.mov(&m);
                if tet_next.collides(&self.board) {
                    return false;
                }
                proof {
                    lemma_fits_is_near(grid, tet_next);
                }
            },
            None => {},
        }
        self.tetromino = tet_next;
        true
    }

    pub fn get_tetromino(&self) -> (piece: &Tetromino)
        ensures
            *piece == self@.piece,
            self.wf() ==> piece.representable(),
    {
        proof {
            if self.wf() {
                lemma_near_is_representable(self@.grid, self.tetromino);
            }
        }
        &self.tetromino
    }

    /// The falling piece where it would rest if it were dropped now.
    pub fn get_tetromino_preview(&self) -> (piece: Tetromino)
        requires
            self.wf(),
        ensures
            piece == self@.preview(),
            piece.representable(),
    {
        let ghost grid = self.board@;
        let ghost start = self.tetromino;
        let ghost mut last = self.tetromino;
        let mut tet = self.tetromino;
        proof {
            lemma_near_is_representable(grid, tet);
        }
        while !tet.collides(&self.board)
            invariant
                self.wf(),
                self.board@ == grid,
                self.board.wf(),
                tet.representable(),
                -2 <= tet.center.x <= grid.width + 1,
                -2 <= tet.center.y <= grid.height() + 2,
                tet == start || (tet == last.shifted(0, 1) && last.center.y < i32::MAX && fits(
                    grid,
                    last,
                ) && fits(grid, start) && landing(grid, last) == landing(grid, start)),
            decreases grid.height() + 3 - tet.center.y,
        {
            proof {
                lemma_fits_is_near(grid, tet);
                lemma_near_is_representable(grid, tet);
                lemma_near_is_representable(grid, tet.shifted(0, 1));
                last = tet;
            }
            tet.fall();
        }
        proof {
            lemma_near_is_representable(grid, tet.shifted(0, -1));
            if tet != start {
                assert(tet.shifted(0, -1) == last);
                assert(landing(grid, last) == last);
            }
        }
        tet.mov(&Direction::Down);
        tet
    }

    /// Locks `piece` into the board, clears the full rows, updates lines,
    /// score and level, and lets the next piece enter. Returns whether the
    /// game is over on that account, and how many rows were cleared.
    pub fn lock_piece(&mut self, piece: &Tetromino) -> (res: (bool, u32))
        requires
            old(self).wf(),
            old(self)@.headroom(),
            old(self)@.grid.contains_all(piece.cells()),
        ensures
            final(self).wf(),
            final(self)@ == old(self)@.landed(*piece, final(self)@.piece.variant, final(self)@.queue),
            !old(self)@.grid.overlaps(piece.cells()) ==> draws(
                old(self)@.queue,
                final(self)@.piece.variant,
                final(self)@.queue,
            ),
            res.0 == old(self)@.ends_on_lock(*piece, final(self)@.piece.variant),
            res.1 == old(self)@.lines_on_lock(*piece),
    {
        if self.board.fill_tetromino_check_gameover(piece) {
            self.state = GameState::GameOver;
            return (true, 0);
        }
        let lines = self.board.check_and_clear_lines();
        if lines > 0 {
            self.lines_cleared += lines;
            self.add_score(lines);
            self.check_level_up();
        }
        let width = self.board.width();
        self.tetromino = Tetromino::new(self.bag.next(), width / 2, 0);
        proof {
            lemma_near_is_representable(self.board@, self.tetromino);
        }
        if self.tetromino.collides(&self.board) {
            self.state = GameState::GameOver;
            return (true, lines);
        }
        (false, lines)
    }

    /// Drops the falling piece to where it comes to rest and locks it there.
    /// Returns whether that cleared a row without ending the game.
    pub fn rush(&mut self) -> (cleared: bool)
        requires
            old(self).wf(),
            old(self)@.headroom(),
            old(self)@.can_land(),
        ensures
            final(self).wf(),
            final(self)@ == old(self)@.dropped(final(self)@.piece.variant, final(self)@.queue),
            old(self)@.phase == GameState::Running && !old(self)@.grid.overlaps(
                landing(old(self)@.grid, old(self)@.piece).cells(),
            ) ==> draws(old(self)@.queue, final(self)@.piece.variant, final(self)@.queue),
            cleared == (old(self)@.phase == GameState::Running && !old(self)@.ends_on_lock(
                landing(old(self)@.grid, old(self)@.piece),
                final(self)@.piece.variant,
            ) && old(self)@.lines_on_lock(landing(old(self)@.grid, old(self)@.piece)) > 0),
            final(self)@.phase == GameState::Running ==> final(self)@.settled(),
    {
        if self.state != GameState::Running {
            return false;
        }
        let ghost grid = self.board@;
        let ghost start = self.tetromino;
        let mut prev = self.tetromino;
        let mut cur = self.tetromino;
        proof {
            lemma_near_is_representable(grid, cur);
            lemma_near_is_representable(grid, cur.shifted(0, 1));
        }
        cur.fall();
        while !cur.collides(&self.board)
            invariant
                self.wf(),
                self.board@ == grid,
                self.board.wf(),
                cur.representable(),
                cur == prev.shifted(0, 1),
                prev.center.y < i32::MAX,
                -2 <= prev.center.x <= grid.width + 1,
                -2 <= prev.center.y <= grid.height() + 2,
                prev == start || fits(grid, prev),
                landing(grid, prev) == landing(grid, start),
            decreases grid.height() + 3 - cur.center.y,
        {
            proof {
                lemma_fits_is_near(grid, cur);
                lemma_near_is_representable(grid, cur);
                lemma_near_is_representable(grid, cur.shifted(0, 1));
            }
            cur.fall();
            prev.fall();
        }
        proof {
            assert(landing(grid, prev) == prev);
            if prev != start {
                lemma_fits_is_near(grid, prev);
            }
            lemma_on_field_is_near(grid, prev);
        }
        self.tetromino = cur;
        let (gameover, lines) = self.lock_piece(&prev);
        !gameover && lines > 0
    }

    /// One gravity step: the falling piece falls by one row, or lands.
    /// Returns whether the game goes on with a new piece, and whether rows
    /// were cleared.
    pub fn step(&mut self) -> (res: (bool, bool))
        requires
            old(self).wf(),
            old(self)@.headroom(),
            old(self)@.can_land(),
        ensures
            final(self).wf(),
            final(self)@ == old(self)@.ticked(final(self)@.piece.variant, final(self)@.queue),
            old(self)@.lands_on_tick() && !old(self)@.grid.overlaps(old(self)@.piece.cells())
                ==> draws(old(self)@.queue, final(self)@.piece.variant, final(self)@.queue),
            res.0 == (old(self)@.lands_on_tick() && !old(self)@.ends_on_lock(
                old(self)@.piece,
                final(self)@.piece.variant,
            )),
            res.1 == (old(self)@.lands_on_tick() && old(self)@.lines_on_lock(old(self)@.piece)
                > 0),
            final(self)@.phase == GameState::Running ==> final(self)@.settled(),
    {
        if self.state != GameState::Running {
            return (false, false);
        }
        let prev = self.tetromino;
        proof {
            lemma_near_is_representable(self.board@, prev);
            lemma_near_is_representable(self.board@, prev.shifted(0, 1));
        }
        self.tetromino.fall();
        if self.tetromino.collides(&self.board) {
            proof {
                lemma_on_field_is_near(self.board@, prev);
            }
            let (gameover, lines) = self.lock_piece(&prev);
            return (!gameover, lines > 0);
        }
        proof {
            lemma_fits_is_near(self.board@, self.tetromino);
        }
        (false, false)
    }

    /// The color of the tile in column `x` of row `y`.
    pub fn tile_color(&self, x: i32, y: i32) -> (color: Color)
        requires
            self.wf(),
            self@.grid.in_bounds(x as int, y as int),
        ensures
            color == self@.grid.tile(x as int, y as int).color,
    {
        self.board.get_tile(Point::from(x, y)).color
    }

    /// The character that shows the cell in column `x` of row `y` in a
    /// plain-text picture of the game.
    pub fn glyph(&self, x: i32, y: i32) -> (c: char)
        requires
            self.wf(),
            self@.grid.in_bounds(x as int, y as int),
        ensures
            c == self@.glyph(x as int, y as int),
    {
        let p = Point { x, y };
        if self.board.get_tile(p).filled {
            return 'x';
        }
        proof {
            lemma_near_is_representable(self.board@, self.tetromino);
        }
        let pts = self.tetromino.points();
        if pts[0] == p {
            '1'
        } else if pts[1] == p {
            '2'
        } else if pts[2] == p {
            '3'
        } else if pts[3] == p {
            '4'
        } else {
            ' '
        }
    }
}

} // verus!
