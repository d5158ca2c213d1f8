use ratatetris::bag::Bag;
use ratatetris::engine::Tetris;
use ratatetris::geometry::Direction;
use ratatetris::geometry::Point;
use ratatetris::geometry::Rotation;
use ratatetris::geometry::TetrominoVariant;
use ratatetris::piece::Tetromino;

/// A bag that deals the given kinds, the first of them first.
fn dealing(kinds: &[TetrominoVariant]) -> Bag {
    let mut pieces = kinds.to_vec();
    pieces.reverse();
    Bag::holding(pieces)
}

/// A game on a field of the given size whose first pieces are `kinds`.
fn game_with(width: i32, height: i32, kinds: &[TetrominoVariant]) -> Tetris {
    Tetris::with_bag(width, height, 0, dealing(kinds))
}

fn cells(piece: &Tetromino) -> [(i32, i32); 4] {
    let p = piece.points();
    [(p[0].x, p[0].y), (p[1].x, p[1].y), (p[2].x, p[2].y), (p[3].x, p[3].y)]
}

fn colors(game: &Tetris) -> Vec<Vec<u8>> {
    let (width, height) = game.dimensions();
    let mut rows = Vec::new();
    for y in 0..height {
        let mut row = Vec::new();
        for x in 0..width {
            row.push(game.tile_color(x, y).c);
        }
        rows.push(row);
    }
    rows
}

/// Clears one row of a field that is eight columns wide, by locking two I
/// pieces side by side into the bottom row.
fn clear_one_row(game: &mut Tetris) {
    let (_, height) = game.dimensions();
    assert_eq!(game.lock_piece(&Tetromino::new(TetrominoVariant::I, 1, height - 1)), (false, 0));
    assert_eq!(game.lock_piece(&Tetromino::new(TetrominoVariant::I, 5, height - 1)), (false, 1));
}

/// Clears two rows at once, by locking four O pieces side by side.
fn clear_two_rows(game: &mut Tetris) {
    let (_, height) = game.dimensions();
    for x in [0, 2, 4] {
        assert_eq!(
            game.lock_piece(&Tetromino::new(TetrominoVariant::O, x, height - 2)),
            (false, 0)
        );
    }
    assert_eq!(game.lock_piece(&Tetromino::new(TetrominoVariant::O, 6, height - 2)), (false, 2));
}

#[test]
fn new_game_is_paused_with_counters_at_start() {
    let game = Tetris::new(10, 20, 1234);
    assert!(!game.is_running());
    assert!(!game.is_gameover());
    assert_eq!(game.dimensions(), (10, 20));
    assert_eq!(game.score(), 0);
    assert_eq!(game.high_score(), 1234);
    assert_eq!(game.level(), 1);
    assert_eq!(game.lines_cleared(), 0);
    assert_eq!(game.tick_rate_ms(), 500);
    assert_eq!(colors(&game), vec![vec![0u8; 10]; 20]);
}

#[test]
fn first_piece_enters_at_the_middle_of_the_top_row() {
    for _ in 0..30 {
        let game = Tetris::new(10, 20, 0);
        let piece = game.get_tetromino();
        assert_eq!(piece.center, Point { x: 5, y: 0 });
        assert_eq!(piece.rotation, Rotation::Deg0);
        assert_eq!(piece.color.c as usize, 9 + piece.variant.to_index());
    }
    let game = Tetris::new(7, 9, 0);
    assert_eq!(game.get_tetromino().center, Point { x: 3, y: 0 });
}

#[test]
fn first_seven_pieces_of_a_new_game_are_the_seven_kinds() {
    for _ in 0..20 {
        let mut game = Tetris::new(10, 20, 0);
        let mut counts = [0usize; 7];
        counts[game.get_tetromino().variant.to_index()] += 1;
        // Each lock clears nothing and lets the next piece of the bag enter.
        for (x, y) in [(0, 18), (2, 18), (4, 18), (6, 18), (0, 16), (2, 16)] {
            let locked = game.lock_piece(&Tetromino::new(TetrominoVariant::O, x, y));
            assert_eq!(locked, (false, 0));
            counts[game.get_tetromino().variant.to_index()] += 1;
        }
        assert_eq!(counts, [1; 7]);
    }
}

#[test]
fn start_and_pause_toggle_between_running_and_paused() {
    let mut game = Tetris::new(10, 20, 0);
    game.start();
    assert!(game.is_running());
    game.pause();
    assert!(!game.is_running());
    assert!(!game.is_gameover());
    game.start();
    assert!(game.is_running());
}

#[test]
fn paused_game_admits_no_piece_change() {
    let mut game = game_with(10, 20, &[TetrominoVariant::T]);
    let before = cells(game.get_tetromino());
    assert!(!game.move_tet(Some(Direction::Left), None));
    assert!(!game.move_tet(None, Some(Direction::Right)));
    assert_eq!(game.step(), (false, false));
    assert!(!game.rush());
    assert_eq!(cells(game.get_tetromino()), before);
    assert_eq!(game.get_tetromino().rotation, Rotation::Deg0);
    assert_eq!(colors(&game), vec![vec![0u8; 10]; 20]);
}

#[test]
fn moves_translate_the_piece_by_one_cell() {
    let mut game = game_with(10, 20, &[TetrominoVariant::T]);
    game.start();
    assert!(game.move_tet(Some(Direction::Left), None));
    assert_eq!(game.get_tetromino().center, Point { x: 4, y: 0 });
    assert!(game.move_tet(Some(Direction::Right), None));
    assert!(game.move_tet(Some(Direction::Right), None));
    assert_eq!(game.get_tetromino().center, Point { x: 6, y: 0 });
    assert!(game.move_tet(Some(Direction::Up), None));
    assert_eq!(game.get_tetromino().center, Point { x: 6, y: 1 });
    assert!(game.move_tet(Some(Direction::Down), None));
    assert_eq!(game.get_tetromino().center, Point { x: 6, y: 0 });
    // a step above the top row collides
    assert!(!game.move_tet(Some(Direction::Down), None));
    assert_eq!(game.get_tetromino().center, Point { x: 6, y: 0 });
}

#[test]
fn move_into_the_wall_is_rejected() {
    let mut game = game_with(10, 20, &[TetrominoVariant::O]);
    game.start();
    for _ in 0..5 {
        assert!(game.move_tet(Some(Direction::Left), None));
    }
    assert_eq!(game.get_tetromino().center, Point { x: 0, y: 0 });
    assert!(!game.move_tet(Some(Direction::Left), None));
    assert_eq!(game.get_tetromino().center, Point { x: 0, y: 0 });
}

#[test]
fn request_for_nothing_is_accepted() {
    let mut game = game_with(10, 20, &[TetrominoVariant::S]);
    game.start();
    assert!(game.move_tet(None, None));
    assert_eq!(game.get_tetromino().center, Point { x: 5, y: 0 });
}

#[test]
fn turn_in_free_space_needs_no_kick() {
    let mut game = game_with(10, 20, &[TetrominoVariant::T]);
    game.start();
    assert_eq!(game.step(), (false, false));
    assert!(game.move_tet(None, Some(Direction::Right)));
    assert_eq!(game.get_tetromino().rotation, Rotation::Deg90);
    assert_eq!(game.get_tetromino().center, Point { x: 5, y: 1 });
    assert!(game.move_tet(None, Some(Direction::Left)));
    assert_eq!(game.get_tetromino().rotation, Rotation::Deg0);
}

#[test]
fn turn_that_fits_at_no_kick_is_rejected() {
    // The upright I would reach two rows above the field, and no kick moves it down.
    let mut game = game_with(10, 20, &[TetrominoVariant::I]);
    game.start();
    assert!(!game.move_tet(None, Some(Direction::Right)));
    assert_eq!(game.get_tetromino().rotation, Rotation::Deg0);
    assert_eq!(game.get_tetromino().center, Point { x: 5, y: 0 });
}

/// An upright I in the leftmost column, two rows down.
fn upright_i_at_left_wall() -> Tetris {
    let mut game = game_with(10, 20, &[TetrominoVariant::I]);
    game.start();
    assert_eq!(game.step(), (false, false));
    assert_eq!(game.step(), (false, false));
    assert!(game.move_tet(None, Some(Direction::Right)));
    for _ in 0..5 {
        assert!(game.move_tet(Some(Direction::Left), None));
    }
    assert_eq!(cells(game.get_tetromino()), [(0, 3), (0, 2), (0, 1), (0, 0)]);
    game
}

#[test]
fn wall_kick_takes_the_first_offset_that_fits() {
    let mut game = upright_i_at_left_wall();
    // Turned to 180 degrees the piece reaches two columns left of the field;
    // the kicks by one column and by one row up still collide, the kick by
    // two columns to the right fits.
    assert!(game.move_tet(None, Some(Direction::Right)));
    assert_eq!(game.get_tetromino().rotation, Rotation::Deg180);
    assert_eq!(game.get_tetromino().center, Point { x: 2, y: 2 });
    assert_eq!(cells(game.get_tetromino()), [(3, 2), (2, 2), (1, 2), (0, 2)]);
}

#[test]
fn wall_kick_and_colliding_move_leave_the_piece_unchanged() {
    let mut game = upright_i_at_left_wall();
    // The turn fits after a kick, the step to the left collides after it:
    // the whole request is rejected.
    assert!(!game.move_tet(Some(Direction::Left), Some(Direction::Right)));
    assert_eq!(game.get_tetromino().rotation, Rotation::Deg90);
    assert_eq!(game.get_tetromino().center, Point { x: 0, y: 2 });
    assert_eq!(cells(game.get_tetromino()), [(0, 3), (0, 2), (0, 1), (0, 0)]);
}

#[test]
fn failed_turn_discards_the_requested_move() {
    let mut game = game_with(10, 20, &[TetrominoVariant::I]);
    game.start();
    assert!(!game.move_tet(Some(Direction::Left), Some(Direction::Right)));
    assert_eq!(game.get_tetromino().rotation, Rotation::Deg0);
    assert_eq!(game.get_tetromino().center, Point { x: 5, y: 0 });
}

#[test]
fn turn_and_move_in_one_request() {
    let mut game = game_with(10, 20, &[TetrominoVariant::T]);
    game.start();
    assert_eq!(game.step(), (false, false));
    assert!(game.move_tet(Some(Direction::Right), Some(Direction::Left)));
    assert_eq!(game.get_tetromino().rotation, Rotation::Deg270);
    assert_eq!(game.get_tetromino().center, Point { x: 6, y: 1 });
}

#[test]
fn step_lets_the_piece_fall_by_one_row() {
    let mut game = game_with(10, 20, &[TetrominoVariant::O]);
    game.start();
    assert_eq!(game.step(), (false, false));
    assert_eq!(game.get_tetromino().center, Point { x: 5, y: 1 });
    assert_eq!(game.step(), (false, false));
    assert_eq!(game.get_tetromino().center, Point { x: 5, y: 2 });
}

#[test]
fn step_lands_the_piece_on_the_bottom() {
    let mut game = game_with(10, 20, &[TetrominoVariant::O, TetrominoVariant::T]);
    game.start();
    for _ in 0..18 {
        assert_eq!(game.step(), (false, false));
    }
    assert_eq!(game.get_tetromino().center, Point { x: 5, y: 18 });
    assert_eq!(game.step(), (true, false));
    assert!(game.is_running());
    assert_eq!(game.get_tetromino().variant, TetrominoVariant::T);
    assert_eq!(game.get_tetromino().center, Point { x: 5, y: 0 });
    assert_eq!(game.tile_color(5, 18).c, 12);
    assert_eq!(game.tile_color(6, 18).c, 12);
    assert_eq!(game.tile_color(5, 19).c, 12);
    assert_eq!(game.tile_color(6, 19).c, 12);
    assert_eq!(game.tile_color(4, 19).c, 0);
}

#[test]
fn hard_drop_of_an_i_piece_lands_in_the_bottom_row() {
    let mut game = game_with(10, 20, &[TetrominoVariant::I, TetrominoVariant::J]);
    game.start();
    assert_eq!(cells(game.get_tetromino()), [(4, 0), (5, 0), (6, 0), (7, 0)]);
    assert!(!game.rush());
    assert!(game.is_running());
    for x in 0..10 {
        let expected = if (4..8).contains(&x) { 9 } else { 0 };
        assert_eq!(game.tile_color(x, 19).c, expected);
        assert_eq!(game.glyph(x, 19), if expected == 9 { 'x' } else { ' ' });
    }
    for y in 0..19 {
        for x in 0..10 {
            assert_eq!(game.tile_color(x, y).c, 0);
        }
    }
    assert_eq!(game.get_tetromino().variant, TetrominoVariant::J);
    assert_eq!(game.get_tetromino().center, Point { x: 5, y: 0 });
}

#[test]
fn hard_drop_rests_on_the_stack() {
    let mut game = game_with(10, 20, &[TetrominoVariant::O, TetrominoVariant::T, TetrominoVariant::L]);
    game.start();
    assert!(!game.rush());
    assert!(!game.rush());
    // T rests on the O: its stem would not pass between the columns.
    assert_eq!(game.tile_color(5, 17).c, 14);
    assert_eq!(game.tile_color(4, 16).c, 14);
    assert_eq!(game.tile_color(5, 16).c, 14);
    assert_eq!(game.tile_color(6, 16).c, 14);
    assert_eq!(game.tile_color(5, 18).c, 12);
}

#[test]
fn hard_drop_that_clears_a_row_reports_it() {
    let mut game = game_with(8, 20, &[TetrominoVariant::O, TetrominoVariant::I, TetrominoVariant::T]);
    game.start();
    assert_eq!(game.lock_piece(&Tetromino::new(TetrominoVariant::I, 1, 19)), (false, 0));
    assert_eq!(game.get_tetromino().variant, TetrominoVariant::I);
    assert_eq!(cells(game.get_tetromino()), [(3, 0), (4, 0), (5, 0), (6, 0)]);
    assert!(game.move_tet(Some(Direction::Right), None));
    assert!(game.rush());
    assert!(game.is_running());
    assert_eq!(game.lines_cleared(), 1);
    assert_eq!(game.score(), 100);
    assert_eq!(colors(&game), vec![vec![0u8; 8]; 20]);
    assert_eq!(game.get_tetromino().variant, TetrominoVariant::T);
}

#[test]
fn preview_shows_where_the_piece_would_rest() {
    let mut game = game_with(10, 20, &[TetrominoVariant::I, TetrominoVariant::O]);
    game.start();
    let ghost = game.get_tetromino_preview();
    assert_eq!(cells(&ghost), [(4, 19), (5, 19), (6, 19), (7, 19)]);
    // the piece itself did not move
    assert_eq!(game.get_tetromino().center, Point { x: 5, y: 0 });
    assert!(!game.rush());
    let ghost = game.get_tetromino_preview();
    assert_eq!(ghost.variant, TetrominoVariant::O);
    assert_eq!(cells(&ghost), [(5, 17), (5, 18), (6, 17), (6, 18)]);
}

#[test]
fn preview_of_a_colliding_piece_is_one_row_higher() {
    // On a field four columns wide the entering I reaches past the right wall.
    let game = game_with(4, 6, &[TetrominoVariant::I]);
    assert_eq!(cells(game.get_tetromino()), [(1, 0), (2, 0), (3, 0), (4, 0)]);
    let ghost = game.get_tetromino_preview();
    assert_eq!(ghost.center, Point { x: 2, y: -1 });
}

#[test]
fn clearing_two_lines_at_level_one_adds_300() {
    let mut game = game_with(8, 20, &[]);
    game.start();
    assert_eq!(game.level(), 1);
    clear_two_rows(&mut game);
    assert_eq!(game.score(), 300);
    assert_eq!(game.lines_cleared(), 2);
    assert_eq!(game.level(), 1);
}

#[test]
fn clearing_two_lines_at_level_three_adds_900() {
    let mut game = game_with(8, 20, &[]);
    game.start();
    for _ in 0..20 {
        clear_one_row(&mut game);
    }
    assert_eq!(game.lines_cleared(), 20);
    assert_eq!(game.level(), 3);
    // ten single rows at level one and ten at level two
    assert_eq!(game.score(), 3000);
    clear_two_rows(&mut game);
    assert_eq!(game.score(), 3900);
    assert_eq!(game.lines_cleared(), 22);
}

fn upright_i(x: i32, y: i32) -> Tetromino {
    let mut piece = Tetromino::new(TetrominoVariant::I, x, y);
    piece.rotate(&Direction::Right);
    piece
}

#[test]
fn one_line_is_worth_100() {
    let mut game = game_with(4, 20, &[]);
    assert_eq!(game.lock_piece(&Tetromino::new(TetrominoVariant::I, 1, 19)).1, 1);
    assert_eq!(game.score(), 100);
    assert_eq!(game.lines_cleared(), 1);
}

#[test]
fn three_lines_are_worth_500() {
    let mut game = game_with(4, 20, &[]);
    // Columns 0 to 2 of the rows 17 to 19 are filled, and of row 16 only two.
    assert_eq!(game.lock_piece(&upright_i(0, 18)).1, 0);
    assert_eq!(game.lock_piece(&Tetromino::new(TetrominoVariant::O, 1, 18)).1, 0);
    let mut hook = Tetromino::new(TetrominoVariant::J, 1, 16);
    hook.rotate(&Direction::Right);
    assert_eq!(cells(&hook), [(1, 17), (2, 17), (1, 16), (1, 15)]);
    assert_eq!(game.lock_piece(&hook).1, 0);
    assert_eq!(game.lock_piece(&upright_i(3, 18)).1, 3);
    assert_eq!(game.score(), 500);
    assert_eq!(game.lines_cleared(), 3);
    // what was left of row 16 and row 15 rests at the bottom
    assert_eq!(game.tile_color(0, 19).c, 9);
    assert_eq!(game.tile_color(1, 19).c, 10);
    assert_eq!(game.tile_color(2, 19).c, 0);
    assert_eq!(game.tile_color(3, 19).c, 9);
    assert_eq!(game.tile_color(1, 18).c, 10);
    assert_eq!(game.tile_color(0, 18).c, 0);
}

#[test]
fn four_lines_are_worth_800() {
    let mut game = game_with(4, 20, &[]);
    for x in 0..3 {
        assert_eq!(game.lock_piece(&upright_i(x, 18)).1, 0);
    }
    assert_eq!(game.lock_piece(&upright_i(3, 18)).1, 4);
    assert_eq!(game.score(), 800);
    assert_eq!(game.lines_cleared(), 4);
    assert_eq!(colors(&game), vec![vec![0u8; 4]; 20]);
}

#[test]
fn lock_that_clears_nothing_adds_nothing() {
    let mut game = game_with(10, 20, &[]);
    assert_eq!(game.lock_piece(&Tetromino::new(TetrominoVariant::O, 0, 18)), (false, 0));
    assert_eq!(game.score(), 0);
    assert_eq!(game.lines_cleared(), 0);
    assert_eq!(game.level(), 1);
}

#[test]
fn level_rises_when_lines_cross_from_nine_to_ten() {
    let mut game = game_with(8, 20, &[]);
    game.start();
    for _ in 0..9 {
        clear_one_row(&mut game);
    }
    assert_eq!(game.lines_cleared(), 9);
    assert_eq!(game.level(), 1);
    clear_one_row(&mut game);
    assert_eq!(game.lines_cleared(), 10);
    assert_eq!(game.level(), 2);
    clear_one_row(&mut game);
    assert_eq!(game.lines_cleared(), 11);
    assert_eq!(game.level(), 2);
}

#[test]
fn level_follows_lines_cleared_two_at_a_time() {
    let mut game = game_with(8, 20, &[]);
    for _ in 0..4 {
        clear_two_rows(&mut game);
    }
    clear_one_row(&mut game);
    assert_eq!(game.lines_cleared(), 9);
    assert_eq!(game.level(), 1);
    clear_two_rows(&mut game);
    assert_eq!(game.lines_cleared(), 11);
    assert_eq!(game.level(), 2);
    // 4 doubles and a single at level one, one double at level one
    assert_eq!(game.score(), 4 * 300 + 100 + 300);
}

#[test]
fn tick_rate_falls_by_40_each_level_down_to_100() {
    let mut game = game_with(8, 20, &[]);
    assert_eq!(game.tick_rate_ms(), 500);
    for _ in 0..10 {
        clear_one_row(&mut game);
    }
    assert_eq!(game.level(), 2);
    assert_eq!(game.tick_rate_ms(), 460);
    for _ in 0..10 {
        clear_one_row(&mut game);
    }
    assert_eq!(game.tick_rate_ms(), 420);
    for _ in 0..80 {
        clear_one_row(&mut game);
    }
    assert_eq!(game.level(), 11);
    assert_eq!(game.tick_rate_ms(), 100);
    for _ in 0..10 {
        clear_one_row(&mut game);
    }
    assert_eq!(game.level(), 12);
    assert_eq!(game.tick_rate_ms(), 100);
}

#[test]
fn high_score_follows_the_score_once_it_is_passed() {
    let mut game = Tetris::with_bag(8, 20, 250, dealing(&[]));
    clear_one_row(&mut game);
    assert_eq!(game.score(), 100);
    assert_eq!(game.high_score(), 250);
    clear_one_row(&mut game);
    assert_eq!(game.score(), 200);
    assert_eq!(game.high_score(), 250);
    clear_one_row(&mut game);
    assert_eq!(game.score(), 300);
    assert_eq!(game.high_score(), 300);
}

#[test]
fn lock_on_filled_cells_ends_the_game() {
    let mut game = game_with(10, 20, &[TetrominoVariant::T, TetrominoVariant::S, TetrominoVariant::Z]);
    game.start();
    let piece = Tetromino::new(TetrominoVariant::O, 4, 18);
    assert_eq!(game.lock_piece(&piece), (false, 0));
    assert!(game.is_running());
    assert_eq!(game.get_tetromino().variant, TetrominoVariant::S);
    assert_eq!(game.lock_piece(&piece), (true, 0));
    assert!(game.is_gameover());
    assert!(!game.is_running());
    // the falling piece was not replaced
    assert_eq!(game.get_tetromino().variant, TetrominoVariant::S);
}

#[test]
fn nothing_changes_once_the_game_is_over() {
    let mut game = game_with(10, 20, &[TetrominoVariant::T, TetrominoVariant::S, TetrominoVariant::Z]);
    game.start();
    let piece = Tetromino::new(TetrominoVariant::O, 4, 18);
    game.lock_piece(&piece);
    game.lock_piece(&piece);
    assert!(game.is_gameover());
    let field = colors(&game);
    let falling = cells(game.get_tetromino());
    let rotation = game.get_tetromino().rotation;
    assert!(!game.move_tet(Some(Direction::Left), None));
    assert!(!game.move_tet(None, Some(Direction::Right)));
    assert!(!game.move_tet(Some(Direction::Right), Some(Direction::Left)));
    assert_eq!(game.step(), (false, false));
    assert!(!game.rush());
    game.start();
    assert!(game.is_gameover());
    assert!(!game.is_running());
    game.pause();
    assert!(game.is_gameover());
    assert_eq!(game.step(), (false, false));
    assert_eq!(colors(&game), field);
    assert_eq!(cells(game.get_tetromino()), falling);
    assert_eq!(game.get_tetromino().rotation, rotation);
    assert_eq!(game.score(), 0);
    assert_eq!(game.lines_cleared(), 0);
}

#[test]
fn entering_piece_that_collides_ends_the_game() {
    // An O waits at the top of the stack where the next piece enters.
    let mut game = game_with(10, 20, &[TetrominoVariant::T, TetrominoVariant::L]);
    game.start();
    let blocker = Tetromino::new(TetrominoVariant::O, 5, 0);
    assert_eq!(game.lock_piece(&blocker), (true, 0));
    assert!(game.is_gameover());
    assert_eq!(game.get_tetromino().variant, TetrominoVariant::L);
    assert_eq!(game.get_tetromino().center, Point { x: 5, y: 0 });
}

#[test]
fn step_that_tops_out_reports_no_new_piece() {
    let mut game = game_with(
        10,
        4,
        &[TetrominoVariant::O, TetrominoVariant::T, TetrominoVariant::S],
    );
    game.start();
    assert_eq!(game.step(), (false, false));
    assert_eq!(game.step(), (false, false));
    // the O rests in rows 2 and 3, and the T enters above it
    assert_eq!(game.step(), (true, false));
    assert!(game.is_running());
    assert_eq!(cells(game.get_tetromino()), [(4, 0), (5, 0), (6, 0), (5, 1)]);
    // the T cannot fall: it is locked where it entered, and the S collides
    assert_eq!(game.step(), (false, false));
    assert!(game.is_gameover());
    assert_eq!(game.get_tetromino().variant, TetrominoVariant::S);
    assert_eq!(game.tile_color(5, 1).c, 14);
}

#[test]
fn step_that_tops_out_still_reports_cleared_rows() {
    let mut game = game_with(
        8,
        6,
        &[
            TetrominoVariant::T,
            TetrominoVariant::Z,
            TetrominoVariant::I,
            TetrominoVariant::O,
            TetrominoVariant::L,
        ],
    );
    game.start();
    // Row 1 is filled but for the columns 4 and 5, and a tile waits under them.
    assert_eq!(game.lock_piece(&Tetromino::new(TetrominoVariant::I, 1, 1)), (false, 0));
    assert_eq!(game.lock_piece(&Tetromino::new(TetrominoVariant::O, 6, 1)), (false, 0));
    assert_eq!(game.lock_piece(&upright_i(4, 4)), (false, 0));
    assert!(game.is_running());
    assert_eq!(cells(game.get_tetromino()), [(4, 0), (4, 1), (5, 0), (5, 1)]);
    // The O lands where it entered and completes row 1. Its upper half
    // drops into row 1, where the entering L collides.
    assert_eq!(game.step(), (false, true));
    assert!(game.is_gameover());
    assert_eq!(game.lines_cleared(), 1);
    assert_eq!(game.score(), 100);
    assert_eq!(game.get_tetromino().variant, TetrominoVariant::L);
    assert_eq!(game.tile_color(4, 1).c, 12);
    assert_eq!(game.tile_color(5, 1).c, 12);
    assert_eq!(game.tile_color(4, 0).c, 0);
}

#[test]
fn lock_that_tops_out_reports_cleared_rows() {
    let mut game = game_with(8, 6, &[TetrominoVariant::T, TetrominoVariant::Z, TetrominoVariant::I, TetrominoVariant::L]);
    game.lock_piece(&Tetromino::new(TetrominoVariant::I, 1, 1));
    game.lock_piece(&Tetromino::new(TetrominoVariant::O, 6, 1));
    assert_eq!(game.lock_piece(&Tetromino::new(TetrominoVariant::O, 4, 0)), (true, 1));
    assert!(game.is_gameover());
}

#[test]
fn glyph_shows_stack_piece_and_blank() {
    let mut game = game_with(10, 20, &[TetrominoVariant::T, TetrominoVariant::J]);
    game.start();
    game.lock_piece(&Tetromino::new(TetrominoVariant::O, 0, 18));
    assert_eq!(cells(game.get_tetromino()), [(4, 0), (4, 1), (5, 0), (6, 0)]);
    assert_eq!(game.glyph(4, 0), '1');
    assert_eq!(game.glyph(4, 1), '2');
    assert_eq!(game.glyph(5, 0), '3');
    assert_eq!(game.glyph(6, 0), '4');
    assert_eq!(game.glyph(7, 0), ' ');
    assert_eq!(game.glyph(0, 18), 'x');
    assert_eq!(game.glyph(1, 19), 'x');
    assert_eq!(game.glyph(2, 19), ' ');
}

#[test]
fn tile_color_is_zero_for_empty_and_the_piece_color_for_locked_cells() {
    let mut game = game_with(10, 20, &[]);
    game.lock_piece(&Tetromino::new(TetrominoVariant::Z, 3, 10));
    assert_eq!(game.tile_color(2, 10).c, 15);
    assert_eq!(game.tile_color(3, 10).c, 15);
    assert_eq!(game.tile_color(3, 11).c, 15);
    assert_eq!(game.tile_color(4, 11).c, 15);
    assert_eq!(game.tile_color(4, 10).c, 0);
}
