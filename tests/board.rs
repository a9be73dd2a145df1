use slides::board::{Board, BoardDirection};
use slides::geometry::{Point, Rect};
use slides::scatter::{DRAW_RANGE, SCATTER_MOVES};
use slides::screen::{handle_key, new_game, GameScreen, Key};
use slides::tile::Tile;

fn values(board: &Board) -> Vec<Option<i32>> {
    board.cells.iter().map(|t| t.value).collect()
}

fn selection(board: &Board) -> Vec<bool> {
    board.cells.iter().map(|t| t.selected).collect()
}

fn addresses(board: &Board) -> Vec<(i32, i32)> {
    board.cells.iter().map(|t| t.address).collect()
}

fn cursor(board: &Board) -> (i32, i32) {
    let selected: Vec<&Tile> = board.cells.iter().filter(|t| t.selected).collect();
    assert_eq!(selected.len(), 1);
    assert_eq!(selected[0].value, Some(0));
    selected[0].address
}

fn value_at(board: &Board, address: (i32, i32)) -> Option<i32> {
    board.cells.iter().find(|t| t.address == address).unwrap().value
}

#[test]
fn new_board_layout() {
    let board = Board::new(3, Point::new(200, 150));
    assert_eq!(board.row, 3);
    assert_eq!(board.col, 4);
    assert!(!board.show_help);
    assert_eq!(board.cells.len(), 12);
    assert_eq!(
        values(&board),
        vec![Some(0), None, None, Some(1), Some(2), Some(3), Some(4), Some(5), Some(6), Some(7), Some(8), Some(9)]
    );
    assert_eq!(
        addresses(&board),
        vec![(0, 0), (1, 0), (2, 0), (0, 1), (1, 1), (2, 1), (0, 2), (1, 2), (2, 2), (0, 3), (1, 3), (2, 3)]
    );
    assert_eq!(cursor(&board), (0, 0));
    assert_eq!(board.cells[0].position, Point::new(200, 150));
    assert_eq!(board.cells[0].image_src_rect, None);
    assert_eq!(board.cells[0].image_dest_rect, Some(Rect::new(200, 150, 100, 100)));
    assert_eq!(board.cells[2].position, Point::new(420, 150));
    assert_eq!(board.cells[2].image_dest_rect, None);
    // the tile numbered 5 sits at (1, 2)
    assert_eq!(board.cells[7].position, Point::new(310, 370));
    assert_eq!(board.cells[7].image_src_rect, Some(Rect::new(110, 110, 100, 100)));
    assert_eq!(board.cells[7].image_dest_rect, Some(Rect::new(310, 370, 100, 100)));
    assert!(board.check_arranged());
}

#[test]
fn win_check_on_ordered_values() {
    let mut board = Board::new(3, Point::new(0, 0));
    assert!(board.check_arranged());
    // tiles at positions 1 and 2 of the defined values swapped
    board.cells[3].value = Some(2);
    board.cells[4].value = Some(1);
    assert!(!board.check_arranged());
}

#[test]
fn win_check_on_a_gap() {
    let mut board = Board::new(2, Point::new(0, 0));
    board.cells[5].value = Some(5);
    assert!(!board.check_arranged());
    board.cells[5].value = Some(-1);
    assert!(!board.check_arranged());
}

#[test]
fn win_check_on_larger_board() {
    let board = Board::new(5, Point::new(-30, -40));
    assert_eq!(board.cells.len(), 30);
    assert!(board.check_arranged());
}

#[test]
fn swap_value_exchanges_contents() {
    let r1 = Rect::new(1, 2, 3, 4);
    let r2 = Rect::new(5, 6, 7, 8);
    let mut a = Tile::new(Some(0), Point::new(0, 0), (0, 0), None, Some(r1));
    a.selected = true;
    let mut b = Tile::new(Some(4), Point::new(9, 9), (0, 1), Some(r2), Some(r2));
    assert!(a.swap_value(&mut b));
    assert_eq!(a.value, Some(4));
    assert!(!a.selected);
    assert_eq!(b.value, Some(0));
    assert!(b.selected);
    assert_eq!(a.address, (0, 0));
    assert_eq!(b.address, (0, 1));
    assert_eq!(a.position, Point::new(0, 0));
    assert_eq!(b.position, Point::new(9, 9));
    // the image source follows the value that has one; the other side keeps its own
    assert_eq!(a.image_src_rect, Some(r2));
    assert_eq!(b.image_src_rect, Some(r2));
    assert_eq!(a.image_dest_rect, Some(r1));
    assert_eq!(b.image_dest_rect, Some(r2));
}

#[test]
fn swap_value_refuses_blocking_tile() {
    let mut a = Tile::new(Some(0), Point::new(0, 0), (0, 0), None, None);
    a.selected = true;
    let mut b = Tile::new(None, Point::new(1, 1), (1, 0), None, None);
    assert!(!a.swap_value(&mut b));
    assert_eq!(a.value, Some(0));
    assert!(a.selected);
    assert_eq!(b.value, None);
    assert!(!b.selected);
}

#[test]
fn move_scenario_on_size_three() {
    let mut board = Board::new(3, Point::new(200, 150));
    let addresses_before = addresses(&board);
    // from (0, 0) the only ways are blocked or off the grid, but for DOWN
    assert!(!board.move_tile(BoardDirection::UP));
    assert!(!board.move_tile(BoardDirection::LEFT));
    assert!(!board.move_tile(BoardDirection::RIGHT));
    assert_eq!(cursor(&board), (0, 0));
    assert!(board.move_tile(BoardDirection::DOWN));
    assert_eq!(cursor(&board), (0, 1));
    assert_eq!(value_at(&board, (0, 0)), Some(1));
    assert_eq!(value_at(&board, (0, 1)), Some(0));
    // a grid edge: cursor at column 0, LEFT
    let before_values = values(&board);
    let before_selection = selection(&board);
    assert!(!board.move_tile(BoardDirection::LEFT));
    assert_eq!(values(&board), before_values);
    assert_eq!(selection(&board), before_selection);
    // the header row above (1, 1) blocks
    assert!(board.move_tile(BoardDirection::RIGHT));
    assert_eq!(cursor(&board), (1, 1));
    assert_eq!(value_at(&board, (0, 1)), Some(2));
    assert!(!board.move_tile(BoardDirection::UP));
    assert!(board.move_tile(BoardDirection::DOWN));
    assert_eq!(value_at(&board, (1, 1)), Some(5));
    assert_eq!(value_at(&board, (1, 2)), Some(0));
    assert!(board.move_tile(BoardDirection::DOWN));
    assert_eq!(cursor(&board), (1, 3));
    assert!(!board.move_tile(BoardDirection::DOWN));
    assert!(board.move_tile(BoardDirection::RIGHT));
    assert!(!board.move_tile(BoardDirection::RIGHT));
    assert_eq!(cursor(&board), (2, 3));
    assert_eq!(value_at(&board, (1, 3)), Some(9));
    assert_eq!(addresses(&board), addresses_before);
    assert!(!board.check_arranged());
}

#[test]
fn move_then_opposite_restores_layout() {
    let mut board = Board::new(4, Point::new(0, 0));
    assert!(board.move_tile(BoardDirection::DOWN));
    assert!(board.move_tile(BoardDirection::RIGHT));
    let pairs = [
        (BoardDirection::DOWN, BoardDirection::UP),
        (BoardDirection::RIGHT, BoardDirection::LEFT),
        (BoardDirection::LEFT, BoardDirection::RIGHT),
        (BoardDirection::UP, BoardDirection::DOWN),
    ];
    for (d, back) in pairs {
        let before_values = values(&board);
        let before_selection = selection(&board);
        if board.move_tile(d) {
            assert_ne!(values(&board), before_values);
            assert!(board.move_tile(back));
            assert_eq!(values(&board), before_values);
            assert_eq!(selection(&board), before_selection);
        }
    }
}

#[test]
fn moving_back_to_the_corner_arranges_again() {
    let mut board = Board::new(2, Point::new(0, 0));
    assert!(board.move_tile(BoardDirection::DOWN));
    assert!(!board.check_arranged());
    assert!(board.move_tile(BoardDirection::UP));
    assert!(board.check_arranged());
}

#[test]
fn legal_directions_at_start() {
    let board = Board::new(3, Point::new(0, 0));
    assert_eq!(board.legal_directions(), vec![BoardDirection::DOWN]);
    assert_eq!(board.pick_direction(7), BoardDirection::DOWN);
}

#[test]
fn legal_directions_in_the_middle() {
    let mut board = Board::new(3, Point::new(0, 0));
    assert!(board.move_tile(BoardDirection::DOWN));
    assert!(board.move_tile(BoardDirection::DOWN));
    assert!(board.move_tile(BoardDirection::RIGHT));
    assert_eq!(cursor(&board), (1, 2));
    assert_eq!(
        board.legal_directions(),
        vec![BoardDirection::UP, BoardDirection::DOWN, BoardDirection::LEFT, BoardDirection::RIGHT]
    );
    assert_eq!(board.pick_direction(6), BoardDirection::LEFT);
    assert!(board.move_tile(BoardDirection::UP));
    assert_eq!(board.legal_directions(), vec![BoardDirection::DOWN, BoardDirection::LEFT, BoardDirection::RIGHT]);
}

#[test]
fn scatter_with_fixed_draws_is_deterministic() {
    let draws: Vec<usize> = (0..2 * SCATTER_MOVES).map(|i| (i * 7 + 3) % DRAW_RANGE).collect();
    let mut a = Board::new(3, Point::new(0, 0));
    let mut b = Board::new(3, Point::new(0, 0));
    let addresses_before = addresses(&a);
    a.scatter_with(&draws);
    b.scatter_with(&draws);
    assert_eq!(values(&a), values(&b));
    assert!(!a.check_arranged());
    assert_eq!(addresses(&a), addresses_before);
    cursor(&a);
    assert_eq!(value_at(&a, (1, 0)), None);
    assert_eq!(value_at(&a, (2, 0)), None);
}

#[test]
fn scatter_with_draws_that_walk_back_and_forth() {
    // draw 0 always picks the first legal direction
    let draws: Vec<usize> = vec![0; 2 * SCATTER_MOVES];
    let mut board = Board::new(2, Point::new(0, 0));
    board.scatter_with(&draws);
    assert!(!board.check_arranged());
    cursor(&board);
}

#[test]
fn scatter_leaves_board_unarranged() {
    for size in 2..5 {
        let mut board = Board::new(size, Point::new(10, 10));
        let addresses_before = addresses(&board);
        board.scatter();
        assert!(!board.check_arranged());
        assert_eq!(addresses(&board), addresses_before);
        cursor(&board);
        let mut sorted: Vec<i32> = board.cells.iter().filter_map(|t| t.value).collect();
        sorted.sort();
        let expected: Vec<i32> = (0..=size * size).collect();
        assert_eq!(sorted, expected);
    }
}

#[test]
fn handle_key_starts_and_plays() {
    let mut board: Option<Board> = None;
    assert_eq!(handle_key(GameScreen::Home, &mut board, Key::Up), GameScreen::Home);
    assert!(board.is_none());
    assert_eq!(handle_key(GameScreen::Home, &mut board, Key::Return), GameScreen::Play);
    let start = values(board.as_ref().unwrap());
    assert!(!board.as_ref().unwrap().check_arranged());
    assert_eq!(board.as_ref().unwrap().row, 3);
    assert_eq!(handle_key(GameScreen::Play, &mut board, Key::H), GameScreen::Play);
    assert!(board.as_ref().unwrap().show_help);
    assert_eq!(values(board.as_ref().unwrap()), start);
    assert_eq!(handle_key(GameScreen::Play, &mut board, Key::Other), GameScreen::Play);
    assert_eq!(handle_key(GameScreen::Play, &mut board, Key::Escape), GameScreen::Home);
    assert!(board.is_some());
}

#[test]
fn handle_key_arrow_moves_the_other_way() {
    let mut board = Some(Board::new(3, Point::new(0, 0)));
    // the Up arrow slides the tile below the cursor up: the cursor goes DOWN
    assert_eq!(handle_key(GameScreen::Play, &mut board, Key::Up), GameScreen::Play);
    assert_eq!(cursor(board.as_ref().unwrap()), (0, 1));
    assert_eq!(handle_key(GameScreen::Play, &mut board, Key::Left), GameScreen::Play);
    assert_eq!(cursor(board.as_ref().unwrap()), (1, 1));
    assert_eq!(handle_key(GameScreen::Play, &mut board, Key::Right), GameScreen::Play);
    assert_eq!(cursor(board.as_ref().unwrap()), (0, 1));
    assert_eq!(handle_key(GameScreen::Play, &mut board, Key::Down), GameScreen::Play);
    assert_eq!(cursor(board.as_ref().unwrap()), (0, 0));
    assert!(board.as_ref().unwrap().check_arranged());
}

#[test]
fn new_game_is_shuffled() {
    let board = new_game();
    assert_eq!(board.row, 3);
    assert_eq!(board.position, Point::new(200, 150));
    assert!(!board.check_arranged());
}
