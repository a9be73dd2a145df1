use vstd::prelude::*;
use crate::board::{Board, BoardDirection, after_move, arranged};
use crate::geometry::Point;

verus! {

/// The screen that the game shows.
#[derive(Clone, Copy, Debug, PartialEq, Eq, Structural)]
pub enum GameScreen {
    Home,
    Play,
}

/// A key press, as far as the game tells keys apart.
#[derive(Clone, Copy, Debug, PartialEq, Eq, Structural)]
pub enum Key {
    Return,
    Escape,
    Up,
    Down,
    Left,
    Right,
    H,
    Other,
}

/// The play size of a new game.
pub const GAME_SIZE: i32 = 3;

/// Where a new game's board is drawn from.
pub const GAME_LEFT: i32 = 200;

/// Where a new game's board is drawn from.
pub const GAME_TOP: i32 = 150;

/// The direction in which an arrow key sends the cursor: the tile next to
/// the cursor slides the way the arrow points, so the cursor goes the other
/// way.
pub open spec fn key_direction(key: Key) -> Option<BoardDirection> {
    match key {
        Key::Up => Some(BoardDirection::DOWN),
        Key::Down => Some(BoardDirection::UP),
        Key::Left => Some(BoardDirection::RIGHT),
        Key::Right => Some(BoardDirection::LEFT),
        _ => None,
    }
}

/// A shuffled board for a new game.
pub fn new_game() -> (r: Board)
    ensures
        r.wf(),
        r.row == GAME_SIZE,
        r.position == (Point { x: GAME_LEFT, y: GAME_TOP }),
        !r.show_help,
        !arranged(r.cells@),
{
    let mut board = Board::new(GAME_SIZE, Point::new(GAME_LEFT, GAME_TOP));
    board.scatter();
    board
}

/// Handles one key press on `screen` and returns the screen shown next. On
/// the home screen Return starts a new game; on the play screen Escape goes
/// home, an arrow key moves the cursor and H toggles the help.
pub fn handle_key(screen: GameScreen, board: &mut Option<Board>, key: Key) -> (r: GameScreen)
    requires
        screen == GameScreen::Play ==> *old(board) is Some && (*old(board))->0.wf(),
    ensures
        screen == GameScreen::Home && key == Key::Return ==> {
            &&& r == GameScreen::Play
            &&& *final(board) is Some
            &&& (*final(board))->0.wf()
            &&& (*final(board))->0.row == GAME_SIZE
            &&& !arranged((*final(board))->0.cells@)
        },
        screen == GameScreen::Home && key != Key::Return ==> r == GameScreen::Home && *final(board)
            == *old(board),
        screen == GameScreen::Play && key == Key::Escape ==> r == GameScreen::Home && *final(board)
            == *old(board),
        screen == GameScreen::Play && key != Key::Escape ==> r == GameScreen::Play,
        screen == GameScreen::Play && key_direction(key) is Some ==> {
            let b = (*old(board))->0;
            &&& *final(board) is Some
            &&& (*final(board))->0.wf()
            &&& (*final(board))->0.cells@ == after_move(b.row as int, b.cells@, key_direction(key)->0)
            &&& (*final(board))->0.row == b.row
            &&& (*final(board))->0.col == b.col
            &&& (*final(board))->0.position == b.position
            &&& (*final(board))->0.show_help == b.show_help
        },
        screen == GameScreen::Play && key == Key::H ==> {
            let b = (*old(board))->0;
            &&& *final(board) is Some
            &&& (*final(board))->0.cells@ == b.cells@
            &&& (*final(board))->0.row == b.row
            &&& (*final(board))->0.col == b.col
            &&& (*final(board))->0.position == b.position
            &&& (*final(board))->0.show_help == !b.show_help
        },
        screen == GameScreen::Play && (key == Key::Return || key == Key::Other) ==> *final(board)
            == *old(board),
{
    match screen {
        GameScreen::Home => {
            if let Key::Return = key {
                *board = Some(new_game());
                GameScreen::Play
            } else {
                GameScreen::Home
            }
        },
        GameScreen::Play => {
            match board {
                Some(b) => {
                    match key {
                        Key::Escape => {
                            return GameScreen::Home;
                        },
                        Key::Up => {
                            b.move_tile(BoardDirection::DOWN);
                        },
                        Key::Down => {
                            b.move_tile(BoardDirection::UP);
                        },
                        Key::Left => {
                            b.move_tile(BoardDirection::RIGHT);
                        },
                        Key::Right => {
                            b.move_tile(BoardDirection::LEFT);
                        },
                        Key::H => {
                            b.show_help = !b.show_help;
                        },
                        _ => {},
                    }
                },
                None => {},
            }
            GameScreen::Play
        },
    }
}

} // verus!
