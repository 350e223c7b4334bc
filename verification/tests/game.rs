use rusty_reversi::game::has_valid_move;
use rusty_reversi::game::new_game;
use rusty_reversi::game::Board;
use rusty_reversi::game::Color;
use rusty_reversi::game::Game;
use rusty_reversi::game::IllegalMove;
use rusty_reversi::game::LegalMove;
use rusty_reversi::game::Place;
use rusty_reversi::game::Skip;

fn board_with(pieces: &[(usize, usize, Color)]) -> Board {
    let mut cells = [[None; 8]; 8];
    for &(x, y, color) in pieces {
        cells[x][y] = Some(color);
    }
    Board { cells }
}

fn placing(player: Color, pieces: &[(usize, usize, Color)]) -> Place {
    let board = board_with(pieces);
    let moves = board.test(player);
    Place { player, retry_reason: None, moves, board }
}

#[test]
fn new_game_initializes_board() {
    let game = new_game();

    match game {
        Game::Place(place) => {
            assert_eq!(place.board.cells, Board::new().cells);
        }
        _ => panic!("should be a Game::Place"),
    }
}

#[test]
fn new_game_starts_with_black_and_its_grid() {
    match new_game() {
        Game::Place(place) => {
            assert_eq!(place.player, Color::Black);
            assert_eq!(place.retry_reason, None);
            assert_eq!(place.moves, Board::new().test(Color::Black));
            assert!(has_valid_move(&place.moves));
        }
        _ => panic!("should be a Game::Place"),
    }
}

#[test]
fn legal_placement_flips_and_hands_the_turn_over() {
    let place = match new_game() {
        Game::Place(place) => place,
        _ => panic!("should be a Game::Place"),
    };
    assert_eq!(
        place.moves[3][5],
        Ok(LegalMove { color: Color::Black, flips: [0, 0, 0, 0, 1, 0, 0, 0], position: (3, 5) })
    );
    match place.place((3, 5)) {
        Game::Place(next) => {
            assert_eq!(next.player, Color::White);
            assert_eq!(next.retry_reason, None);
            assert_eq!(next.board.cells[3][4], Some(Color::Black));
            assert_eq!(next.board.cells[3][5], Some(Color::Black));
            assert_eq!(next.board.cells[3][3], Some(Color::Black));
            assert_eq!(next.board.cells[4][4], Some(Color::Black));
            assert_eq!(next.board.cells[4][3], Some(Color::White));
            assert_eq!(next.moves, next.board.test(Color::White));
        }
        _ => panic!("should be a Game::Place"),
    }
}

#[test]
fn placement_on_occupied_cell_asks_again() {
    let place = match new_game() {
        Game::Place(place) => place,
        _ => panic!("should be a Game::Place"),
    };
    match place.place((3, 3)) {
        Game::Place(next) => {
            assert_eq!(next.retry_reason, Some(IllegalMove::Occupied(Color::Black)));
            assert_eq!(next.player, Color::Black);
            assert!(next.board == Board::new());
            assert_eq!(next.moves, Board::new().test(Color::Black));
        }
        _ => panic!("should be a Game::Place"),
    }
}

#[test]
fn placement_without_capture_asks_again() {
    let place = match new_game() {
        Game::Place(place) => place,
        _ => panic!("should be a Game::Place"),
    };
    match place.place((0, 0)) {
        Game::Place(next) => {
            assert_eq!(next.retry_reason, Some(IllegalMove::Ineffective));
            assert_eq!(next.player, Color::Black);
            assert!(next.board == Board::new());
            assert_eq!(next.moves, Board::new().test(Color::Black));
        }
        _ => panic!("should be a Game::Place"),
    }
}

#[test]
fn retry_reason_is_cleared_by_a_legal_placement() {
    let place = match new_game() {
        Game::Place(place) => place,
        _ => panic!("should be a Game::Place"),
    };
    let again = match place.place((0, 0)) {
        Game::Place(next) => next,
        _ => panic!("should be a Game::Place"),
    };
    assert_eq!(again.retry_reason, Some(IllegalMove::Ineffective));
    let other_reason = match again.place((4, 3)) {
        Game::Place(next) => next,
        _ => panic!("should be a Game::Place"),
    };
    assert_eq!(other_reason.retry_reason, Some(IllegalMove::Occupied(Color::White)));
    match other_reason.place((5, 3)) {
        Game::Place(next) => {
            assert_eq!(next.retry_reason, None);
            assert_eq!(next.player, Color::White);
            assert_eq!(next.board.cells[4][3], Some(Color::Black));
            assert_eq!(next.board.cells[5][3], Some(Color::Black));
        }
        _ => panic!("should be a Game::Place"),
    }
}

#[test]
fn placement_that_leaves_no_move_forces_a_skip() {
    let place = placing(Color::Black, &[(0, 0, Color::Black), (1, 0, Color::White)]);
    match place.place((2, 0)) {
        Game::Skip(skip) => {
            assert_eq!(skip.player, Color::White);
            let expected =
                board_with(&[(0, 0, Color::Black), (1, 0, Color::Black), (2, 0, Color::Black)]);
            assert!(skip.board == expected);
        }
        _ => panic!("should be a Game::Skip"),
    }
}

#[test]
fn skip_ends_the_game_when_nobody_can_move() {
    let place = placing(Color::Black, &[(0, 0, Color::Black), (1, 0, Color::White)]);
    let skip = match place.place((2, 0)) {
        Game::Skip(skip) => skip,
        _ => panic!("should be a Game::Skip"),
    };
    assert!(matches!(skip.skip(), Game::End));
}

#[test]
fn skip_on_a_grid_without_legal_cells_ends_the_game() {
    let pieces = [(0, 0, Color::Black), (7, 7, Color::White)];
    let stuck = placing(Color::Black, &pieces);
    assert!(!has_valid_move(&stuck.moves));
    assert!(!has_valid_move(&stuck.board.test(Color::White)));
    let skip = Skip { player: stuck.player, board: stuck.board };
    assert!(matches!(skip.skip(), Game::End));
    let empty = Skip { player: Color::White, board: board_with(&[]) };
    assert!(matches!(empty.skip(), Game::End));
}

#[test]
fn skip_hands_the_same_board_to_the_opponent() {
    // White cannot move, Black can: (2, 0) closes on (1, 0).
    let pieces = [(0, 0, Color::Black), (1, 0, Color::White), (7, 7, Color::Black)];
    let board = board_with(&pieces);
    assert!(!has_valid_move(&board.test(Color::White)));
    let skip = Skip { player: Color::White, board };
    match skip.skip() {
        Game::Place(next) => {
            assert_eq!(next.player, Color::Black);
            assert_eq!(next.retry_reason, None);
            assert!(next.board == board_with(&pieces));
            assert_eq!(next.moves, board_with(&pieces).test(Color::Black));
            assert!(next.moves[2][0].is_ok());
        }
        _ => panic!("should be a Game::Place"),
    }
}

#[test]
fn has_valid_move_finds_a_single_legal_cell() {
    let board = board_with(&[(5, 7, Color::Black), (6, 7, Color::White)]);
    let grid = board.test(Color::Black);
    assert!(has_valid_move(&grid));
    assert!(grid[7][7].is_ok());
    let none = board_with(&[(5, 7, Color::Black)]).test(Color::Black);
    assert!(!has_valid_move(&none));
    assert!(!has_valid_move(&Vec::new()));
}

#[test]
fn a_short_game_alternates_players() {
    let mut state = new_game();
    let choices = [(3, 5), (2, 5), (1, 5)];
    let mut expected = Color::Black;
    for cell in choices {
        state = match state {
            Game::Place(place) => {
                assert_eq!(place.player, expected);
                assert!(place.moves[cell.0 as usize][cell.1 as usize].is_ok());
                place.place(cell)
            }
            _ => panic!("should be a Game::Place"),
        };
        expected = expected.flip();
    }
    match state {
        Game::Place(place) => {
            assert_eq!(place.player, Color::White);
            let mut pieces = 0;
            for column in place.board.cells.iter() {
                for cell in column.iter() {
                    if cell.is_some() {
                        pieces += 1;
                    }
                }
            }
            assert_eq!(pieces, 7);
        }
        _ => panic!("should be a Game::Place"),
    }
}
