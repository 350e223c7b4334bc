use rusty_reversi::board::Board;
use rusty_reversi::color::Color;
use rusty_reversi::legality::LegalMove;

fn board_of(pieces: &[(usize, usize, Color)]) -> Board {
    let mut cells = [[None; 8]; 8];
    for &(x, y, color) in pieces {
        cells[x][y] = Some(color);
    }
    Board { cells }
}

fn count(board: &Board, color: Color) -> i32 {
    let mut n = 0;
    for column in board.cells.iter() {
        for cell in column.iter() {
            if *cell == Some(color) {
                n += 1;
            }
        }
    }
    n
}

#[test]
fn put_flips_the_captured_piece_and_sets_the_new_one() {
    let mut board = Board::new();
    match board.test_cell(Color::Black, (3, 5)) {
        Ok(legal_move) => {
            board.put(Color::Black, (3, 5), legal_move.flips);
            assert_eq!(board.cells[3][4].unwrap(), Color::Black);
        }
        Err(err) => panic!("Should not happen: {}", err.to_string()),
    }
    let expected = board_of(&[
        (3, 3, Color::Black),
        (3, 4, Color::Black),
        (3, 5, Color::Black),
        (4, 3, Color::White),
        (4, 4, Color::Black),
    ]);
    assert!(board == expected);
}

#[test]
fn apply_changes_the_captured_lines_only() {
    let board = board_of(&[
        (1, 0, Color::White),
        (2, 0, Color::White),
        (3, 0, Color::Black),
        (1, 1, Color::White),
        (2, 2, Color::Black),
        (0, 1, Color::White),
        (0, 2, Color::White),
        (0, 3, Color::White),
    ]);
    let legal_move = board.test_cell(Color::Black, (0, 0)).unwrap();
    let next = legal_move.apply(board);
    let expected = board_of(&[
        (0, 0, Color::Black),
        (1, 0, Color::Black),
        (2, 0, Color::Black),
        (3, 0, Color::Black),
        (1, 1, Color::Black),
        (2, 2, Color::Black),
        (0, 1, Color::White),
        (0, 2, Color::White),
        (0, 3, Color::White),
    ]);
    assert_eq!(next.cells, expected.cells);
}

#[test]
fn apply_in_every_direction_at_once() {
    let mut pieces = Vec::new();
    let deltas: [(i8, i8); 8] =
        [(0, 1), (1, 1), (1, 0), (1, -1), (0, -1), (-1, -1), (-1, 0), (-1, 1)];
    for &(dx, dy) in deltas.iter() {
        pieces.push(((3 + dx) as usize, (3 + dy) as usize, Color::Black));
        pieces.push(((3 + 2 * dx) as usize, (3 + 2 * dy) as usize, Color::Black));
        pieces.push(((3 + 3 * dx) as usize, (3 + 3 * dy) as usize, Color::White));
    }
    let board = board_of(&pieces);
    let legal_move = board.test_cell(Color::White, (3, 3)).unwrap();
    assert_eq!(legal_move.flips, [2; 8]);
    let next = legal_move.apply(board);
    assert_eq!(count(&next, Color::White), 25);
    assert_eq!(count(&next, Color::Black), 0);
}

#[test]
fn flip_direction_recolors_exactly_n_cells() {
    let mut board = board_of(&[(1, 1, Color::White), (2, 2, Color::White), (3, 3, Color::White)]);
    board.flip_direction(Color::Black, (0, 0), 1, 2);
    let expected = board_of(&[(1, 1, Color::Black), (2, 2, Color::Black), (3, 3, Color::White)]);
    assert_eq!(board.cells, expected.cells);
    board.flip_direction(Color::White, (4, 4), 5, 0);
    assert_eq!(board.cells, expected.cells);
}

#[test]
fn mover_gains_one_more_than_the_captures() {
    let board = Board::new();
    let legal_move = board.test_cell(Color::Black, (3, 5)).unwrap();
    let captured: i32 = legal_move.flips.iter().map(|&n| n as i32).sum();
    assert_eq!(captured, 1);
    let next = legal_move.apply(board);
    assert_eq!(count(&next, Color::Black), 2 + 1 + captured);
    assert_eq!(count(&next, Color::White), 2 - captured);
    assert_eq!(count(&next, Color::Black) + count(&next, Color::White), 4 + 1);
}

#[test]
fn counts_change_by_the_captures_on_a_crowded_board() {
    let pieces = [
        (1, 0, Color::White),
        (2, 0, Color::White),
        (3, 0, Color::Black),
        (1, 1, Color::White),
        (2, 2, Color::Black),
        (0, 1, Color::White),
        (0, 2, Color::White),
        (0, 3, Color::White),
    ];
    let before = board_of(&pieces);
    let legal_move = before.test_cell(Color::Black, (0, 0)).unwrap();
    let next = legal_move.apply(board_of(&pieces));
    assert_eq!(count(&next, Color::Black), count(&before, Color::Black) + 1 + 3);
    assert_eq!(count(&next, Color::White), count(&before, Color::White) - 3);
}

#[test]
fn fits_board_refuses_lines_that_leave_the_board() {
    let inside = LegalMove { color: Color::Black, flips: [7, 7, 7, 0, 0, 0, 0, 0], position: (0, 0) };
    assert!(inside.fits_board());
    let too_long = LegalMove { color: Color::Black, flips: [8, 0, 0, 0, 0, 0, 0, 0], position: (0, 0) };
    assert!(!too_long.fits_board());
    let downward = LegalMove { color: Color::Black, flips: [0, 0, 0, 0, 1, 0, 0, 0], position: (0, 0) };
    assert!(!downward.fits_board());
    let negative = LegalMove { color: Color::Black, flips: [0, 0, -1, 0, 0, 0, 0, 0], position: (4, 4) };
    assert!(!negative.fits_board());
    let off_board = LegalMove { color: Color::Black, flips: [0; 8], position: (8, 0) };
    assert!(!off_board.fits_board());
    let far = LegalMove { color: Color::White, flips: [0, 0, 127, 0, 0, 0, 127, 0], position: (3, 3) };
    assert!(!far.fits_board());
    let every_way = LegalMove { color: Color::White, flips: [3, 3, 3, 3, 3, 3, 3, 3], position: (3, 3) };
    assert!(every_way.fits_board());
}
