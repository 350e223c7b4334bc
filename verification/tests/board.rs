use rusty_reversi::board::is_on_board;
use rusty_reversi::board::Board;
use rusty_reversi::board::DIRECTIONS;
use rusty_reversi::color::Color;

fn empty_board() -> Board {
    Board { cells: [[None; 8]; 8] }
}

#[test]
fn flip_gives_the_other_color() {
    assert_eq!(Color::Black.flip(), Color::White);
    assert_eq!(Color::White.flip(), Color::Black);
}

#[test]
fn flip_twice_gives_the_color_back() {
    assert_eq!(Color::Black.flip().flip(), Color::Black);
    assert_eq!(Color::White.flip().flip(), Color::White);
}

#[test]
fn colors_render_by_name() {
    assert_eq!(Color::Black.to_string(), "Black");
    assert_eq!(Color::White.to_string(), "White");
}

#[test]
fn directions_are_the_eight_unit_deltas_in_order() {
    assert_eq!(
        DIRECTIONS,
        [(0, 1), (1, 1), (1, 0), (1, -1), (0, -1), (-1, -1), (-1, 0), (-1, 1)]
    );
}

#[test]
fn opening_board_has_four_central_pieces() {
    let board = Board::new();
    assert_eq!(board.cells[3][3], Some(Color::Black));
    assert_eq!(board.cells[3][4], Some(Color::White));
    assert_eq!(board.cells[4][3], Some(Color::White));
    assert_eq!(board.cells[4][4], Some(Color::Black));
    let mut occupied = 0;
    let mut empty = 0;
    for column in board.cells.iter() {
        for cell in column.iter() {
            match cell {
                Some(_) => occupied += 1,
                None => empty += 1,
            }
        }
    }
    assert_eq!(occupied, 4);
    assert_eq!(empty, 60);
}

#[test]
fn bounds_check_accepts_the_board_only() {
    assert!(is_on_board((0, 0)));
    assert!(is_on_board((7, 7)));
    assert!(is_on_board((0, 7)));
    assert!(is_on_board((3, 5)));
    assert!(!is_on_board((8, 0)));
    assert!(!is_on_board((0, 8)));
    assert!(!is_on_board((-1, 3)));
    assert!(!is_on_board((3, -1)));
    assert!(!is_on_board((127, -128)));
}

#[test]
fn boards_with_the_same_cells_are_equal() {
    let mut written = empty_board();
    written.cells[3][3] = Some(Color::Black);
    written.cells[3][4] = Some(Color::White);
    written.cells[4][3] = Some(Color::White);
    written.cells[4][4] = Some(Color::Black);
    assert!(written == Board::new());
    assert!(Board::new() == written);
    assert!(empty_board() == empty_board());
}

#[test]
fn boards_that_differ_in_one_cell_are_not_equal() {
    let mut other = Board::new();
    other.cells[7][7] = Some(Color::White);
    assert!(other != Board::new());
    let mut recolored = Board::new();
    recolored.cells[3][3] = Some(Color::White);
    assert!(recolored != Board::new());
    let mut emptied = Board::new();
    emptied.cells[0][0] = None;
    emptied.cells[4][4] = None;
    assert!(emptied != Board::new());
    assert!(empty_board() != Board::new());
}

#[test]
fn boards_reached_by_different_routes_are_equal() {
    let mut first = empty_board();
    first.put(Color::Black, (0, 0), [0; 8]);
    first.put(Color::White, (7, 7), [0; 8]);
    first.put(Color::Black, (2, 5), [0; 8]);
    let mut second = empty_board();
    second.put(Color::Black, (2, 5), [0; 8]);
    second.put(Color::White, (7, 7), [0; 8]);
    second.put(Color::White, (0, 0), [0; 8]);
    second.put(Color::Black, (0, 0), [0; 8]);
    assert!(first == second);
    assert_eq!(first.cells, second.cells);
}
