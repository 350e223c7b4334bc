//! The turn state machine: place, forced skip, end.

use crate::board::on_board;
use crate::legality::{
    grid_view, has_legal_move, legality, lemma_some_legal, some_legal, total, verdict,
};
use crate::placement::{applied, lemma_verdict_fits};
use crate::tally::{lemma_place_counts, occupied, pieces};
use vstd::prelude::*;

pub use crate::board::{opening, Board, Cells, Coord, DIRECTIONS};
pub use crate::color::Color;
pub use crate::legality::{IllegalMove, LegalMove};

verus! {

/// Enumerates possible states of the game.
pub enum Game {
    /// The player should place a piece on the board.
    Place(Place),
    /// The player should skip their turn.
    Skip(Skip),
    /// The game has ended. Moves are no longer possible.
    End,
}

/// The game state that has a placing move as continuation.
pub struct Place {
    /// The player who should place a piece next.
    pub player: Color,
    /// If this move is a retry, it contains the reason why the refused move was illegal.
    pub retry_reason: Option<IllegalMove>,
    /// Contains the fact for each cell on `board` whether placing the piece by `player` in that
    /// cell is legal or illegal. Column is the primary index.
    pub moves: Vec<Vec<Result<LegalMove, IllegalMove>>>,
    pub board: Board,
}

/// The game state that has a skipping move as continuation.
///
/// Making explicit that a given player has no valid step in their current
/// turn is a simple way of notifying the player of this situation.
pub struct Skip {
    pub player: Color,
    pub board: Board,
}

/// The model of a game state: whose turn it is on which board. The grid
/// of a placing state is no part of it: it follows from board and player.
pub enum Turn {
    Place { player: Color, retry_reason: Option<IllegalMove>, cells: Cells },
    Skip { player: Color, cells: Cells },
    End,
}

impl View for Place {
    type V = Turn;

    open spec fn view(&self) -> Turn {
        Turn::Place { player: self.player, retry_reason: self.retry_reason, cells: self.board@ }
    }
}

impl View for Skip {
    type V = Turn;

    open spec fn view(&self) -> Turn {
        Turn::Skip { player: self.player, cells: self.board@ }
    }
}

impl View for Game {
    type V = Turn;

    open spec fn view(&self) -> Turn {
        match self {
            Game::Place(place) => place@,
            Game::Skip(skip) => skip@,
            Game::End => Turn::End,
        }
    }
}

/// The state in which `player` is to move on `cells` after the opponent
/// has placed a piece: to place where some cell is legal, else to skip.
pub open spec fn turn_after_place(player: Color, cells: Cells) -> Turn {
    if has_legal_move(cells, player) {
        Turn::Place { player, retry_reason: None, cells }
    } else {
        Turn::Skip { player, cells }
    }
}

/// The state that follows when `player` chooses cell `(x, y)` on `cells`:
/// an illegal choice leaves player and board and gives the reason; a
/// legal one is played and hands the turn to the opponent.
pub open spec fn after_place(player: Color, cells: Cells, x: int, y: int) -> Turn {
    match verdict(cells, player, x, y) {
        Err(reason) => Turn::Place { player, retry_reason: Some(reason), cells },
        Ok(placement) => turn_after_place(player.opponent(), applied(cells, placement)),
    }
}

/// The state that follows when `player` skips on `cells`: the opponent
/// places on the same board, or the game ends where the opponent has no
/// legal move either.
pub open spec fn after_skip(player: Color, cells: Cells) -> Turn {
    if has_legal_move(cells, player.opponent()) {
        Turn::Place { player: player.opponent(), retry_reason: None, cells }
    } else {
        Turn::End
    }
}

/// The state in which every game starts: Black is to place on the
/// opening constellation.
pub open spec fn start() -> Turn {
    Turn::Place { player: Color::Black, retry_reason: None, cells: opening() }
}

/// Skipping changes no cell and no count of pieces: the game is over, or
/// the opponent is to place on the very same board.
pub proof fn lemma_skip_keeps_board(player: Color, cells: Cells)
    ensures
        match after_skip(player, cells) {
            Turn::Place { player: next_player, retry_reason, cells: next_cells } => {
                &&& has_legal_move(cells, player.opponent())
                &&& next_player == player.opponent()
                &&& retry_reason is None
                &&& next_cells == cells
                &&& pieces(next_cells, Color::Black) == pieces(cells, Color::Black)
                &&& pieces(next_cells, Color::White) == pieces(cells, Color::White)
            },
            Turn::Skip { .. } => false,
            Turn::End => !has_legal_move(cells, player.opponent()),
        },
{
}

/// What a choice of cell does to the board. An illegal choice changes no
/// cell and keeps the turn with the player. A legal choice hands the turn
/// to the opponent, gives the player the cell and what the move captures,
/// and takes the captured pieces from the opponent: the board has one
/// piece more than before.
pub proof fn lemma_place_changes_board(player: Color, cells: Cells, x: int, y: int)
    requires
        on_board(x, y),
    ensures
        match (verdict(cells, player, x, y), after_place(player, cells, x, y)) {
            (Err(reason), Turn::Place { player: next_player, retry_reason, cells: next_cells }) => {
                &&& next_player == player
                &&& retry_reason == Some(reason)
                &&& next_cells == cells
            },
            (Ok(placement), Turn::Place { player: next_player, cells: next_cells, .. })
            | (Ok(placement), Turn::Skip { player: next_player, cells: next_cells }) => {
                &&& next_player == player.opponent()
                &&& next_cells == applied(cells, placement)
                &&& next_cells[x][y] == Some(player)
                &&& pieces(next_cells, player) == pieces(cells, player) + 1 + total(placement.flips)
                &&& pieces(next_cells, player.opponent()) == pieces(cells, player.opponent())
                    - total(placement.flips)
                &&& occupied(next_cells) == occupied(cells) + 1
            },
            _ => false,
        },
{
    if verdict(cells, player, x, y) is Ok {
        lemma_place_counts(cells, player, x, y);
    }
}

/// Whether any cell of the grid is a legal move.
pub fn has_valid_move(moves: &Vec<Vec<Result<LegalMove, IllegalMove>>>) -> (found: bool)
    ensures
        found == some_legal(grid_view(*moves)),
{
    let ghost verdicts = grid_view(*moves);
    let mut x: usize = 0;
    while x < moves.len()
        invariant
            0 <= x <= moves.len(),
            verdicts == grid_view(*moves),
            forall|cx: int, cy: int|
                0 <= cx < x && 0 <= cy < verdicts[cx].len() ==> !((
                #[trigger] verdicts[cx][cy]) is Ok),
        decreases moves.len() - x,
    {
        let mut y: usize = 0;
        while y < moves[x].len()
            invariant
                0 <= x < moves.len(),
                0 <= y <= moves[x as int].len(),
                verdicts == grid_view(*moves),
                forall|cy: int| 0 <= cy < y ==> !((#[trigger] verdicts[x as int][cy]) is Ok),
            decreases moves[x as int].len() - y,
        {
            if moves[x][y].is_ok() {
                assert(verdicts[x as int][y as int] is Ok);
                return true;
            }
            y += 1;
        }
        x += 1;
    }
    false
}

impl Place {
    /// The grid is the legality grid of the board for the player.
    pub open spec fn wf(&self) -> bool {
        grid_view(self.moves) == legality(self.board@, self.player)
    }

    /// Place a piece with `self`'s color on the selected coordinate of `self`'s board.
    ///
    /// A legal move will result in a new board, as the constellation of pieces always changes
    /// this way. A move may be illegal, in which case the board remains the same and the
    /// player is signalled by setting `retry_reason` to some `IllegalMove`.
    pub fn place(self, selected_cell: Coord) -> (next: Game)
        requires
            self.wf(),
            on_board(selected_cell.0 as int, selected_cell.1 as int),
        ensures
            next@ == after_place(
                self.player,
                self.board@,
                selected_cell.0 as int,
                selected_cell.1 as int,
            ),
            next.wf(),
            verdict(self.board@, self.player, selected_cell.0 as int, selected_cell.1 as int)
                matches Err(reason) ==> next == Game::Place(
                Place {
                    player: self.player,
                    retry_reason: Some(reason),
                    moves: self.moves,
                    board: self.board,
                },
            ),
    {
        let (x, y) = selected_cell;
        let ghost verdicts = grid_view(self.moves);
        assert(verdicts.len() == 8 && verdicts[x as int].len() == 8);
        assert(verdicts[x as int][y as int] == verdict(
            self.board@,
            self.player,
            x as int,
            y as int,
        ));
        let outcome = self.moves[x as usize][y as usize];
        match outcome {
            Err(illegal_move) => {
                let mut new_self = self;
                new_self.retry_reason = Some(illegal_move);
                Game::Place(new_self)
            },
            Ok(legal_move) => {
                proof {
                    lemma_verdict_fits(self.board@, self.player, x as int, y as int);
                }
                let next_player = self.player.flip();
                let next_board = legal_move.apply(self.board);
                let next_moves = next_board.test(next_player);
                let can_move = has_valid_move(&next_moves);
                proof {
                    lemma_some_legal(next_board@, next_player);
                }
                if can_move {
                    Game::Place(
                        Place {
                            player: next_player,
                            board: next_board,
                            moves: next_moves,
                            retry_reason: None,
                        },
                    )
                } else {
                    Game::Skip(Skip { player: next_player, board: next_board })
                }
            },
        }
    }
}

impl Skip {
    /// Skip the next move. Returns new game state. Board remains the same.
    pub fn skip(self) -> (next: Game)
        ensures
            next@ == after_skip(self.player, self.board@),
            next.wf(),
            next matches Game::Place(place) ==> place.board == self.board,
    {
        let next_player = self.player.flip();
        let next_moves = self.board.test(next_player);
        let can_move = has_valid_move(&next_moves);
        proof {
            lemma_some_legal(self.board@, next_player);
        }
        if can_move {
            Game::Place(
                Place {
                    player: next_player,
                    board: self.board,
                    moves: next_moves,
                    retry_reason: None,
                },
            )
        } else {
            Game::End
        }
    }
}

impl Game {
    /// A placing state carries the legality grid of its board and player.
    pub open spec fn wf(&self) -> bool {
        self matches Game::Place(place) ==> place.wf()
    }
}

/// Initializes a game to the starting state.
pub fn new_game() -> (game: Game)
    ensures
        game@ == start(),
        game.wf(),
        game is Place,
{
    let board = Board::new();
    let player = Color::Black;
    let moves = board.test(player);
    Game::Place(Place { player: player, board: board, moves: moves, retry_reason: None })
}

} // verus!
