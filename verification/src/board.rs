//! Board storage: piece and square data types, the `Game` wrapper around an
//! 8 by 8 grid of optional pieces, and the operations that read or fill it.

use vstd::prelude::*;

verus! {

/// Overall progress of a game. It is tracked by the surrounding game layer;
/// move generation neither reads nor writes it beyond plain storage.
#[derive(Copy, Clone, Debug, PartialEq, Eq, Structural)]
pub enum GameState {
    InProgress,
    Check,
    GameOver,
}

/// The closed set of piece kinds; movement rules are a total function of this
/// value.
#[derive(Copy, Clone, Debug, PartialEq, Eq, Structural)]
pub enum PieceType {
    Pawn,
    Knight,
    Bishop,
    Rook,
    Queen,
    King,
}

/// The two sides. Every piece belongs to exactly one.
#[derive(Copy, Clone, Debug, PartialEq, Eq, Structural)]
pub enum Color {
    White,
    Black,
}

/// One occupant of a square: a kind together with the side it belongs to.
#[derive(Copy, Clone, Debug, PartialEq, Eq, Structural)]
pub struct Piece {
    pub piece_type: PieceType,
    pub color: Color,
}

/// Failure returned when a move query names a square with no occupant.
#[derive(Copy, Clone, Debug, PartialEq, Eq, Structural)]
pub struct EmptySquare;

/// True of any coordinate pair that names a square of the 8 by 8 board.
pub open spec fn in_bounds(x: int, y: int) -> bool {
    0 <= x <= 7 && 0 <= y <= 7
}

/// Position of square (x, y) in the file-major board sequence.
pub open spec fn square_index(x: int, y: int) -> int {
    8 * x + y
}

/// The occupant of square (x, y) in the board model b.
pub open spec fn piece_at(b: Seq<Option<Piece>>, x: int, y: int) -> Option<Piece> {
    b[square_index(x, y)]
}

/// A game: the current state together with the board, stored file-major as 64
/// optional pieces so that square (x, y) sits at index 8 * x + y.
#[derive(Debug)]
pub struct Game {
    pub(crate) state: GameState,
    pub(crate) board: [Option<Piece>; 64],
}

impl View for Game {
    type V = Seq<Option<Piece>>;

    closed spec fn view(&self) -> Seq<Option<Piece>> {
        self.board@
    }
}

/// The back-rank kind that `reset_board` places on file x.
pub open spec fn back_rank_kind(x: int) -> PieceType {
    if x == 0 || x == 7 {
        PieceType::Rook
    } else if x == 1 || x == 6 {
        PieceType::Knight
    } else if x == 2 || x == 5 {
        PieceType::Bishop
    } else if x == 3 {
        PieceType::King
    } else {
        PieceType::Queen
    }
}

/// The squares that `reset_board` writes: the two back ranks, the two pawn
/// ranks, and a handful of mid-board squares.
pub open spec fn reset_touches(x: int, y: int) -> bool {
    ||| y == 0 || y == 1 || y == 6 || y == 7
    ||| (x == 4 && y == 4) || (x == 3 && y == 3) || (x == 4 && y == 2)
    ||| (x == 3 && y == 4) || (x == 2 && y == 4)
}

/// The occupant that `reset_board` leaves at a square it writes.
pub open spec fn reset_piece(x: int, y: int) -> Option<Piece>
    recommends
        reset_touches(x, y),
{
    if x == 4 && y == 4 {
        Some(Piece { piece_type: PieceType::Rook, color: Color::White })
    } else if x == 3 && y == 3 {
        Some(Piece { piece_type: PieceType::Bishop, color: Color::Black })
    } else if x == 4 && y == 2 {
        Some(Piece { piece_type: PieceType::Queen, color: Color::Black })
    } else if x == 3 && y == 4 {
        Some(Piece { piece_type: PieceType::Knight, color: Color::White })
    } else if x == 2 && y == 4 {
        Some(Piece { piece_type: PieceType::Pawn, color: Color::White })
    } else if y == 1 {
        Some(Piece { piece_type: PieceType::Pawn, color: Color::Black })
    } else if y == 6 {
        Some(Piece { piece_type: PieceType::Pawn, color: Color::White })
    } else if y == 0 {
        Some(Piece { piece_type: back_rank_kind(x), color: Color::Black })
    } else {
        Some(Piece { piece_type: back_rank_kind(x), color: Color::White })
    }
}

impl Game {
    /// The stored game state, as contracts speak of it.
    pub closed spec fn spec_state(&self) -> GameState {
        self.state
    }

    /// A fresh game: in progress, with an empty board.
    pub fn new() -> (g: Game)
        ensures
            g.spec_state() is InProgress,
            forall|i: int| 0 <= i < 64 ==> (#[trigger] g@[i]) is None,
            forall|x: int, y: int| in_bounds(x, y) ==> piece_at(g@, x, y) is None,
    {
        Game { state: GameState::InProgress, board: [None; 64] }
    }

    /// The board array itself, for the move generator to read.
    pub(crate) fn board_array(&self) -> (b: &[Option<Piece>; 64])
        ensures
            b@ == self@,
    {
        &self.board
    }

    /// The occupant of square (x, y).
    pub fn get_piece(&self, x: usize, y: usize) -> (r: Option<Piece>)
        requires
            x <= 7,
            y <= 7,
        ensures
            r == piece_at(self@, x as int, y as int),
    {
        self.board[8 * x + y]
    }

    /// Place p at (x, y), leaving every other square and the game state
    /// unchanged.
    pub fn set_piece(&mut self, x: usize, y: usize, p: Option<Piece>)
        requires
            x <= 7,
            y <= 7,
        ensures
            final(self)@ == old(self)@.update(square_index(x as int, y as int), p),
            final(self).spec_state() == old(self).spec_state(),
    {
        self.board[8 * x + y] = p;
    }

    /// Write the fixed opening position onto the board: pawns on ranks 1 and
    /// 6, back ranks on 0 and 7, and a handful of mid-board pieces. Squares
    /// outside that position keep whatever they held.
    pub fn reset_board(&mut self)
        ensures
            forall|x: int, y: int|
                in_bounds(x, y) ==> piece_at(final(self)@, x, y) == (if reset_touches(x, y) {
                    reset_piece(x, y)
                } else {
                    piece_at(old(self)@, x, y)
                }),
            final(self).spec_state() == old(self).spec_state(),
    {
        let mut x: usize = 0;
        while x < 8
            invariant
                x <= 8,
                self.spec_state() == old(self).spec_state(),
                forall|fx: int, fy: int|
                    in_bounds(fx, fy) ==> piece_at(self@, fx, fy) == (if fx < x && fy == 1 {
                        Some(Piece { piece_type: PieceType::Pawn, color: Color::Black })
                    } else if fx < x && fy == 6 {
                        Some(Piece { piece_type: PieceType::Pawn, color: Color::White })
                    } else {
                        piece_at(old(self)@, fx, fy)
                    }),
            decreases 8 - x,
        {
            self.set_piece(x, 1, Some(Piece { piece_type: PieceType::Pawn, color: Color::Black }));
            self.set_piece(x, 6, Some(Piece { piece_type: PieceType::Pawn, color: Color::White }));
            x = x + 1;
        }

        self.set_piece(0, 0, Some(Piece { piece_type: PieceType::Rook, color: Color::Black }));
        self.set_piece(1, 0, Some(Piece { piece_type: PieceType::Knight, color: Color::Black }));
        self.set_piece(2, 0, Some(Piece { piece_type: PieceType::Bishop, color: Color::Black }));
        self.set_piece(3, 0, Some(Piece { piece_type: PieceType::King, color: Color::Black }));
        self.set_piece(4, 0, Some(Piece { piece_type: PieceType::Queen, color: Color::Black }));
        self.set_piece(5, 0, Some(Piece { piece_type: PieceType::Bishop, color: Color::Black }));
        self.set_piece(6, 0, Some(Piece { piece_type: PieceType::Knight, color: Color::Black }));
        self.set_piece(7, 0, Some(Piece { piece_type: PieceType::Rook, color: Color::Black }));

        self.set_piece(0, 7, Some(Piece { piece_type: PieceType::Rook, color: Color::White }));
        self.set_piece(1, 7, Some(Piece { piece_type: PieceType::Knight, color: Color::White }));
        self.set_piece(2, 7, Some(Piece { piece_type: PieceType::Bishop, color: Color::White }));
        self.set_piece(3, 7, Some(Piece { piece_type: PieceType::King, color: Color::White }));
        self.set_piece(4, 7, Some(Piece { piece_type: PieceType::Queen, color: Color::White }));
        self.set_piece(5, 7, Some(Piece { piece_type: PieceType::Bishop, color: Color::White }));
        self.set_piece(6, 7, Some(Piece { piece_type: PieceType::Knight, color: Color::White }));
        self.set_piece(7, 7, Some(Piece { piece_type: PieceType::Rook, color: Color::White }));

        self.set_piece(4, 4, Some(Piece { piece_type: PieceType::Rook, color: Color::White }));
        self.set_piece(3, 3, Some(Piece { piece_type: PieceType::Bishop, color: Color::Black }));
        self.set_piece(4, 2, Some(Piece { piece_type: PieceType::Queen, color: Color::Black }));
        self.set_piece(3, 4, Some(Piece { piece_type: PieceType::Knight, color: Color::White }));
        self.set_piece(2, 4, Some(Piece { piece_type: PieceType::Pawn, color: Color::White }));
    }

    /// Placeholder for move application, which belongs to the surrounding
    /// game layer: it changes nothing and reports no resulting state.
    pub fn make_move(&mut self, _from_x: usize, _from_y: usize, _to_x: usize, _to_y: usize) -> (r:
        Option<GameState>)
        ensures
            r is None,
            *final(self) == *old(self),
    {
        None
    }

    /// Placeholder for promotion selection, which belongs to the surrounding
    /// game layer: it changes nothing.
    pub fn set_promotion(&mut self, _pos_x: usize, _pos_y: usize)
        ensures
            *final(self) == *old(self),
    {
    }

    /// The current game state.
    pub fn get_game_state(&self) -> (s: GameState)
        ensures
            s == self.spec_state(),
    {
        self.state
    }
}

} // verus!
