use vstd::prelude::*;

verus! {

/// The kind of a piece. A pawn records whether it has already moved.
#[derive(Clone, Copy, Debug, PartialEq, Eq, Structural)]
pub enum Pieces {
    Pawn(bool),
    Rook,
    Bishop,
    Queen,
    King,
    Knight,
}

/// The two sides.
#[derive(Clone, Copy, Debug, PartialEq, Eq, Structural)]
pub enum Colors {
    Black,
    White,
}

/// The content of one cell.
#[derive(Clone, Copy, Debug)]
pub enum BoardState {
    Piece((Colors, Pieces)),
    Empty,
}

pub open spec fn letter(p: Pieces) -> char {
    match p {
        Pieces::Bishop => 'B',
        Pieces::King => 'K',
        Pieces::Knight => 'N',
        Pieces::Pawn(_) => 'P',
        Pieces::Queen => 'Q',
        Pieces::Rook => 'R',
    }
}

/// The symbol of a cell: `.` when empty, the piece's letter in upper case for
/// White and in lower case for Black.
pub open spec fn cell_symbol(s: BoardState) -> char {
    match s {
        BoardState::Empty => '.',
        BoardState::Piece((Colors::White, p)) => letter(p),
        BoardState::Piece((Colors::Black, p)) => match p {
            Pieces::Bishop => 'b',
            Pieces::King => 'k',
            Pieces::Knight => 'n',
            Pieces::Pawn(_) => 'p',
            Pieces::Queen => 'q',
            Pieces::Rook => 'r',
        },
    }
}

pub open spec fn opposite(c: Colors) -> Colors {
    match c {
        Colors::Black => Colors::White,
        Colors::White => Colors::Black,
    }
}

impl Pieces {
    /// The upper-case letter of the piece.
    pub fn character(&self) -> (r: char)
        ensures
            r == letter(*self),
    {
        match self {
            Pieces::Bishop => 'B',
            Pieces::King => 'K',
            Pieces::Knight => 'N',
            Pieces::Pawn(_) => 'P',
            Pieces::Queen => 'Q',
            Pieces::Rook => 'R',
        }
    }
}

impl BoardState {
    /// The one-character symbol of this cell.
    pub fn symbol(&self) -> (r: char)
        ensures
            r == cell_symbol(*self),
    {
        match self {
            BoardState::Empty => '.',
            BoardState::Piece((Colors::White, p)) => p.character(),
            BoardState::Piece((Colors::Black, p)) => match p {
                Pieces::Bishop => 'b',
                Pieces::King => 'k',
                Pieces::Knight => 'n',
                Pieces::Pawn(_) => 'p',
                Pieces::Queen => 'q',
                Pieces::Rook => 'r',
            },
        }
    }
}

} // verus!
