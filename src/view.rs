use vstd::prelude::*;
use crate::location::{Location, valid, location_is_valid};
use crate::board::{Board, Move, cell_after_move, initial_cell};
use crate::moves::{moves_of, piece_at, piece_dests, lemma_piece_moves_legal};

verus! {

/// What a click on the board did.
#[derive(Clone, Copy, Debug)]
pub enum Click {
    /// The click was off the lattice; nothing changed.
    Ignored,
    /// A cell was selected and its piece's moves are highlighted.
    Selected,
    /// A highlighted destination was clicked: this move was chosen and the
    /// selection cleared.
    Chosen(Move),
}

/// The first move of `moves` that ends at `pos` is at `i`.
pub open spec fn first_landing(moves: Seq<Move>, pos: Location, i: int) -> bool {
    0 <= i < moves.len() && moves[i].to == pos && forall|j: int| 0 <= j < i ==> (#[trigger] moves[j]).to != pos
}

/// Some move of `moves` ends at `pos`.
pub open spec fn lands(moves: Seq<Move>, pos: Location) -> bool {
    exists|j: int| 0 <= j < moves.len() && (#[trigger] moves[j]).to == pos
}

/// The position of the first move of `moves` that ends at `pos`, where some
/// move does.
pub open spec fn landing(moves: Seq<Move>, pos: Location) -> int {
    choose|i: int| first_landing(moves, pos, i)
}

proof fn lemma_landing(moves: Seq<Move>, pos: Location, i: int)
    requires
        first_landing(moves, pos, i),
    ensures
        landing(moves, pos) == i,
{
    let k = landing(moves, pos);
    assert(first_landing(moves, pos, k));
    if k < i {
        assert(moves[k].to != pos);
    } else if i < k {
        assert(moves[i].to != pos);
    }
}

/// The position of the first move of `moves` that ends at `pos`.
fn find_landing(moves: &Vec<Move>, pos: Location) -> (r: Option<usize>)
    ensures
        r matches Some(i) ==> first_landing(moves@, pos, i as int),
        r is None <==> !lands(moves@, pos),
{
    let mut i: usize = 0;
    while i < moves.len()
        invariant
            i <= moves@.len(),
            forall|j: int| 0 <= j < i ==> (#[trigger] moves@[j]).to != pos,
        decreases moves@.len() - i,
    {
        if moves[i].to() == pos {
            return Some(i);
        }
        i = i + 1;
    }
    None
}

/// Every move of `moves` starts and ends on the lattice.
pub open spec fn on_lattice(moves: Seq<Move>) -> bool {
    forall|i: int| 0 <= i < moves.len() ==> valid((#[trigger] moves[i]).from) && valid(moves[i].to)
}

/// The cell under the cursor and the moves highlighted from it.
pub struct Selection {
    cursor: Option<Location>,
    current_moves: Option<Vec<Move>>,
}

impl Selection {
    /// Highlighted moves start and end on the lattice.
    #[verifier::type_invariant]
    pub closed spec fn inv(&self) -> bool {
        self.current_moves matches Some(v) ==> on_lattice(v@)
    }

    pub closed spec fn cursor_spec(&self) -> Option<Location> {
        self.cursor
    }

    pub closed spec fn moves_spec(&self) -> Option<Seq<Move>> {
        match self.current_moves {
            Some(v) => Some(v@),
            None => None,
        }
    }

    /// Nothing selected.
    pub fn new() -> (r: Selection)
        ensures
            r.cursor_spec() is None,
            r.moves_spec() is None,
    {
        Selection { cursor: None, current_moves: None }
    }

    /// The selected cell.
    pub fn cursor(&self) -> (r: Option<Location>)
        ensures
            r == self.cursor_spec(),
    {
        self.cursor
    }

    /// The highlighted moves.
    pub fn current_moves(&self) -> (r: Option<Vec<Move>>)
        ensures
            match r {
                Some(v) => self.moves_spec() == Some(v@),
                None => self.moves_spec() is None,
            },
    {
        match &self.current_moves {
            Some(v) => Some(v.clone()),
            None => None,
        }
    }

    /// Handles a click on the cell `pos` of `board`. A click on a
    /// highlighted destination chooses the first highlighted move that ends
    /// there and clears the selection; a click on any other cell selects it
    /// and highlights the moves of its piece.
    pub fn click(&mut self, board: &Board, pos: Location) -> (r: Click)
        ensures
            !valid(pos) ==> r is Ignored && *final(self) == *old(self),
            valid(pos) ==> match old(self).moves_spec() {
                Some(ms) if lands(ms, pos) => {
                    &&& r matches Click::Chosen(m) && m == ms[landing(ms, pos)]
                    &&& final(self).cursor_spec() is None
                    &&& final(self).moves_spec() is None
                },
                _ => {
                    &&& r is Selected
                    &&& final(self).cursor_spec() == Some(pos)
                    &&& final(self).moves_spec() == Some(
                        moves_of(pos, piece_at(*board, pos), piece_dests(*board, pos)),
                    )
                },
            },
            r matches Click::Chosen(m) ==> valid(m.from) && valid(m.to),
    {
        proof { use_type_invariant(&*self); }
        if !location_is_valid(pos) {
            return Click::Ignored;
        }
        let mut chosen: Option<Move> = None;
        if let Some(moves) = &self.current_moves {
            if let Some(i) = find_landing(moves, pos) {
                proof { lemma_landing(moves@, pos, i as int); }
                chosen = Some(moves[i]);
            }
        }
        match chosen {
            Some(m) => {
                *self = Selection { cursor: None, current_moves: None };
                Click::Chosen(m)
            },
            None => {
                let moves = board.piece_moves(pos);
                proof {
                    use_type_invariant(board);
                    lemma_piece_moves_legal(*board, pos);
                }
                *self = Selection { cursor: Some(pos), current_moves: Some(moves) };
                Click::Selected
            },
        }
    }
}

/// A game played on one board in one process: a chosen move is made at once.
pub struct BoardView {
    pub chess_board: Board,
    pub selection: Selection,
}

impl BoardView {
    /// The initial position, nothing selected.
    pub fn new() -> (r: BoardView)
        ensures
            r.chess_board.running(),
            forall|l: Location| valid(l) ==> #[trigger] r.chess_board.cell(l) == initial_cell(l),
            r.selection.cursor_spec() is None,
            r.selection.moves_spec() is None,
    {
        BoardView { chess_board: Board::new(), selection: Selection::new() }
    }

    /// Handles a click on the cell `pos`, making the chosen move, if any, on
    /// the board. Returns whether the click was on the lattice.
    pub fn click(&mut self, pos: Location) -> (r: bool)
        ensures
            r == valid(pos),
            !r ==> final(self).selection == old(self).selection,
            r ==> match old(self).selection.moves_spec() {
                Some(ms) if lands(ms, pos) => final(self).selection.cursor_spec() is None
                    && final(self).selection.moves_spec() is None,
                _ => final(self).selection.cursor_spec() == Some(pos) && final(self).selection.moves_spec() == Some(
                    moves_of(pos, piece_at(old(self).chess_board, pos), piece_dests(old(self).chess_board, pos)),
                ),
            },
            final(self).chess_board.running() == old(self).chess_board.running(),
            forall|l: Location| valid(l) ==> #[trigger] final(self).chess_board.cell(l) == match old(self).selection.moves_spec() {
                Some(ms) if valid(pos) && lands(ms, pos) => cell_after_move(
                    old(self).chess_board,
                    ms[landing(ms, pos)],
                    l,
                ),
                _ => old(self).chess_board.cell(l),
            },
    {
        let outcome = self.selection.click(&self.chess_board, pos);
        match outcome {
            Click::Ignored => false,
            Click::Selected => true,
            Click::Chosen(m) => {
                self.chess_board.execute_move(&m);
                true
            },
        }
    }
}

} // verus!
