use vstd::prelude::*;
use crate::location::{Location, valid, loc};
use crate::piece::{BoardState, Colors, Pieces, opposite};

verus! {

/// The number of cells of the lattice.
pub const CELLS: usize = 512;

/// A move: where the piece stands, where it goes, and the piece itself as it
/// was when the move was generated.
#[derive(Clone, Copy, Debug)]
pub struct Move {
    pub from: Location,
    pub to: Location,
    pub piece: (Colors, Pieces),
}

impl Move {
    pub fn new(from: Location, to: Location, piece: (Colors, Pieces)) -> (r: Move)
        ensures
            r == (Move { from, to, piece }),
    {
        Move { from: from, to: to, piece: piece }
    }

    pub fn from(&self) -> (r: Location)
        ensures
            r == self.from,
    {
        self.from
    }

    pub fn to(&self) -> (r: Location)
        ensures
            r == self.to,
    {
        self.to
    }

    pub fn piece(&self) -> (r: (Colors, Pieces))
        ensures
            r == self.piece,
    {
        self.piece
    }
}

/// The position of a valid location in the board's cell listing: `x` major,
/// then `y`, then `z`.
pub open spec fn index(l: Location) -> int {
    64 * l.x + 8 * l.y + l.z
}

/// The location listed at position `i`.
pub open spec fn location_at(i: int) -> Location {
    loc(i / 64, (i / 8) % 8, i % 8)
}

/// The back-rank piece that starts at column `x`.
pub open spec fn back_rank(x: int) -> Pieces {
    if x == 0 || x == 7 {
        Pieces::Rook
    } else if x == 1 || x == 6 {
        Pieces::Knight
    } else if x == 2 || x == 5 {
        Pieces::Bishop
    } else if x == 3 {
        Pieces::Queen
    } else {
        Pieces::King
    }
}

/// The initial placement: White on the plane `z == 0` (pawns on row 1, the
/// back rank on row 0), Black on the plane `z == 7` (pawns on row 6, the
/// back rank on row 7).
pub open spec fn initial_cell(l: Location) -> BoardState {
    if l.z == 0 && l.y == 1 {
        BoardState::Piece((Colors::White, Pieces::Pawn(false)))
    } else if l.z == 7 && l.y == 6 {
        BoardState::Piece((Colors::Black, Pieces::Pawn(false)))
    } else if l.z == 0 && l.y == 0 {
        BoardState::Piece((Colors::White, back_rank(l.x as int)))
    } else if l.z == 7 && l.y == 7 {
        BoardState::Piece((Colors::Black, back_rank(l.x as int)))
    } else {
        BoardState::Empty
    }
}

/// The same cell with the sides exchanged.
pub open spec fn side_swapped(s: BoardState) -> BoardState {
    match s {
        BoardState::Piece((c, p)) => BoardState::Piece((opposite(c), p)),
        BoardState::Empty => BoardState::Empty,
    }
}

/// A piece that is a pawn which has not moved yet.
pub open spec fn fresh_pawn(p: (Colors, Pieces)) -> bool {
    p.1 == Pieces::Pawn(false)
}

/// What the cell at `l` holds after `m` is executed on `before`.
pub open spec fn cell_after_move(before: Board, m: Move, l: Location) -> BoardState {
    if l == m.to && fresh_pawn(m.piece) {
        BoardState::Piece((m.piece.0, Pieces::Pawn(true)))
    } else if l == m.from {
        BoardState::Empty
    } else if l == m.to {
        before.cell(m.from)
    } else {
        before.cell(l)
    }
}

proof fn lemma_index_location(l: Location)
    requires
        valid(l),
    ensures
        0 <= index(l) < 512,
        location_at(index(l)) == l,
{
    let x = l.x as int;
    let y = l.y as int;
    let z = l.z as int;
    assert((64 * x + 8 * y + z) / 64 == x) by (nonlinear_arith)
        requires 0 <= x < 8, 0 <= y < 8, 0 <= z < 8;
    assert(((64 * x + 8 * y + z) / 8) % 8 == y) by (nonlinear_arith)
        requires 0 <= x < 8, 0 <= y < 8, 0 <= z < 8;
    assert((64 * x + 8 * y + z) % 8 == z) by (nonlinear_arith)
        requires 0 <= x < 8, 0 <= y < 8, 0 <= z < 8;
}

proof fn lemma_location_index(i: int)
    requires
        0 <= i < 512,
    ensures
        valid(location_at(i)),
        index(location_at(i)) == i,
{
    assert(0 <= i / 64 < 8 && 0 <= (i / 8) % 8 < 8 && 0 <= i % 8 < 8) by (nonlinear_arith)
        requires 0 <= i < 512;
    assert(64 * (i / 64) + 8 * ((i / 8) % 8) + i % 8 == i) by (nonlinear_arith)
        requires 0 <= i < 512;
}

/// A grid of 8 planes of 8 rows of 8 cells.
pub open spec fn grid_shaped(g: Seq<Seq<Seq<BoardState>>>) -> bool {
    &&& g.len() == 8
    &&& forall|x: int| 0 <= x < 8 ==> (#[trigger] g[x]).len() == 8
    &&& forall|x: int, y: int| 0 <= x < 8 && 0 <= y < 8 ==> (#[trigger] g[x][y]).len() == 8
}

/// The cell of grid `g` at `l`.
pub open spec fn grid_cell(g: Seq<Seq<Seq<BoardState>>>, l: Location) -> BoardState {
    g[l.x as int][l.y as int][l.z as int]
}

/// The nested vectors seen as nested sequences.
pub open spec fn grid_view(g: Vec<Vec<Vec<BoardState>>>) -> Seq<Seq<Seq<BoardState>>> {
    g@.map_values(|p: Vec<Vec<BoardState>>| p@.map_values(|r: Vec<BoardState>| r@))
}

/// The whole lattice, listed cell by cell, and the flag that says whether the
/// game goes on.
#[derive(Debug)]
pub struct Board {
    cells: Vec<BoardState>,
    running: bool,
}

impl Board {
    /// The listing holds exactly one entry per cell.
    #[verifier::type_invariant]
    pub closed spec fn wf(&self) -> bool {
        self.cells@.len() == CELLS
    }

    /// What the cell at `l` holds.
    pub closed spec fn cell(&self, l: Location) -> BoardState {
        self.cells@[index(l)]
    }

    pub closed spec fn running(&self) -> bool {
        self.running
    }

    /// The cells as a grid indexed by `x`, then `y`, then `z`.
    pub closed spec fn grid(&self) -> Seq<Seq<Seq<BoardState>>> {
        Seq::new(8, |x: int| Seq::new(8, |y: int| Seq::new(8, |z: int| self.cells@[64 * x + 8 * y + z])))
    }

    /// The initial position, with the game running.
    pub fn new() -> (r: Board)
        ensures
            r.running(),
            forall|l: Location| valid(l) ==> #[trigger] r.cell(l) == initial_cell(l),
    {
        let mut cells: Vec<BoardState> = Vec::new();
        let mut i: usize = 0;
        while i < CELLS
            invariant
                i <= CELLS,
                cells@.len() == i,
                forall|j: int| 0 <= j < i ==> #[trigger] cells@[j] == initial_cell(location_at(j)),
            decreases CELLS - i,
        {
            proof { lemma_location_index(i as int); }
            let l = Location::new((i / 64) as isize, ((i / 8) % 8) as isize, (i % 8) as isize);
            cells.push(initial_cell_at(l));
            i = i + 1;
        }
        let r = Board { cells: cells, running: true };
        assert forall|l: Location| valid(l) implies #[trigger] r.cell(l) == initial_cell(l) by {
            lemma_index_location(l);
        }
        r
    }

    /// The cell at `l`.
    pub fn at(&self, l: Location) -> (r: BoardState)
        requires
            valid(l),
        ensures
            r == self.cell(l),
    {
        proof {
            use_type_invariant(self);
            lemma_index_location(l);
        }
        self.cells[(64 * l.x + 8 * l.y + l.z) as usize]
    }

    /// Writes `s` into the cell at `l`; every other cell and the running flag
    /// stay as they were.
    pub fn set(&mut self, l: Location, s: BoardState)
        requires
            valid(l),
        ensures
            final(self).running() == old(self).running(),
            final(self).cell(l) == s,
            forall|k: Location| valid(k) && k != l ==> #[trigger] final(self).cell(k) == old(self).cell(k),
    {
        proof {
            use_type_invariant(&*self);
            lemma_index_location(l);
            assert forall|k: Location| valid(k) && k != l implies index(k) != index(l) by {
                lemma_index_location(k);
            }
        }
        let mut cells = self.cells.clone();
        cells.set((64 * l.x + 8 * l.y + l.z) as usize, s);
        *self = Board { cells: cells, running: self.running };
    }

    /// Moves the piece at `m.from` to `m.to`, leaving `m.from` empty; a pawn
    /// that had not moved is marked as moved in its new cell.
    pub fn execute_move(&mut self, m: &Move)
        requires
            valid(m.from),
            valid(m.to),
        ensures
            final(self).running() == old(self).running(),
            forall|l: Location| valid(l) ==> #[trigger] final(self).cell(l) == cell_after_move(*old(self), *m, l),
    {
        let moving = self.at(m.from());
        self.set(m.to(), moving);
        self.set(m.from(), BoardState::Empty);
        match m.piece {
            (Colors::Black, Pieces::Pawn(false)) => self.set(m.to(), BoardState::Piece((Colors::Black, Pieces::Pawn(true)))),
            (Colors::White, Pieces::Pawn(false)) => self.set(m.to(), BoardState::Piece((Colors::White, Pieces::Pawn(true)))),
            _ => {},
        }
    }

    /// Replaces every cell and the running flag with those of `other`.
    pub fn update_board(&mut self, other: &Board)
        ensures
            final(self).running() == other.running(),
            forall|l: Location| #[trigger] final(self).cell(l) == other.cell(l),
    {
        proof { use_type_invariant(other); }
        *self = Board { cells: other.cells.clone(), running: other.running };
    }

    pub fn is_running(&self) -> (r: bool)
        ensures
            r == self.running(),
    {
        self.running
    }

    /// The cells as nested vectors indexed by `x`, then `y`, then `z`.
    pub fn to_grid(&self) -> (r: Vec<Vec<Vec<BoardState>>>)
        ensures
            grid_view(r) == self.grid(),
    {
        proof { use_type_invariant(self); }
        let mut g: Vec<Vec<Vec<BoardState>>> = Vec::new();
        let mut x: usize = 0;
        while x < 8
            invariant
                self.wf(),
                x <= 8,
                g@.len() == x,
                forall|i: int| 0 <= i < x ==> grid_view(g)[i] == #[trigger] self.grid()[i],
            decreases 8 - x,
        {
            let mut plane: Vec<Vec<BoardState>> = Vec::new();
            let mut y: usize = 0;
            while y < 8
                invariant
                    self.wf(),
                    x < 8,
                    y <= 8,
                    plane@.len() == y,
                    forall|j: int| 0 <= j < y ==> (#[trigger] plane@[j])@ == self.grid()[x as int][j],
                decreases 8 - y,
            {
                let mut row: Vec<BoardState> = Vec::new();
                let mut z: usize = 0;
                while z < 8
                    invariant
                        self.wf(),
                        x < 8,
                        y < 8,
                        z <= 8,
                        row@.len() == z,
                        forall|k: int| 0 <= k < z ==> #[trigger] row@[k] == self.grid()[x as int][y as int][k],
                    decreases 8 - z,
                {
                    row.push(self.cells[64 * x + 8 * y + z]);
                    z = z + 1;
                }
                assert(row@ =~= self.grid()[x as int][y as int]);
                plane.push(row);
                y = y + 1;
            }
            assert(plane@.map_values(|r: Vec<BoardState>| r@) =~= self.grid()[x as int]);
            g.push(plane);
            x = x + 1;
        }
        assert(grid_view(g) =~= self.grid());
        g
    }

    /// The board whose cells are read from `g`, indexed by `x`, then `y`, then
    /// `z`; nothing when `g` is not 8 planes of 8 rows of 8 cells.
    pub fn from_grid(g: &Vec<Vec<Vec<BoardState>>>, running: bool) -> (r: Option<Board>)
        ensures
            r is Some <==> grid_shaped(grid_view(*g)),
            r matches Some(b) ==> b.wf() && b.running() == running
                && forall|l: Location| valid(l) ==> #[trigger] b.cell(l) == grid_cell(grid_view(*g), l),
    {
        let ghost gv = grid_view(*g);
        if g.len() != 8 {
            return None;
        }
        let mut x: usize = 0;
        while x < 8
            invariant
                gv == grid_view(*g),
                gv.len() == 8,
                x <= 8,
                forall|i: int| 0 <= i < x ==> (#[trigger] gv[i]).len() == 8,
                forall|i: int, j: int| 0 <= i < x && 0 <= j < 8 ==> (#[trigger] gv[i][j]).len() == 8,
            decreases 8 - x,
        {
            if g[x].len() != 8 {
                assert(gv[x as int].len() != 8);
                return None;
            }
            let mut y: usize = 0;
            while y < 8
                invariant
                    gv == grid_view(*g),
                    gv.len() == 8,
                    x < 8,
                    y <= 8,
                    gv[x as int].len() == 8,
                    forall|j: int| 0 <= j < y ==> (#[trigger] gv[x as int][j]).len() == 8,
                decreases 8 - y,
            {
                if g[x][y].len() != 8 {
                    assert(gv[x as int][y as int].len() != 8);
                    return None;
                }
                y = y + 1;
            }
            x = x + 1;
        }
        assert(grid_shaped(gv));

        let mut cells: Vec<BoardState> = Vec::new();
        let mut i: usize = 0;
        while i < CELLS
            invariant
                gv == grid_view(*g),
                grid_shaped(gv),
                i <= CELLS,
                cells@.len() == i,
                forall|j: int| 0 <= j < i ==> #[trigger] cells@[j] == grid_cell(gv, location_at(j)),
            decreases CELLS - i,
        {
            proof {
                lemma_location_index(i as int);
                let xi = (i / 64) as int;
                let yi = ((i / 8) % 8) as int;
                assert(gv[xi].len() == 8);
                assert(gv[xi][yi].len() == 8);
                assert(gv[xi][yi] == g@[xi]@[yi]@);
            }
            cells.push(g[i / 64][(i / 8) % 8][i % 8]);
            i = i + 1;
        }
        let b = Board { cells: cells, running: running };
        assert forall|l: Location| valid(l) implies #[trigger] b.cell(l) == grid_cell(gv, l) by {
            lemma_index_location(l);
        }
        Some(b)
    }
}

/// The initial content of the cell at `l`.
fn initial_cell_at(l: Location) -> (r: BoardState)
    ensures
        r == initial_cell(l),
{
    let x = l.x;
    let back = if x == 0 || x == 7 {
        Pieces::Rook
    } else if x == 1 || x == 6 {
        Pieces::Knight
    } else if x == 2 || x == 5 {
        Pieces::Bishop
    } else if x == 3 {
        Pieces::Queen
    } else {
        Pieces::King
    };
    if l.z == 0 && l.y == 1 {
        BoardState::Piece((Colors::White, Pieces::Pawn(false)))
    } else if l.z == 7 && l.y == 6 {
        BoardState::Piece((Colors::Black, Pieces::Pawn(false)))
    } else if l.z == 0 && l.y == 0 {
        BoardState::Piece((Colors::White, back))
    } else if l.z == 7 && l.y == 7 {
        BoardState::Piece((Colors::Black, back))
    } else {
        BoardState::Empty
    }
}

/// The cell facing `l` across the middle of the lattice: same column, rows
/// and planes counted from the other end.
pub open spec fn across(l: Location) -> Location {
    loc(l.x as int, 7 - l.y, 7 - l.z)
}

/// The starting position is symmetric: each cell of a fresh board holds what
/// the facing cell holds, with the sides exchanged.
pub proof fn lemma_new_board_symmetric(b: Board)
    requires
        b.wf(),
        forall|l: Location| valid(l) ==> #[trigger] b.cell(l) == initial_cell(l),
    ensures
        forall|c: Location| valid(c) ==> #[trigger] b.cell(c) == side_swapped(b.cell(across(c))),
{
    assert forall|c: Location| valid(c) implies #[trigger] b.cell(c) == side_swapped(b.cell(across(c))) by {
        assert(valid(across(c)));
        assert(b.cell(across(c)) == initial_cell(across(c)));
    }
}

/// A board read back from its grid is the same board: the grid has the
/// expected shape and holds each cell at its place.
pub proof fn lemma_grid_round_trip(b: Board)
    requires
        b.wf(),
    ensures
        grid_shaped(b.grid()),
        forall|l: Location| valid(l) ==> #[trigger] grid_cell(b.grid(), l) == b.cell(l),
{
    assert forall|x: int, y: int| 0 <= x < 8 && 0 <= y < 8 implies (#[trigger] b.grid()[x][y]).len() == 8 by {}
}

/// A grid read into a board comes back unchanged from that board.
pub proof fn lemma_board_of_grid(b: Board, g: Seq<Seq<Seq<BoardState>>>)
    requires
        b.wf(),
        grid_shaped(g),
        forall|l: Location| valid(l) ==> #[trigger] b.cell(l) == grid_cell(g, l),
    ensures
        b.grid() == g,
{
    assert forall|x: int| 0 <= x < 8 implies #[trigger] b.grid()[x] == g[x] by {
        assert forall|y: int| 0 <= y < 8 implies #[trigger] b.grid()[x][y] == g[x][y] by {
            assert forall|z: int| 0 <= z < 8 implies #[trigger] b.grid()[x][y][z] == g[x][y][z] by {
                let l = loc(x, y, z);
                assert(b.cell(l) == grid_cell(g, l));
            }
            assert(b.grid()[x][y] =~= g[x][y]);
        }
        assert(b.grid()[x] =~= g[x]);
    }
    assert(b.grid() =~= g);
}

impl Clone for Board {
    fn clone(&self) -> (r: Board)
        ensures
            r.running() == self.running(),
            forall|l: Location| #[trigger] r.cell(l) == self.cell(l),
    {
        proof { use_type_invariant(self); }
        Board { cells: self.cells.clone(), running: self.running }
    }
}

} // verus!
