use vstd::prelude::*;
use crate::location::{Location, valid, plus, times, loc, location_is_valid};
use crate::piece::{BoardState, Colors, Pieces, opposite};
use crate::board::{Board, Move, cell_after_move, fresh_pawn};

verus! {

/// A step of one cell along some of the axes: every component is -1, 0 or 1,
/// and not all are 0.
pub open spec fn unit(d: Location) -> bool {
    -1 <= d.x <= 1 && -1 <= d.y <= 1 && -1 <= d.z <= 1 && !(d.x == 0 && d.y == 0 && d.z == 0)
}

/// An offset of at most two cells along each axis.
pub open spec fn short(d: Location) -> bool {
    -2 <= d.x <= 2 && -2 <= d.y <= 2 && -2 <= d.z <= 2
}

/// The opposite offset.
pub open spec fn neg(d: Location) -> Location {
    times(d, -1)
}

/// The offsets of `s` followed by their opposites.
pub open spec fn with_mirrors(s: Seq<Location>) -> Seq<Location> {
    s + s.map_values(|d: Location| neg(d))
}

/// The piece that stands at `l`; an empty cell is read as a White pawn that
/// has not moved.
pub open spec fn piece_at(b: Board, l: Location) -> (Colors, Pieces) {
    match b.cell(l) {
        BoardState::Piece(p) => p,
        BoardState::Empty => (Colors::White, Pieces::Pawn(false)),
    }
}

/// The cell at `t` holds a piece of `side`.
pub open spec fn holds_side(b: Board, t: Location, side: Colors) -> bool {
    match b.cell(t) {
        BoardState::Piece((c, _)) => c == side,
        BoardState::Empty => false,
    }
}

pub open spec fn is_empty(b: Board, t: Location) -> bool {
    b.cell(t) is Empty
}

/// The moves of `piece` from `from` to each of `dests`, in order.
pub open spec fn moves_of(from: Location, piece: (Colors, Pieces), dests: Seq<Location>) -> Seq<Move> {
    dests.map_values(|t: Location| Move { from, to: t, piece })
}

/// How many more steps along `d` stay on the lattice, counted per axis.
pub open spec fn room(c: int, d: int) -> int {
    if d > 0 {
        8 - c
    } else if d < 0 {
        c + 1
    } else {
        0
    }
}

pub open spec fn span(pos: Location, d: Location) -> int {
    room(pos.x as int, d.x as int) + room(pos.y as int, d.y as int) + room(pos.z as int, d.z as int)
}

/// The cells a sliding piece of `side` reaches walking from `pos` (included)
/// along `d`: empty cells go on the walk, an opponent's cell ends it and is
/// reached, a cell of `side` ends it and is not.
pub open spec fn ray(b: Board, pos: Location, d: Location, side: Colors) -> Seq<Location>
    decreases span(pos, d),
{
    if !valid(pos) || !unit(d) {
        seq![]
    } else {
        match b.cell(pos) {
            BoardState::Empty => seq![pos] + ray(b, plus(pos, d), d, side),
            BoardState::Piece((c, _)) => if c == side {
                seq![]
            } else {
                seq![pos]
            },
        }
    }
}

/// The rays from `from` along each of `dirs`, one after the other.
pub open spec fn rays(b: Board, from: Location, dirs: Seq<Location>, side: Colors) -> Seq<Location>
    decreases dirs.len(),
{
    if dirs.len() == 0 {
        seq![]
    } else {
        rays(b, from, dirs.drop_last(), side) + ray(b, plus(from, dirs.last()), dirs.last(), side)
    }
}

/// The cells one hop away from `from` along each of `offs`, in order, that
/// are on the lattice and do not hold a piece of `side`.
pub open spec fn hops(b: Board, from: Location, offs: Seq<Location>, side: Colors) -> Seq<Location>
    decreases offs.len(),
{
    if offs.len() == 0 {
        seq![]
    } else {
        let t = plus(from, offs.last());
        hops(b, from, offs.drop_last(), side) + if valid(t) && !holds_side(b, t, side) {
            seq![t]
        } else {
            seq![]
        }
    }
}

/// The cells one hop away from `from` along each of `offs`, in order, that
/// are on the lattice and hold a piece of the side other than `side`.
pub open spec fn captures(b: Board, from: Location, offs: Seq<Location>, side: Colors) -> Seq<Location>
    decreases offs.len(),
{
    if offs.len() == 0 {
        seq![]
    } else {
        let t = plus(from, offs.last());
        captures(b, from, offs.drop_last(), side) + if valid(t) && holds_side(b, t, opposite(side)) {
            seq![t]
        } else {
            seq![]
        }
    }
}

/// The empty cells a pawn walks through from `pos` (included) along `d`,
/// taking at most `n` steps and stopping at the first cell that is not empty.
pub open spec fn pawn_walk(b: Board, pos: Location, d: Location, n: nat) -> Seq<Location>
    decreases n,
{
    if n == 0 || !valid(pos) || !is_empty(b, pos) {
        seq![]
    } else {
        seq![pos] + pawn_walk(b, plus(pos, d), d, (n - 1) as nat)
    }
}

/// The pawn walks from `from` along each of `dirs`, one after the other.
pub open spec fn pawn_walks(b: Board, from: Location, dirs: Seq<Location>, n: nat) -> Seq<Location>
    decreases dirs.len(),
{
    if dirs.len() == 0 {
        seq![]
    } else {
        pawn_walks(b, from, dirs.drop_last(), n) + pawn_walk(b, plus(from, dirs.last()), dirs.last(), n)
    }
}

/// The rook's directions: one along each axis.
pub open spec fn rook_dirs() -> Seq<Location> {
    seq![loc(1, 0, 0), loc(0, 0, 1), loc(0, 1, 0)]
}

/// The bishop's directions: the diagonals of the three axis planes.
pub open spec fn bishop_dirs() -> Seq<Location> {
    seq![loc(-1, 1, 0), loc(1, 1, 0), loc(-1, 0, 1), loc(1, 0, 1), loc(0, -1, 1), loc(0, 1, 1)]
}

/// The queen's directions, which the king also takes for a single step.
pub open spec fn queen_dirs() -> Seq<Location> {
    seq![
        loc(-1, 1, 0), loc(1, 1, 0), loc(1, 0, 0),
        loc(-1, 0, 1), loc(0, 0, 1), loc(1, 0, 1),
        loc(0, -1, 1), loc(0, 1, 1), loc(0, 1, 0),
    ]
}

/// The knight's offsets: two cells along one axis and one along another,
/// four in each axis plane.
pub open spec fn knight_offsets() -> Seq<Location> {
    seq![
        loc(-1, 2, 0), loc(1, 2, 0), loc(2, -1, 0), loc(2, 1, 0),
        loc(1, 0, 2), loc(-1, 0, 2), loc(2, 0, 1), loc(2, 0, -1),
        loc(0, 1, 2), loc(0, -1, 2), loc(0, 2, 1), loc(0, 2, -1),
    ]
}

/// Offsets as White uses them; Black uses their opposites.
pub open spec fn oriented(s: Seq<Location>, side: Colors) -> Seq<Location> {
    if side == Colors::Black {
        s.map_values(|d: Location| neg(d))
    } else {
        s
    }
}

/// The pawn's steps: up along `y` and up along `z`.
pub open spec fn pawn_steps() -> Seq<Location> {
    seq![loc(0, 1, 0), loc(0, 0, 1)]
}

/// The pawn's captures: sideways along `x` combined with a step up.
pub open spec fn pawn_captures() -> Seq<Location> {
    seq![loc(-1, 1, 0), loc(1, 1, 0), loc(1, 0, 1), loc(-1, 0, 1), loc(-1, 1, 1), loc(1, 1, 1)]
}

/// How far a pawn may step: two cells before its first move, one after.
pub open spec fn pawn_reach(p: Pieces) -> nat {
    if p == Pieces::Pawn(false) {
        2
    } else {
        1
    }
}

/// The destinations of the pawn at `l`: its steps, then its captures.
pub open spec fn pawn_dests(b: Board, l: Location) -> Seq<Location> {
    let (side, kind) = piece_at(b, l);
    pawn_walks(b, l, oriented(pawn_steps(), side), pawn_reach(kind))
        + captures(b, l, oriented(pawn_captures(), side), side)
}

/// The destinations of the piece at `l`, in the order they are generated.
pub open spec fn piece_dests(b: Board, l: Location) -> Seq<Location> {
    match b.cell(l) {
        BoardState::Empty => seq![],
        BoardState::Piece((side, kind)) => match kind {
            Pieces::Pawn(_) => pawn_dests(b, l),
            Pieces::Knight => hops(b, l, with_mirrors(knight_offsets()), side),
            Pieces::Queen => rays(b, l, with_mirrors(queen_dirs()), side),
            Pieces::Bishop => rays(b, l, with_mirrors(bishop_dirs()), side),
            Pieces::Rook => rays(b, l, with_mirrors(rook_dirs()), side),
            Pieces::King => hops(b, l, with_mirrors(queen_dirs()), side),
        },
    }
}

proof fn lemma_moves_of_push(from: Location, piece: (Colors, Pieces), dests: Seq<Location>, t: Location)
    ensures
        moves_of(from, piece, dests.push(t)) == moves_of(from, piece, dests).push(Move { from, to: t, piece }),
{
    assert(moves_of(from, piece, dests.push(t)) =~= moves_of(from, piece, dests).push(Move { from, to: t, piece }));
}

proof fn lemma_mirrors_unit(s: Seq<Location>)
    requires
        forall|i: int| 0 <= i < s.len() ==> unit(#[trigger] s[i]),
    ensures
        forall|i: int| 0 <= i < with_mirrors(s).len() ==> unit(#[trigger] with_mirrors(s)[i]),
{
    assert forall|i: int| 0 <= i < with_mirrors(s).len() implies unit(#[trigger] with_mirrors(s)[i]) by {
        if i >= s.len() {
            assert(with_mirrors(s)[i] == neg(s[i - s.len()]));
        }
    }
}

proof fn lemma_mirrors_short(s: Seq<Location>)
    requires
        forall|i: int| 0 <= i < s.len() ==> short(#[trigger] s[i]),
    ensures
        forall|i: int| 0 <= i < with_mirrors(s).len() ==> short(#[trigger] with_mirrors(s)[i]),
{
    assert forall|i: int| 0 <= i < with_mirrors(s).len() implies short(#[trigger] with_mirrors(s)[i]) by {
        if i >= s.len() {
            assert(with_mirrors(s)[i] == neg(s[i - s.len()]));
        }
    }
}

/// Appends the opposite of each offset, in order.
fn mirror_offsets(offsets: &mut Vec<Location>)
    requires
        forall|i: int| 0 <= i < old(offsets)@.len() ==> short(#[trigger] old(offsets)@[i]),
    ensures
        final(offsets)@ == with_mirrors(old(offsets)@),
{
    let ghost base = offsets@;
    let len = offsets.len();
    let mut i: usize = 0;
    while i < len
        invariant
            len == base.len(),
            i <= len,
            forall|k: int| 0 <= k < len ==> short(#[trigger] base[k]),
            offsets@ == base + base.take(i as int).map_values(|d: Location| neg(d)),
        decreases len - i,
    {
        let m = offsets[i].mul(-1);
        offsets.push(m);
        proof {
            assert(base.take(i as int + 1).map_values(|d: Location| neg(d))
                =~= base.take(i as int).map_values(|d: Location| neg(d)).push(neg(base[i as int])));
        }
        i = i + 1;
    }
    assert(base.take(len as int) =~= base);
}

impl Board {
    /// The moves of a sliding piece at `l` along each of `offsets` and each
    /// of their opposites.
    fn queen_rook_bishop_moves(&self, l: Location, offsets_in: Vec<Location>) -> (r: Vec<Move>)
        requires
            self.wf(),
            valid(l),
            forall|i: int| 0 <= i < offsets_in@.len() ==> unit(#[trigger] offsets_in@[i]),
        ensures
            r@ == moves_of(l, piece_at(*self, l), rays(*self, l, with_mirrors(offsets_in@), piece_at(*self, l).0)),
    {
        let mut offsets = offsets_in;
        mirror_offsets(&mut offsets);
        let ghost dirs = offsets@;
        proof { lemma_mirrors_unit(offsets_in@); }

        let piece = match self.at(l) {
            BoardState::Piece(p) => p,
            BoardState::Empty => (Colors::White, Pieces::Pawn(false)),
        };
        let side = piece.0;

        let mut moves: Vec<Move> = Vec::new();
        let ghost mut dests: Seq<Location> = seq![];
        let mut j: usize = 0;
        while j < offsets.len()
            invariant
                offsets@ == dirs,
                j <= dirs.len(),
                forall|k: int| 0 <= k < dirs.len() ==> unit(#[trigger] dirs[k]),
                self.wf(),
                valid(l),
                piece == piece_at(*self, l),
                side == piece.0,
                dests == rays(*self, l, dirs.take(j as int), side),
                moves@ == moves_of(l, piece, dests),
            decreases dirs.len() - j,
        {
            let o = offsets[j];
            let ghost start = dests;
            let mut pos = l.add(o);
            loop
                invariant_except_break
                    start + ray(*self, plus(l, o), o, side) == dests + ray(*self, pos, o, side),
                    moves@ == moves_of(l, piece, dests),
                invariant
                    self.wf(),
                    valid(l),
                    unit(o),
                    -1 <= pos.x <= 8 && -1 <= pos.y <= 8 && -1 <= pos.z <= 8,
                ensures
                    dests == start + ray(*self, plus(l, o), o, side),
                    moves@ == moves_of(l, piece, dests),
                decreases span(pos, o),
            {
                if !location_is_valid(pos) {
                    assert(dests + ray(*self, pos, o, side) =~= dests);
                    break;
                }
                match self.at(pos) {
                    BoardState::Empty => {
                        moves.push(Move::new(l, pos, piece));
                        proof {
                            lemma_moves_of_push(l, piece, dests, pos);
                            assert(dests + ray(*self, pos, o, side)
                                =~= dests.push(pos) + ray(*self, plus(pos, o), o, side));
                            dests = dests.push(pos);
                        }
                        pos = pos.add(o);
                    },
                    BoardState::Piece((c, _)) => {
                        if c == side {
                            assert(dests + ray(*self, pos, o, side) =~= dests);
                        } else {
                            moves.push(Move::new(l, pos, piece));
                            proof {
                                lemma_moves_of_push(l, piece, dests, pos);
                                assert(dests + ray(*self, pos, o, side) =~= dests.push(pos));
                                dests = dests.push(pos);
                            }
                        }
                        break;
                    },
                }
            }
            proof {
                assert(dirs.take(j as int + 1).drop_last() =~= dirs.take(j as int));
                assert(dirs.take(j as int + 1).last() == o);
            }
            j = j + 1;
        }
        assert(dirs.take(dirs.len() as int) =~= dirs);
        moves
    }
}

impl Board {
    /// The moves one hop away from `l` along each of `offsets` and each of
    /// their opposites, onto cells that do not hold a piece of the mover.
    fn hop_moves(&self, l: Location, offsets_in: Vec<Location>) -> (r: Vec<Move>)
        requires
            self.wf(),
            valid(l),
            forall|i: int| 0 <= i < offsets_in@.len() ==> short(#[trigger] offsets_in@[i]),
        ensures
            r@ == moves_of(l, piece_at(*self, l), hops(*self, l, with_mirrors(offsets_in@), piece_at(*self, l).0)),
    {
        let mut offsets = offsets_in;
        mirror_offsets(&mut offsets);
        let ghost dirs = offsets@;
        proof { lemma_mirrors_short(offsets_in@); }

        let piece = match self.at(l) {
            BoardState::Piece(p) => p,
            BoardState::Empty => (Colors::White, Pieces::Pawn(false)),
        };

        let mut moves: Vec<Move> = Vec::new();
        let ghost mut dests: Seq<Location> = seq![];
        let mut j: usize = 0;
        while j < offsets.len()
            invariant
                offsets@ == dirs,
                j <= dirs.len(),
                forall|k: int| 0 <= k < dirs.len() ==> short(#[trigger] dirs[k]),
                self.wf(),
                valid(l),
                piece == piece_at(*self, l),
                dests == hops(*self, l, dirs.take(j as int), piece.0),
                moves@ == moves_of(l, piece, dests),
            decreases dirs.len() - j,
        {
            let t = l.add(offsets[j]);
            proof {
                assert(dirs.take(j as int + 1).drop_last() =~= dirs.take(j as int));
                assert(dirs.take(j as int + 1).last() == dirs[j as int]);
            }
            if location_is_valid(t) {
                let open = match self.at(t) {
                    BoardState::Empty => true,
                    BoardState::Piece((c, _)) => c != piece.0,
                };
                if open {
                    moves.push(Move::new(l, t, piece));
                    proof {
                        lemma_moves_of_push(l, piece, dests, t);
                        dests = dests.push(t);
                    }
                } else {
                    assert(dests + seq![] =~= dests);
                }
            } else {
                assert(dests + seq![] =~= dests);
            }
            j = j + 1;
        }
        assert(dirs.take(dirs.len() as int) =~= dirs);
        moves
    }

    fn queen_moves(&self, l: Location) -> (r: Vec<Move>)
        requires
            self.wf(),
            valid(l),
        ensures
            r@ == moves_of(l, piece_at(*self, l), rays(*self, l, with_mirrors(queen_dirs()), piece_at(*self, l).0)),
    {
        let mut offsets: Vec<Location> = Vec::new();
        // xy plane
        offsets.push(Location::new(-1, 1, 0));
        offsets.push(Location::new(1, 1, 0));
        offsets.push(Location::new(1, 0, 0));
        // xz plane
        offsets.push(Location::new(-1, 0, 1));
        offsets.push(Location::new(0, 0, 1));
        offsets.push(Location::new(1, 0, 1));
        // yz plane
        offsets.push(Location::new(0, -1, 1));
        offsets.push(Location::new(0, 1, 1));
        offsets.push(Location::new(0, 1, 0));
        assert(offsets@ =~= queen_dirs());
        self.queen_rook_bishop_moves(l, offsets)
    }

    fn bishop_moves(&self, l: Location) -> (r: Vec<Move>)
        requires
            self.wf(),
            valid(l),
        ensures
            r@ == moves_of(l, piece_at(*self, l), rays(*self, l, with_mirrors(bishop_dirs()), piece_at(*self, l).0)),
    {
        let mut offsets: Vec<Location> = Vec::new();
        // xy plane
        offsets.push(Location::new(-1, 1, 0));
        offsets.push(Location::new(1, 1, 0));
        // xz plane
        offsets.push(Location::new(-1, 0, 1));
        offsets.push(Location::new(1, 0, 1));
        // yz plane
        offsets.push(Location::new(0, -1, 1));
        offsets.push(Location::new(0, 1, 1));
        assert(offsets@ =~= bishop_dirs());
        self.queen_rook_bishop_moves(l, offsets)
    }

    fn rook_moves(&self, l: Location) -> (r: Vec<Move>)
        requires
            self.wf(),
            valid(l),
        ensures
            r@ == moves_of(l, piece_at(*self, l), rays(*self, l, with_mirrors(rook_dirs()), piece_at(*self, l).0)),
    {
        let mut offsets: Vec<Location> = Vec::new();
        offsets.push(Location::new(1, 0, 0));
        offsets.push(Location::new(0, 0, 1));
        offsets.push(Location::new(0, 1, 0));
        assert(offsets@ =~= rook_dirs());
        self.queen_rook_bishop_moves(l, offsets)
    }

    fn king_moves(&self, l: Location) -> (r: Vec<Move>)
        requires
            self.wf(),
            valid(l),
        ensures
            r@ == moves_of(l, piece_at(*self, l), hops(*self, l, with_mirrors(queen_dirs()), piece_at(*self, l).0)),
    {
        let mut offsets: Vec<Location> = Vec::new();
        // xy plane
        offsets.push(Location::new(-1, 1, 0));
        offsets.push(Location::new(1, 1, 0));
        offsets.push(Location::new(1, 0, 0));
        // xz plane
        offsets.push(Location::new(-1, 0, 1));
        offsets.push(Location::new(0, 0, 1));
        offsets.push(Location::new(1, 0, 1));
        // yz plane
        offsets.push(Location::new(0, -1, 1));
        offsets.push(Location::new(0, 1, 1));
        offsets.push(Location::new(0, 1, 0));
        assert(offsets@ =~= queen_dirs());
        self.hop_moves(l, offsets)
    }

    fn knight_moves(&self, l: Location) -> (r: Vec<Move>)
        requires
            self.wf(),
            valid(l),
        ensures
            r@ == moves_of(l, piece_at(*self, l), hops(*self, l, with_mirrors(knight_offsets()), piece_at(*self, l).0)),
    {
        let mut offsets: Vec<Location> = Vec::new();
        // xy plane
        offsets.push(Location::new(-1, 2, 0));
        offsets.push(Location::new(1, 2, 0));
        offsets.push(Location::new(2, -1, 0));
        offsets.push(Location::new(2, 1, 0));
        // xz plane
        offsets.push(Location::new(1, 0, 2));
        offsets.push(Location::new(-1, 0, 2));
        offsets.push(Location::new(2, 0, 1));
        offsets.push(Location::new(2, 0, -1));
        // yz plane
        offsets.push(Location::new(0, 1, 2));
        offsets.push(Location::new(0, -1, 2));
        offsets.push(Location::new(0, 2, 1));
        offsets.push(Location::new(0, 2, -1));
        assert(offsets@ =~= knight_offsets());
        self.hop_moves(l, offsets)
    }
}

/// Replaces each offset with its opposite.
fn negate_offsets(offsets: &mut Vec<Location>)
    requires
        forall|i: int| 0 <= i < old(offsets)@.len() ==> short(#[trigger] old(offsets)@[i]),
    ensures
        final(offsets)@ == old(offsets)@.map_values(|d: Location| neg(d)),
{
    let ghost base = offsets@;
    let len = offsets.len();
    let mut i: usize = 0;
    while i < len
        invariant
            len == base.len(),
            i <= len,
            forall|k: int| 0 <= k < len ==> short(#[trigger] base[k]),
            offsets@.len() == len,
            forall|k: int| 0 <= k < i ==> #[trigger] offsets@[k] == neg(base[k]),
            forall|k: int| i <= k < len ==> #[trigger] offsets@[k] == base[k],
        decreases len - i,
    {
        let mut o = offsets[i];
        o.mul_assign(-1);
        offsets.set(i, o);
        i = i + 1;
    }
    assert(offsets@ =~= base.map_values(|d: Location| neg(d)));
}

impl Board {
    fn pawn_moves(&self, l: Location) -> (r: Vec<Move>)
        requires
            self.wf(),
            valid(l),
            piece_at(*self, l).1 is Pawn,
        ensures
            r@ == moves_of(l, piece_at(*self, l), pawn_dests(*self, l)),
    {
        let piece = match self.at(l) {
            BoardState::Empty => (Colors::White, Pieces::Pawn(false)),
            BoardState::Piece(p) => p,
        };
        let side = piece.0;

        let mut offsets: Vec<Location> = Vec::new();
        offsets.push(Location::new(0, 1, 0));
        offsets.push(Location::new(0, 0, 1));
        assert(offsets@ =~= pawn_steps());

        let mut capture_offsets: Vec<Location> = Vec::new();
        capture_offsets.push(Location::new(-1, 1, 0));
        capture_offsets.push(Location::new(1, 1, 0));
        capture_offsets.push(Location::new(1, 0, 1));
        capture_offsets.push(Location::new(-1, 0, 1));
        capture_offsets.push(Location::new(-1, 1, 1));
        capture_offsets.push(Location::new(1, 1, 1));
        assert(capture_offsets@ =~= pawn_captures());

        let mut max_distance: usize = 1;
        if let (Colors::White, Pieces::Pawn(b)) = piece {
            if !b {
                max_distance = 2;
            }
        }
        if let (Colors::Black, Pieces::Pawn(b)) = piece {
            negate_offsets(&mut offsets);
            negate_offsets(&mut capture_offsets);
            if !b {
                max_distance = 2;
            }
        }
        let ghost steps = offsets@;
        let ghost caps = capture_offsets@;
        let ghost n = pawn_reach(piece.1);
        assert(steps == oriented(pawn_steps(), side));
        assert(caps == oriented(pawn_captures(), side));
        assert(max_distance == n);
        assert forall|k: int| 0 <= k < steps.len() implies unit(#[trigger] steps[k]) by {
            assert(pawn_steps()[k] == loc(0, 1, 0) || pawn_steps()[k] == loc(0, 0, 1));
        }
        assert forall|k: int| 0 <= k < caps.len() implies short(#[trigger] caps[k]) by {
            if side == Colors::Black {
                assert(caps[k] == neg(pawn_captures()[k]));
            }
        }

        let mut moves: Vec<Move> = Vec::new();
        let ghost mut dests: Seq<Location> = seq![];
        let mut j: usize = 0;
        while j < offsets.len()
            invariant
                offsets@ == steps,
                j <= steps.len(),
                forall|k: int| 0 <= k < steps.len() ==> unit(#[trigger] steps[k]),
                self.wf(),
                valid(l),
                piece == piece_at(*self, l),
                max_distance == n,
                1 <= n <= 2,
                dests == pawn_walks(*self, l, steps.take(j as int), n),
                moves@ == moves_of(l, piece, dests),
            decreases steps.len() - j,
        {
            let o = offsets[j];
            let ghost start = dests;
            let mut pos = l.add(o);
            let mut distance: usize = 1;
            loop
                invariant_except_break
                    start + pawn_walk(*self, plus(l, o), o, n) == dests + pawn_walk(*self, pos, o, (n + 1 - distance) as nat),
                    moves@ == moves_of(l, piece, dests),
                invariant
                    self.wf(),
                    valid(l),
                    unit(o),
                    1 <= distance <= n + 1,
                    max_distance == n,
                    n <= 2,
                    -1 <= pos.x <= 8 && -1 <= pos.y <= 8 && -1 <= pos.z <= 8,
                ensures
                    dests == start + pawn_walk(*self, plus(l, o), o, n),
                    moves@ == moves_of(l, piece, dests),
                decreases n + 1 - distance,
            {
                if !(location_is_valid(pos) && distance <= max_distance) {
                    assert(dests + pawn_walk(*self, pos, o, (n + 1 - distance) as nat) =~= dests);
                    break;
                }
                if let BoardState::Empty = self.at(pos) {
                    moves.push(Move::new(l, pos, piece));
                    proof {
                        lemma_moves_of_push(l, piece, dests, pos);
                        assert(dests + pawn_walk(*self, pos, o, (n + 1 - distance) as nat)
                            =~= dests.push(pos) + pawn_walk(*self, plus(pos, o), o, (n - distance) as nat));
                        dests = dests.push(pos);
                    }
                    pos = pos.add(o);
                    distance = distance + 1;
                } else {
                    assert(dests + pawn_walk(*self, pos, o, (n + 1 - distance) as nat) =~= dests);
                    break;
                }
            }
            proof {
                assert(steps.take(j as int + 1).drop_last() =~= steps.take(j as int));
                assert(steps.take(j as int + 1).last() == o);
            }
            j = j + 1;
        }
        assert(steps.take(steps.len() as int) =~= steps);
        let ghost walked = dests;

        let ghost mut taken: Seq<Location> = seq![];
        let mut j: usize = 0;
        while j < capture_offsets.len()
            invariant
                capture_offsets@ == caps,
                j <= caps.len(),
                forall|k: int| 0 <= k < caps.len() ==> short(#[trigger] caps[k]),
                self.wf(),
                valid(l),
                piece == piece_at(*self, l),
                side == piece.0,
                taken == captures(*self, l, caps.take(j as int), side),
                moves@ == moves_of(l, piece, walked + taken),
            decreases caps.len() - j,
        {
            let t = l.add(capture_offsets[j]);
            proof {
                assert(caps.take(j as int + 1).drop_last() =~= caps.take(j as int));
                assert(caps.take(j as int + 1).last() == caps[j as int]);
            }
            let mut hit = false;
            if location_is_valid(t) {
                hit = match self.at(t) {
                    BoardState::Piece((c, _)) => c != side,
                    BoardState::Empty => false,
                };
            }
            if hit {
                moves.push(Move::new(l, t, piece));
                proof {
                    lemma_moves_of_push(l, piece, walked + taken, t);
                    assert((walked + taken).push(t) =~= walked + taken.push(t));
                    taken = taken.push(t);
                }
            } else {
                assert(taken + seq![] =~= taken);
            }
            j = j + 1;
        }
        assert(caps.take(caps.len() as int) =~= caps);
        moves
    }

    /// Every move of the piece at `l`, in the order they are generated; none
    /// when the cell is empty.
    pub fn piece_moves(&self, l: Location) -> (r: Vec<Move>)
        requires
            valid(l),
        ensures
            r@ == moves_of(l, piece_at(*self, l), piece_dests(*self, l)),
    {
        proof { use_type_invariant(self); }
        match self.at(l) {
            BoardState::Empty => Vec::new(),
            BoardState::Piece(p) => match p {
                (_, Pieces::Pawn(_)) => self.pawn_moves(l),
                (_, Pieces::Knight) => self.knight_moves(l),
                (_, Pieces::Queen) => self.queen_moves(l),
                (_, Pieces::Bishop) => self.bishop_moves(l),
                (_, Pieces::Rook) => self.rook_moves(l),
                (_, Pieces::King) => self.king_moves(l),
            },
        }
    }
}

/// Every cell of `s` is on the lattice and holds no piece of `side`.
pub open spec fn open_cells(b: Board, s: Seq<Location>, side: Colors) -> bool {
    forall|i: int| 0 <= i < s.len() ==> valid(#[trigger] s[i]) && !holds_side(b, s[i], side)
}

proof fn lemma_join(b: Board, s: Seq<Location>, t: Seq<Location>, side: Colors)
    requires
        open_cells(b, s, side),
        open_cells(b, t, side),
    ensures
        open_cells(b, s + t, side),
{
    assert forall|i: int| 0 <= i < (s + t).len() implies valid(#[trigger] (s + t)[i]) && !holds_side(b, (s + t)[i], side) by {
        if i >= s.len() {
            assert((s + t)[i] == t[i - s.len()]);
        }
    }
}

proof fn lemma_ray_open(b: Board, pos: Location, d: Location, side: Colors)
    ensures
        open_cells(b, ray(b, pos, d, side), side),
    decreases span(pos, d),
{
    if valid(pos) && unit(d) {
        if b.cell(pos) is Empty {
            lemma_ray_open(b, plus(pos, d), d, side);
            lemma_join(b, seq![pos], ray(b, plus(pos, d), d, side), side);
        }
    }
}

proof fn lemma_rays_open(b: Board, from: Location, dirs: Seq<Location>, side: Colors)
    ensures
        open_cells(b, rays(b, from, dirs, side), side),
    decreases dirs.len(),
{
    if dirs.len() > 0 {
        lemma_rays_open(b, from, dirs.drop_last(), side);
        lemma_ray_open(b, plus(from, dirs.last()), dirs.last(), side);
        lemma_join(b, rays(b, from, dirs.drop_last(), side), ray(b, plus(from, dirs.last()), dirs.last(), side), side);
    }
}

proof fn lemma_hops_open(b: Board, from: Location, offs: Seq<Location>, side: Colors)
    ensures
        open_cells(b, hops(b, from, offs, side), side),
    decreases offs.len(),
{
    if offs.len() > 0 {
        let t = plus(from, offs.last());
        let last = if valid(t) && !holds_side(b, t, side) { seq![t] } else { seq![] };
        lemma_hops_open(b, from, offs.drop_last(), side);
        lemma_join(b, hops(b, from, offs.drop_last(), side), last, side);
    }
}

proof fn lemma_captures_open(b: Board, from: Location, offs: Seq<Location>, side: Colors)
    ensures
        open_cells(b, captures(b, from, offs, side), side),
    decreases offs.len(),
{
    if offs.len() > 0 {
        let t = plus(from, offs.last());
        let last = if valid(t) && holds_side(b, t, opposite(side)) { seq![t] } else { seq![] };
        lemma_captures_open(b, from, offs.drop_last(), side);
        lemma_join(b, captures(b, from, offs.drop_last(), side), last, side);
    }
}

proof fn lemma_pawn_walk_open(b: Board, pos: Location, d: Location, n: nat, side: Colors)
    ensures
        open_cells(b, pawn_walk(b, pos, d, n), side),
    decreases n,
{
    if n > 0 && valid(pos) && is_empty(b, pos) {
        lemma_pawn_walk_open(b, plus(pos, d), d, (n - 1) as nat, side);
        lemma_join(b, seq![pos], pawn_walk(b, plus(pos, d), d, (n - 1) as nat), side);
    }
}

proof fn lemma_pawn_walks_open(b: Board, from: Location, dirs: Seq<Location>, n: nat, side: Colors)
    ensures
        open_cells(b, pawn_walks(b, from, dirs, n), side),
    decreases dirs.len(),
{
    if dirs.len() > 0 {
        lemma_pawn_walks_open(b, from, dirs.drop_last(), n, side);
        lemma_pawn_walk_open(b, plus(from, dirs.last()), dirs.last(), n, side);
        lemma_join(b, pawn_walks(b, from, dirs.drop_last(), n), pawn_walk(b, plus(from, dirs.last()), dirs.last(), n), side);
    }
}

/// Every move generated for the piece at `c` starts at `c`, carries that
/// piece, ends on the lattice, and never ends on a cell held by the mover's
/// own side.
pub proof fn lemma_piece_moves_legal(b: Board, c: Location)
    requires
        b.wf(),
        valid(c),
    ensures
        forall|i: int| 0 <= i < moves_of(c, piece_at(b, c), piece_dests(b, c)).len() ==> {
            let m = #[trigger] moves_of(c, piece_at(b, c), piece_dests(b, c))[i];
            &&& m.from == c
            &&& m.piece == piece_at(b, c)
            &&& valid(m.to)
            &&& !holds_side(b, m.to, piece_at(b, c).0)
        },
{
    let (side, kind) = piece_at(b, c);
    match b.cell(c) {
        BoardState::Empty => {},
        BoardState::Piece(_) => match kind {
            Pieces::Pawn(_) => {
                let steps = oriented(pawn_steps(), side);
                let caps = oriented(pawn_captures(), side);
                lemma_pawn_walks_open(b, c, steps, pawn_reach(kind), side);
                lemma_captures_open(b, c, caps, side);
                lemma_join(b, pawn_walks(b, c, steps, pawn_reach(kind)), captures(b, c, caps, side), side);
            },
            Pieces::Knight => lemma_hops_open(b, c, with_mirrors(knight_offsets()), side),
            Pieces::King => lemma_hops_open(b, c, with_mirrors(queen_dirs()), side),
            Pieces::Queen => lemma_rays_open(b, c, with_mirrors(queen_dirs()), side),
            Pieces::Bishop => lemma_rays_open(b, c, with_mirrors(bishop_dirs()), side),
            Pieces::Rook => lemma_rays_open(b, c, with_mirrors(rook_dirs()), side),
        },
    }
    let d = piece_dests(b, c);
    assert(open_cells(b, d, side));
}

/// `t` is at most one cell away from `a` along each axis.
pub open spec fn near(a: Location, t: Location) -> bool {
    -1 <= t.x - a.x <= 1 && -1 <= t.y - a.y <= 1 && -1 <= t.z - a.z <= 1
}

/// Every component of `o` is -1, 0 or 1.
pub open spec fn within_one(o: Location) -> bool {
    -1 <= o.x <= 1 && -1 <= o.y <= 1 && -1 <= o.z <= 1
}

proof fn lemma_captures_near(b: Board, from: Location, offs: Seq<Location>, side: Colors)
    requires
        valid(from),
        forall|k: int| 0 <= k < offs.len() ==> within_one(#[trigger] offs[k]),
    ensures
        forall|i: int| 0 <= i < captures(b, from, offs, side).len()
            ==> near(from, #[trigger] captures(b, from, offs, side)[i]),
    decreases offs.len(),
{
    if offs.len() > 0 {
        let rest = offs.drop_last();
        assert forall|k: int| 0 <= k < rest.len() implies within_one(#[trigger] rest[k]) by {
            assert(rest[k] == offs[k]);
        }
        lemma_captures_near(b, from, rest, side);
        let t = plus(from, offs.last());
        let last = if valid(t) && holds_side(b, t, opposite(side)) { seq![t] } else { seq![] };
        let all = captures(b, from, rest, side) + last;
        assert forall|i: int| 0 <= i < all.len() implies near(from, #[trigger] all[i]) by {
            if i >= captures(b, from, rest, side).len() {
                assert(all[i] == t);
            }
        }
    }
}

proof fn lemma_captures_shift_x(b: Board, from: Location, offs: Seq<Location>, side: Colors)
    requires
        valid(from),
        forall|k: int| 0 <= k < offs.len() ==> within_one(#[trigger] offs[k]) && offs[k].x != 0,
    ensures
        forall|i: int| 0 <= i < captures(b, from, offs, side).len()
            ==> (#[trigger] captures(b, from, offs, side)[i]).x != from.x,
    decreases offs.len(),
{
    if offs.len() > 0 {
        let rest = offs.drop_last();
        assert forall|k: int| 0 <= k < rest.len() implies within_one(#[trigger] rest[k]) && rest[k].x != 0 by {
            assert(rest[k] == offs[k]);
        }
        lemma_captures_shift_x(b, from, rest, side);
        let t = plus(from, offs.last());
        let last = if valid(t) && holds_side(b, t, opposite(side)) { seq![t] } else { seq![] };
        let all = captures(b, from, rest, side) + last;
        assert forall|i: int| 0 <= i < all.len() implies (#[trigger] all[i]).x != from.x by {
            if i >= captures(b, from, rest, side).len() {
                assert(all[i] == t);
            }
        }
    }
}

/// A White pawn that has not moved, standing on row 1 of the plane `z == 0`,
/// reaches row 3 exactly when rows 2 and 3 of its column are both empty.
pub proof fn lemma_pawn_double_step(b: Board, x: int)
    requires
        b.wf(),
        0 <= x < 8,
        b.cell(loc(x, 1, 0)) == BoardState::Piece((Colors::White, Pieces::Pawn(false))),
    ensures
        piece_dests(b, loc(x, 1, 0)).contains(loc(x, 3, 0))
            <==> is_empty(b, loc(x, 2, 0)) && is_empty(b, loc(x, 3, 0)),
{
    reveal_with_fuel(pawn_walk, 3);
    reveal_with_fuel(pawn_walks, 3);
    let l = loc(x, 1, 0);
    assert(plus(l, loc(0, 1, 0)) == loc(x, 2, 0));
    assert(plus(l, loc(0, 0, 1)) == loc(x, 1, 1));
    assert(plus(loc(x, 2, 0), loc(0, 1, 0)) == loc(x, 3, 0));
    let steps = pawn_steps();
    let caps = pawn_captures();
    assert(steps.drop_last() =~= seq![loc(0, 1, 0)]);
    assert(seq![loc(0, 1, 0)].drop_last() =~= Seq::<Location>::empty());
    let wy = pawn_walk(b, loc(x, 2, 0), loc(0, 1, 0), 2);
    let wz = pawn_walk(b, loc(x, 1, 1), loc(0, 0, 1), 2);
    assert(pawn_walks(b, l, seq![loc(0, 1, 0)], 2) =~= wy);
    let cs = captures(b, l, caps, Colors::White);
    assert forall|k: int| 0 <= k < caps.len() implies within_one(#[trigger] caps[k]) && caps[k].x != 0 by {}
    lemma_captures_shift_x(b, l, caps, Colors::White);
    let d = piece_dests(b, l);
    assert(d == wy + wz + cs);
    let target = loc(x, 3, 0);
    if is_empty(b, loc(x, 2, 0)) && is_empty(b, target) {
        assert(wy[1] == target);
        assert(d[1] == target);
    }
    if d.contains(target) {
        let i = choose|i: int| 0 <= i < d.len() && d[i] == target;
        if i >= wy.len() + wz.len() {
            assert(cs[i - wy.len() - wz.len()] == d[i]);
        } else if i >= wy.len() {
            assert(wz[i - wy.len()] == d[i]);
        } else {
            assert(wy[i] == d[i]);
        }
    }
}

/// After a pawn's first move is executed, the pawn stands on the destination
/// marked as moved, and from there each of its destinations is one cell away
/// along every axis: no double step is generated again.
pub proof fn lemma_pawn_single_steps_after_move(before: Board, after: Board, m: Move)
    requires
        after.wf(),
        valid(m.from),
        valid(m.to),
        fresh_pawn(m.piece),
        forall|l: Location| valid(l) ==> #[trigger] after.cell(l) == cell_after_move(before, m, l),
    ensures
        after.cell(m.to) == BoardState::Piece((m.piece.0, Pieces::Pawn(true))),
        forall|i: int| 0 <= i < piece_dests(after, m.to).len() ==> near(m.to, #[trigger] piece_dests(after, m.to)[i]),
{
    reveal_with_fuel(pawn_walk, 2);
    reveal_with_fuel(pawn_walks, 3);
    let side = m.piece.0;
    let l = m.to;
    assert(after.cell(l) == cell_after_move(before, m, l));
    let steps = oriented(pawn_steps(), side);
    let caps = oriented(pawn_captures(), side);
    assert(steps.drop_last().drop_last() =~= Seq::<Location>::empty());
    assert(steps.drop_last() =~= seq![steps[0]]);
    let w0 = pawn_walk(after, plus(l, steps[0]), steps[0], 1);
    let w1 = pawn_walk(after, plus(l, steps[1]), steps[1], 1);
    assert forall|k: int| 0 <= k < caps.len() implies within_one(#[trigger] caps[k]) by {
        if side == Colors::Black {
            assert(caps[k] == neg(pawn_captures()[k]));
        }
    }
    lemma_captures_near(after, l, caps, side);
    let cs = captures(after, l, caps, side);
    let d = piece_dests(after, l);
    assert(d =~= w0 + w1 + cs);
    assert forall|i: int| 0 <= i < d.len() implies near(l, #[trigger] d[i]) by {
        if i >= w0.len() + w1.len() {
            assert(cs[i - w0.len() - w1.len()] == d[i]);
        }
    }
}

} // verus!
