use chess3d::board::{Board, Move};
use chess3d::location::{location_is_valid, Location};
use chess3d::piece::{BoardState, Colors, Pieces};

fn empty_board() -> Board {
    let mut b = Board::new();
    for x in 0..8 {
        for y in 0..8 {
            for z in 0..8 {
                b.set(Location::new(x, y, z), BoardState::Empty);
            }
        }
    }
    b
}

fn with_piece(l: Location, side: Colors, kind: Pieces) -> Board {
    let mut b = empty_board();
    b.set(l, BoardState::Piece((side, kind)));
    b
}

fn targets(moves: &[Move]) -> Vec<Location> {
    moves.iter().map(|m| m.to()).collect()
}

fn has(moves: &[Move], l: Location) -> bool {
    moves.iter().any(|m| m.to() == l)
}

fn side_at(b: &Board, l: Location) -> Option<Colors> {
    match b.at(l) {
        BoardState::Piece((c, _)) => Some(c),
        BoardState::Empty => None,
    }
}

fn check_moves_legal(b: &Board, c: Location) {
    let side = side_at(b, c);
    for m in b.piece_moves(c) {
        assert_eq!(m.from(), c);
        assert!(location_is_valid(m.to()));
        if let Some(s) = side {
            assert_ne!(side_at(b, m.to()), Some(s));
        }
    }
}

#[test]
fn empty_cell_has_no_moves() {
    let b = Board::new();
    assert!(b.piece_moves(Location::new(4, 4, 4)).is_empty());
}

#[test]
fn moves_start_at_source_and_avoid_own_pieces() {
    let mut b = Board::new();
    for x in 0..8 {
        for y in 0..8 {
            for z in 0..8 {
                check_moves_legal(&b, Location::new(x, y, z));
            }
        }
    }
    b.set(Location::new(3, 3, 3), BoardState::Piece((Colors::White, Pieces::Queen)));
    b.set(Location::new(4, 4, 4), BoardState::Piece((Colors::Black, Pieces::King)));
    b.set(Location::new(2, 5, 3), BoardState::Piece((Colors::Black, Pieces::Knight)));
    b.set(Location::new(3, 5, 6), BoardState::Piece((Colors::White, Pieces::Bishop)));
    for l in [
        Location::new(3, 3, 3),
        Location::new(4, 4, 4),
        Location::new(2, 5, 3),
        Location::new(3, 5, 6),
    ] {
        check_moves_legal(&b, l);
    }
}

#[test]
fn rook_in_the_middle_of_an_empty_board() {
    let c = Location::new(3, 3, 3);
    let b = with_piece(c, Colors::White, Pieces::Rook);
    let moves = b.piece_moves(c);
    assert_eq!(moves.len(), 21);
    for t in targets(&moves) {
        let shared = (t.x == 3) as u8 + (t.y == 3) as u8 + (t.z == 3) as u8;
        assert_eq!(shared, 2);
    }
    for v in 0..8 {
        if v != 3 {
            assert!(has(&moves, Location::new(v, 3, 3)));
            assert!(has(&moves, Location::new(3, v, 3)));
            assert!(has(&moves, Location::new(3, 3, v)));
        }
    }
    let first: Vec<Location> = targets(&moves).into_iter().take(4).collect();
    assert_eq!(
        first,
        vec![Location::new(4, 3, 3), Location::new(5, 3, 3), Location::new(6, 3, 3), Location::new(7, 3, 3)]
    );
    for m in &moves {
        assert!(matches!(m.piece(), (Colors::White, Pieces::Rook)));
    }
}

#[test]
fn rook_walk_stops_at_pieces() {
    let c = Location::new(3, 3, 3);
    let mut b = with_piece(c, Colors::White, Pieces::Rook);
    b.set(Location::new(5, 3, 3), BoardState::Piece((Colors::Black, Pieces::Pawn(true))));
    b.set(Location::new(3, 3, 5), BoardState::Piece((Colors::White, Pieces::Pawn(true))));
    let moves = b.piece_moves(c);
    assert!(has(&moves, Location::new(4, 3, 3)));
    assert!(has(&moves, Location::new(5, 3, 3)));
    assert!(!has(&moves, Location::new(6, 3, 3)));
    assert!(has(&moves, Location::new(3, 3, 4)));
    assert!(!has(&moves, Location::new(3, 3, 5)));
    assert!(!has(&moves, Location::new(3, 3, 6)));
    assert_eq!(moves.len(), 21 - 2 - 3);
}

#[test]
fn sliding_pieces_on_an_empty_board() {
    let c = Location::new(3, 3, 3);
    assert_eq!(with_piece(c, Colors::White, Pieces::Bishop).piece_moves(c).len(), 39);
    assert_eq!(with_piece(c, Colors::Black, Pieces::Queen).piece_moves(c).len(), 60);
    let corner = Location::new(0, 0, 0);
    assert_eq!(with_piece(corner, Colors::White, Pieces::Rook).piece_moves(corner).len(), 21);
    assert_eq!(with_piece(corner, Colors::White, Pieces::Bishop).piece_moves(corner).len(), 21);
    assert_eq!(with_piece(corner, Colors::White, Pieces::Queen).piece_moves(corner).len(), 42);
}

#[test]
fn knight_in_the_middle_and_in_a_corner() {
    let c = Location::new(3, 3, 3);
    let moves = with_piece(c, Colors::White, Pieces::Knight).piece_moves(c);
    assert_eq!(moves.len(), 24);
    assert!(has(&moves, Location::new(2, 5, 3)));
    assert!(has(&moves, Location::new(4, 1, 3)));
    assert!(has(&moves, Location::new(3, 1, 2)));
    let corner = Location::new(0, 0, 0);
    let moves = with_piece(corner, Colors::Black, Pieces::Knight).piece_moves(corner);
    let mut got = targets(&moves);
    got.sort_by_key(|l| (l.x, l.y, l.z));
    let mut want = vec![
        Location::new(1, 2, 0),
        Location::new(2, 1, 0),
        Location::new(1, 0, 2),
        Location::new(2, 0, 1),
        Location::new(0, 1, 2),
        Location::new(0, 2, 1),
    ];
    want.sort_by_key(|l| (l.x, l.y, l.z));
    assert_eq!(got, want);
}

#[test]
fn knight_captures_but_not_own_side() {
    let c = Location::new(3, 3, 3);
    let mut b = with_piece(c, Colors::White, Pieces::Knight);
    b.set(Location::new(4, 5, 3), BoardState::Piece((Colors::Black, Pieces::Rook)));
    b.set(Location::new(2, 5, 3), BoardState::Piece((Colors::White, Pieces::Rook)));
    let moves = b.piece_moves(c);
    assert_eq!(moves.len(), 23);
    assert!(has(&moves, Location::new(4, 5, 3)));
    assert!(!has(&moves, Location::new(2, 5, 3)));
}

#[test]
fn king_steps_once() {
    let c = Location::new(3, 3, 3);
    let moves = with_piece(c, Colors::White, Pieces::King).piece_moves(c);
    assert_eq!(moves.len(), 18);
    assert!(has(&moves, Location::new(4, 3, 3)));
    assert!(!has(&moves, Location::new(5, 3, 3)));
    assert!(!has(&moves, Location::new(4, 4, 4)));
    let corner = Location::new(0, 0, 0);
    assert_eq!(with_piece(corner, Colors::White, Pieces::King).piece_moves(corner).len(), 6);
    let b = Board::new();
    let king = Location::new(4, 0, 0);
    let moves = b.piece_moves(king);
    assert_eq!(
        targets(&moves),
        vec![Location::new(3, 0, 1), Location::new(4, 0, 1), Location::new(5, 0, 1), Location::new(4, 1, 1)]
    );
}

#[test]
fn white_pawn_double_step_needs_two_empty_cells() {
    let b = Board::new();
    let p = Location::new(0, 1, 0);
    let moves = b.piece_moves(p);
    assert_eq!(
        targets(&moves),
        vec![Location::new(0, 2, 0), Location::new(0, 3, 0), Location::new(0, 1, 1), Location::new(0, 1, 2)]
    );

    let mut blocked_near = Board::new();
    blocked_near.set(Location::new(0, 2, 0), BoardState::Piece((Colors::White, Pieces::Rook)));
    let moves = blocked_near.piece_moves(p);
    assert!(!has(&moves, Location::new(0, 2, 0)));
    assert!(!has(&moves, Location::new(0, 3, 0)));

    let mut blocked_far = Board::new();
    blocked_far.set(Location::new(0, 3, 0), BoardState::Piece((Colors::Black, Pieces::Rook)));
    let moves = blocked_far.piece_moves(p);
    assert!(has(&moves, Location::new(0, 2, 0)));
    assert!(!has(&moves, Location::new(0, 3, 0)));
}

#[test]
fn pawn_takes_single_steps_after_moving() {
    let mut b = Board::new();
    let p = Location::new(2, 1, 0);
    let first = b.piece_moves(p);
    let step = first.iter().find(|m| m.to() == Location::new(2, 2, 0)).unwrap();
    b.execute_move(step);
    assert!(matches!(b.at(Location::new(2, 2, 0)), BoardState::Piece((Colors::White, Pieces::Pawn(true)))));
    let moves = b.piece_moves(Location::new(2, 2, 0));
    assert_eq!(targets(&moves), vec![Location::new(2, 3, 0), Location::new(2, 2, 1)]);
}

#[test]
fn black_pawn_moves_the_other_way_and_captures() {
    let mut b = empty_board();
    let p = Location::new(4, 6, 7);
    b.set(p, BoardState::Piece((Colors::Black, Pieces::Pawn(false))));
    b.set(Location::new(5, 5, 7), BoardState::Piece((Colors::White, Pieces::Knight)));
    b.set(Location::new(3, 5, 7), BoardState::Piece((Colors::Black, Pieces::Knight)));
    b.set(Location::new(3, 5, 6), BoardState::Piece((Colors::White, Pieces::Queen)));
    let moves = b.piece_moves(p);
    assert_eq!(
        targets(&moves),
        vec![
            Location::new(4, 5, 7),
            Location::new(4, 4, 7),
            Location::new(4, 6, 6),
            Location::new(4, 6, 5),
            Location::new(5, 5, 7),
            Location::new(3, 5, 6),
        ]
    );
    for m in &moves {
        assert!(matches!(m.piece(), (Colors::Black, Pieces::Pawn(false))));
    }
}

#[test]
fn pawn_does_not_capture_straight_ahead() {
    let mut b = Board::new();
    b.set(Location::new(0, 2, 0), BoardState::Piece((Colors::Black, Pieces::Rook)));
    let moves = b.piece_moves(Location::new(0, 1, 0));
    assert!(!has(&moves, Location::new(0, 2, 0)));
    b.set(Location::new(1, 2, 0), BoardState::Piece((Colors::Black, Pieces::Rook)));
    let moves = b.piece_moves(Location::new(0, 1, 0));
    assert!(has(&moves, Location::new(1, 2, 0)));
}
