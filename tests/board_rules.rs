use chess3d::board::{Board, Move};
use chess3d::location::{location_is_valid, Location};
use chess3d::piece::{BoardState, Colors, Pieces};

fn is_piece(s: BoardState, side: Colors, kind: Pieces) -> bool {
    match s {
        BoardState::Piece((c, p)) => c == side && p == kind,
        BoardState::Empty => false,
    }
}

fn swapped(s: BoardState) -> BoardState {
    match s {
        BoardState::Piece((Colors::White, p)) => BoardState::Piece((Colors::Black, p)),
        BoardState::Piece((Colors::Black, p)) => BoardState::Piece((Colors::White, p)),
        BoardState::Empty => BoardState::Empty,
    }
}

fn same_cell(a: BoardState, b: BoardState) -> bool {
    match (a, b) {
        (BoardState::Empty, BoardState::Empty) => true,
        (BoardState::Piece((ca, pa)), BoardState::Piece((cb, pb))) => ca == cb && pa == pb,
        _ => false,
    }
}

#[test]
fn initial_placement_pawns_and_back_ranks() {
    let b = Board::new();
    assert!(b.is_running());
    for x in 0..8 {
        assert!(is_piece(b.at(Location::new(x, 1, 0)), Colors::White, Pieces::Pawn(false)));
        assert!(is_piece(b.at(Location::new(x, 6, 7)), Colors::Black, Pieces::Pawn(false)));
    }
    let order = [
        Pieces::Rook,
        Pieces::Knight,
        Pieces::Bishop,
        Pieces::Queen,
        Pieces::King,
        Pieces::Bishop,
        Pieces::Knight,
        Pieces::Rook,
    ];
    for x in 0..8 {
        assert!(is_piece(b.at(Location::new(x as isize, 0, 0)), Colors::White, order[x]));
        assert!(is_piece(b.at(Location::new(x as isize, 7, 7)), Colors::Black, order[x]));
    }
    assert!(matches!(b.at(Location::new(3, 3, 3)), BoardState::Empty));
    assert!(matches!(b.at(Location::new(0, 6, 0)), BoardState::Empty));
    assert!(matches!(b.at(Location::new(0, 1, 7)), BoardState::Empty));
}

#[test]
fn initial_placement_is_symmetric() {
    let b = Board::new();
    let mut pieces = 0;
    for x in 0..8 {
        for y in 0..8 {
            for z in 0..8 {
                let here = b.at(Location::new(x, y, z));
                let there = b.at(Location::new(x, 7 - y, 7 - z));
                assert!(same_cell(here, swapped(there)));
                if let BoardState::Piece(_) = here {
                    pieces += 1;
                }
            }
        }
    }
    assert_eq!(pieces, 32);
}

#[test]
fn location_arithmetic() {
    let a = Location::new(1, -2, 3);
    let b = Location::new(4, 5, -6);
    assert_eq!(a.add(b), Location::new(5, 3, -3));
    assert_eq!(a.mul(-2), Location::new(-2, 4, -6));
    let mut c = a;
    c.mul_assign(3);
    assert_eq!(c, Location::new(3, -6, 9));
    assert_eq!(Location::from((7, 0, 2)), Location::new(7, 0, 2));
}

#[test]
fn location_validity() {
    assert!(location_is_valid(Location::new(0, 0, 0)));
    assert!(location_is_valid(Location::new(7, 7, 7)));
    assert!(!location_is_valid(Location::new(8, 0, 0)));
    assert!(!location_is_valid(Location::new(0, -1, 0)));
    assert!(!location_is_valid(Location::new(0, 0, 8)));
}

#[test]
fn piece_letters_and_symbols() {
    assert_eq!(Pieces::Bishop.character(), 'B');
    assert_eq!(Pieces::King.character(), 'K');
    assert_eq!(Pieces::Knight.character(), 'N');
    assert_eq!(Pieces::Pawn(true).character(), 'P');
    assert_eq!(Pieces::Queen.character(), 'Q');
    assert_eq!(Pieces::Rook.character(), 'R');
    assert_eq!(BoardState::Empty.symbol(), '.');
    assert_eq!(BoardState::Piece((Colors::White, Pieces::Queen)).symbol(), 'Q');
    assert_eq!(BoardState::Piece((Colors::Black, Pieces::Queen)).symbol(), 'q');
    assert_eq!(BoardState::Piece((Colors::Black, Pieces::Pawn(false))).symbol(), 'p');
}

#[test]
fn set_writes_one_cell() {
    let mut b = Board::new();
    b.set(Location::new(3, 3, 3), BoardState::Piece((Colors::Black, Pieces::Rook)));
    assert!(is_piece(b.at(Location::new(3, 3, 3)), Colors::Black, Pieces::Rook));
    assert!(matches!(b.at(Location::new(3, 3, 4)), BoardState::Empty));
    assert!(is_piece(b.at(Location::new(0, 0, 0)), Colors::White, Pieces::Rook));
}

#[test]
fn execute_move_marks_pawn_as_moved() {
    let mut b = Board::new();
    let m = Move::new(Location::new(0, 1, 0), Location::new(0, 2, 0), (Colors::White, Pieces::Pawn(false)));
    assert_eq!(m.from(), Location::new(0, 1, 0));
    assert_eq!(m.to(), Location::new(0, 2, 0));
    b.execute_move(&m);
    assert!(matches!(b.at(Location::new(0, 1, 0)), BoardState::Empty));
    assert!(is_piece(b.at(Location::new(0, 2, 0)), Colors::White, Pieces::Pawn(true)));
}

#[test]
fn execute_move_keeps_other_pieces() {
    let mut b = Board::new();
    let m = Move::new(Location::new(1, 0, 0), Location::new(2, 2, 0), (Colors::White, Pieces::Knight));
    b.execute_move(&m);
    assert!(matches!(b.at(Location::new(1, 0, 0)), BoardState::Empty));
    assert!(is_piece(b.at(Location::new(2, 2, 0)), Colors::White, Pieces::Knight));
    assert!(b.is_running());
}

#[test]
fn update_board_copies_everything() {
    let mut other = Board::new();
    other.set(Location::new(5, 5, 5), BoardState::Piece((Colors::White, Pieces::King)));
    other.set(Location::new(0, 0, 0), BoardState::Empty);
    let mut mine = Board::new();
    mine.update_board(&other);
    assert!(is_piece(mine.at(Location::new(5, 5, 5)), Colors::White, Pieces::King));
    assert!(matches!(mine.at(Location::new(0, 0, 0)), BoardState::Empty));
    assert!(mine.is_running());
}

#[test]
fn grid_round_trip_keeps_cells_and_flag() {
    let mut b = Board::new();
    b.set(Location::new(2, 3, 4), BoardState::Piece((Colors::Black, Pieces::Bishop)));
    let g = b.to_grid();
    assert_eq!(g.len(), 8);
    assert!(is_piece(g[2][3][4], Colors::Black, Pieces::Bishop));
    assert!(is_piece(g[4][0][0], Colors::White, Pieces::King));
    let back = Board::from_grid(&g, false).unwrap();
    assert!(!back.is_running());
    for x in 0..8 {
        for y in 0..8 {
            for z in 0..8 {
                let l = Location::new(x, y, z);
                assert!(same_cell(back.at(l), b.at(l)));
            }
        }
    }
    let again = Board::from_grid(&g, true).unwrap();
    assert!(again.is_running());
}

#[test]
fn from_grid_rejects_wrong_shapes() {
    let b = Board::new();
    let mut g = b.to_grid();
    g[3][4].pop();
    assert!(Board::from_grid(&g, true).is_none());
    let mut g = b.to_grid();
    g.pop();
    assert!(Board::from_grid(&g, true).is_none());
    let mut g = b.to_grid();
    g[7].push(Vec::new());
    assert!(Board::from_grid(&g, true).is_none());
}

#[test]
fn clone_is_an_independent_copy() {
    let b = Board::new();
    let mut c = b.clone();
    c.set(Location::new(0, 1, 0), BoardState::Empty);
    assert!(is_piece(b.at(Location::new(0, 1, 0)), Colors::White, Pieces::Pawn(false)));
    assert!(matches!(c.at(Location::new(0, 1, 0)), BoardState::Empty));
}
