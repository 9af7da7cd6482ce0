use chess3d::board::Board;
use chess3d::location::Location;
use chess3d::piece::{BoardState, Colors, Pieces};
use chess3d::view::{BoardView, Click, Selection};

#[test]
fn click_selects_then_chooses() {
    let board = Board::new();
    let mut sel = Selection::new();
    assert!(sel.cursor().is_none());
    assert!(matches!(sel.click(&board, Location::new(0, 1, 0)), Click::Selected));
    assert_eq!(sel.cursor(), Some(Location::new(0, 1, 0)));
    assert_eq!(sel.current_moves().unwrap().len(), 4);
    match sel.click(&board, Location::new(0, 3, 0)) {
        Click::Chosen(m) => {
            assert_eq!(m.from(), Location::new(0, 1, 0));
            assert_eq!(m.to(), Location::new(0, 3, 0));
        },
        _ => panic!("a highlighted destination should be chosen"),
    }
    assert!(sel.cursor().is_none());
    assert!(sel.current_moves().is_none());
}

#[test]
fn click_elsewhere_reselects_and_off_board_is_ignored() {
    let board = Board::new();
    let mut sel = Selection::new();
    sel.click(&board, Location::new(0, 1, 0));
    assert!(matches!(sel.click(&board, Location::new(5, 5, 5)), Click::Selected));
    assert_eq!(sel.cursor(), Some(Location::new(5, 5, 5)));
    assert!(sel.current_moves().unwrap().is_empty());
    assert!(matches!(sel.click(&board, Location::new(0, 0, 8)), Click::Ignored));
    assert_eq!(sel.cursor(), Some(Location::new(5, 5, 5)));
}

#[test]
fn console_view_plays_locally() {
    let mut view = BoardView::new();
    assert!(view.click(Location::new(1, 0, 0)));
    assert!(view.click(Location::new(2, 2, 0)));
    assert!(matches!(view.chess_board.at(Location::new(1, 0, 0)), BoardState::Empty));
    assert!(matches!(view.chess_board.at(Location::new(2, 2, 0)), BoardState::Piece((Colors::White, Pieces::Knight))));
    assert!(view.selection.cursor().is_none());
    assert!(!view.click(Location::new(-1, 0, 0)));
}
