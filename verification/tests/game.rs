use chess_engine::game::{Game, GameMoment, OnlineGame, SelectionState};
use chess_engine::moves::Move;
use chess_engine::piece::{get_color, get_type, PieceColor, PieceType, NO_PIECE};
use chess_engine::squares::Squares;

#[test]
fn game_starts_from_the_start_position() {
    let g = Game::new(None);
    assert_eq!(g.legal_moves().len(), 20);
    assert_eq!(g.selected_piece(), SelectionState::Nothing);
    assert_eq!(g.moment(), GameMoment::Playing);
    assert_eq!(g.perspective, PieceColor::White);
    assert_eq!(g.online(), None);
    assert_eq!(g.board().get_turn(), PieceColor::White);
    assert!(g.can_move());
    assert_eq!(SelectionState::default(), SelectionState::Nothing);
}

#[test]
fn game_plays_and_takes_back() {
    let mut g = Game::new(None);
    assert_eq!(
        g.try_move(Squares::E2, Squares::E4, None),
        Ok(Move::new(Squares::E2, Squares::E4, Move::FLAG_DOUBLE_PAWN_PUSH))
    );
    assert_eq!(g.board().get_turn(), PieceColor::Black);
    assert_eq!(g.board().piece_at(Squares::E2), NO_PIECE);
    assert_eq!(get_type(g.board().piece_at(Squares::E4)), PieceType::Pawn);
    assert_eq!(g.legal_moves().len(), 20);
    assert_eq!(g.try_move(Squares::E2, Squares::E4, None), Err("Found no matching legal move"));
    g.undo();
    assert_eq!(g.board().get_turn(), PieceColor::White);
    assert_eq!(get_type(g.board().piece_at(Squares::E2)), PieceType::Pawn);
    // The legal moves are left as they were: Black's replies to e4.
    assert_eq!(g.legal_moves().len(), 20);
    assert!(g.legal_moves().contains(Move::new(Squares::E7, Squares::E5, Move::FLAG_DOUBLE_PAWN_PUSH)).is_some());
    assert!(g.legal_moves().contains(Move::new(Squares::E2, Squares::E4, Move::FLAG_DOUBLE_PAWN_PUSH)).is_none());
    g.undo();
    assert_eq!(g.legal_moves().len(), 20);
    assert_eq!(g.board().get_turn(), PieceColor::White);
}

#[test]
fn game_waits_for_the_promotion_piece() {
    let mut g = Game::new(None);
    for (from, to) in [
        (Squares::H2, Squares::H4),
        (Squares::G7, Squares::G5),
        (Squares::H4, Squares::G5),
        (Squares::H7, Squares::H6),
        (Squares::G5, Squares::H6),
        (Squares::F8, Squares::G7),
        (Squares::H6, Squares::G7),
        (Squares::G8, Squares::F6),
    ] {
        assert!(g.try_move(from, to, None).is_ok());
    }
    assert_eq!(g.try_move(Squares::G7, Squares::G8, None), Ok(Move::null()));
    assert_eq!(g.moment(), GameMoment::Promoting(Squares::G7, Squares::G8));
    assert_eq!(get_type(g.board().piece_at(Squares::G7)), PieceType::Pawn);
    assert_eq!(
        g.try_move(Squares::G7, Squares::G8, Some(PieceType::Queen)),
        Ok(Move::new(Squares::G7, Squares::G8, Move::FLAG_PROMOTE_QUEEN))
    );
    assert_eq!(g.moment(), GameMoment::Playing);
    assert_eq!(get_type(g.board().piece_at(Squares::G8)), PieceType::Queen);
    assert_eq!(get_color(g.board().piece_at(Squares::G8)), PieceColor::White);
    assert_eq!(g.try_move(Squares::F6, Squares::G8, Some(PieceType::King)), Ok(Move::new(Squares::F6, Squares::G8, Move::FLAG_CAPTURE)));
    assert_eq!(g.try_move(Squares::A2, Squares::A4, Some(PieceType::Knight)), Ok(Move::new(Squares::A2, Squares::A4, Move::FLAG_DOUBLE_PAWN_PUSH)));
}

#[test]
fn game_refuses_a_promotion_piece_without_a_move() {
    let mut g = Game::new(None);
    for (from, to) in [
        (Squares::H2, Squares::H4),
        (Squares::G7, Squares::G5),
        (Squares::H4, Squares::G5),
        (Squares::H7, Squares::H6),
        (Squares::G5, Squares::H6),
        (Squares::F8, Squares::G7),
        (Squares::H6, Squares::G7),
        (Squares::G8, Squares::F6),
    ] {
        assert!(g.try_move(from, to, None).is_ok());
    }
    assert_eq!(g.try_move(Squares::G7, Squares::G8, Some(PieceType::Pawn)), Err("Found no matching legal move"));
    assert_eq!(g.moment(), GameMoment::Playing);
    assert_eq!(g.try_move(Squares::G7, Squares::H8, Some(PieceType::Rook)), Ok(Move::new(Squares::G7, Squares::H8, Move::FLAG_PROMOTE_ROOK_CAPTURE)));
}

#[test]
fn game_selects_then_moves() {
    let mut g = Game::new(None);
    assert_eq!(g.handle_select(Squares::G1), None);
    assert_eq!(g.selected_piece(), SelectionState::Selected(Squares::G1));
    assert_eq!(
        g.handle_select(Squares::F3),
        Some(Ok(Move::new(Squares::G1, Squares::F3, Move::FLAG_QUIET)))
    );
    assert_eq!(g.selected_piece(), SelectionState::Nothing);
    assert_eq!(g.handle_select(Squares::E7), None);
    assert_eq!(g.handle_select(Squares::E3), Some(Err("Found no matching legal move")));
    assert_eq!(g.selected_piece(), SelectionState::Nothing);
    assert_eq!(g.board().get_turn(), PieceColor::Black);
}

#[test]
fn game_drags_pieces() {
    let mut g = Game::new(None);
    g.handle_drag_start(Squares::E4);
    assert_eq!(g.selected_piece(), SelectionState::Nothing);
    assert_eq!(g.handle_drag_end(Squares::E5), None);
    g.handle_drag_start(Squares::D2);
    assert_eq!(g.selected_piece(), SelectionState::Dragging(Squares::D2));
    assert_eq!(g.handle_select(Squares::D4), None);
    assert_eq!(g.selected_piece(), SelectionState::Dragging(Squares::D2));
    assert_eq!(
        g.handle_drag_end(Squares::D4),
        Some(Ok(Move::new(Squares::D2, Squares::D4, Move::FLAG_DOUBLE_PAWN_PUSH)))
    );
    assert_eq!(g.selected_piece(), SelectionState::Nothing);
    assert_eq!(g.board().get_turn(), PieceColor::Black);
}

#[test]
fn online_game_moves_only_its_own_pieces() {
    let mut g = Game::new(Some(OnlineGame { color_us: PieceColor::Black }));
    assert_eq!(g.online(), Some(OnlineGame { color_us: PieceColor::Black }));
    assert_eq!(g.handle_select(Squares::E2), None);
    assert_eq!(g.handle_select(Squares::E4), None);
    assert_eq!(g.selected_piece(), SelectionState::Nothing);
    assert_eq!(g.board().get_turn(), PieceColor::White);
    g.handle_drag_start(Squares::E2);
    assert_eq!(g.handle_drag_end(Squares::E4), None);
    assert_eq!(g.board().get_turn(), PieceColor::White);
    assert!(g.try_move(Squares::E2, Squares::E4, None).is_ok());
    g.handle_drag_start(Squares::E7);
    assert_eq!(
        g.handle_drag_end(Squares::E5),
        Some(Ok(Move::new(Squares::E7, Squares::E5, Move::FLAG_DOUBLE_PAWN_PUSH)))
    );
}
