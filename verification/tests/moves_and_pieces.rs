use chess_engine::board::{castling_rights_mask, Board, CastlingRights};
use chess_engine::moves::{Move, MoveList, UndoList};
use chess_engine::piece::{get_color, get_type, make_piece, PieceColor, PieceTrait, PieceType, NO_PIECE};
use chess_engine::squares::Squares;

#[test]
fn move_packs_and_unpacks() {
    let m = Move::new(Squares::E2, Squares::E4, Move::FLAG_DOUBLE_PAWN_PUSH);
    assert_eq!(m.as_bytes(), 4096 + 12 + 28 * 64);
    assert_eq!(m.from_square(), 12);
    assert_eq!(m.to_square(), 28);
    assert_eq!(m.flags(), 1);
    assert!(m.is_double_pawn());
    assert!(!m.is_capture());
    assert!(!m.is_castle());
    assert!(!m.is_promotion());
    assert!(!m.is_en_passant());
    assert_eq!(m.promotion_type(), None);
    assert_eq!(Move::from_bytes(m.as_bytes()), m);
}

#[test]
fn move_flags_classify() {
    let ep = Move::new(Squares::E5, Squares::D6, Move::FLAG_EN_PASSANT);
    assert!(ep.is_en_passant());
    assert!(ep.is_capture());
    let castle = Move::new(Squares::E1, Squares::C1, Move::FLAG_QUEEN_CASTLE);
    assert!(castle.is_castle());
    assert!(!castle.is_capture());
    let promo = Move::new(Squares::E7, Squares::D8, Move::FLAG_PROMOTE_QUEEN_CAPTURE);
    assert!(promo.is_promotion());
    assert!(promo.is_capture());
    assert_eq!(promo.promotion_type(), Some(PieceType::Queen));
    assert_eq!(Move::new(Squares::A7, Squares::A8, Move::FLAG_PROMOTE_KNIGHT).promotion_type(), Some(PieceType::Knight));
    assert_eq!(Move::new(Squares::A7, Squares::A8, Move::FLAG_PROMOTE_BISHOP).promotion_type(), Some(PieceType::Bishop));
    assert_eq!(Move::new(Squares::A7, Squares::A8, Move::FLAG_PROMOTE_ROOK).promotion_type(), Some(PieceType::Rook));
    assert_eq!(Move::null().as_bytes(), 0);
}

#[test]
fn move_list_finds_by_squares() {
    let mut list = MoveList::new();
    assert_eq!(list.len(), 0);
    list.add(Move::new(Squares::G1, Squares::F3, Move::FLAG_QUIET));
    list.add(Move::new(Squares::A7, Squares::A8, Move::FLAG_PROMOTE_QUEEN));
    list.add(Move::new(Squares::A7, Squares::A8, Move::FLAG_PROMOTE_KNIGHT));
    assert_eq!(list.len(), 3);
    assert_eq!(list.size(), 3);
    assert_eq!(list.move_at(1), Move::new(Squares::A7, Squares::A8, Move::FLAG_PROMOTE_QUEEN));
    assert_eq!(
        list.contains(Move::new(Squares::A7, Squares::A8, Move::FLAG_QUIET)),
        Some(Move::new(Squares::A7, Squares::A8, Move::FLAG_PROMOTE_QUEEN))
    );
    assert_eq!(list.contains(Move::new(Squares::G1, Squares::H3, Move::FLAG_QUIET)), None);
    assert_eq!(list.as_slice().len(), 3);
}

#[test]
fn undo_list_starts_empty() {
    let mut undo = UndoList::default();
    assert_eq!(undo.len(), 0);
    assert!(undo.pop().is_none());
}

#[test]
fn pieces_pack_type_and_color() {
    let q = make_piece(PieceType::Queen, PieceColor::Black);
    assert_eq!(get_type(q), PieceType::Queen);
    assert_eq!(get_color(q), PieceColor::Black);
    assert_eq!(q.get_type(), PieceType::Queen);
    assert_eq!(<u8 as PieceTrait>::make(PieceType::Pawn, PieceColor::White), 0);
    assert_eq!(get_type(NO_PIECE), PieceType::NoPiece);
    assert_eq!(<u8 as PieceTrait>::NO_PIECE, 7);
    assert_eq!(PieceColor::White.flip(), PieceColor::Black);
    assert_eq!(PieceColor::Black.flip(), PieceColor::White);
}

#[test]
fn castling_rights_combine() {
    assert_eq!(CastlingRights::all().bits(), 0b1111);
    assert_eq!(CastlingRights::white().bits(), 0b1100);
    assert_eq!(CastlingRights::black().bits(), 0b0011);
    assert_eq!(CastlingRights::king().bits(), 0b1010);
    assert_eq!(CastlingRights::queen().bits(), 0b0101);
    let mut r = CastlingRights::empty();
    assert!(r.is_empty());
    r.insert(CastlingRights::white_king());
    r.insert(CastlingRights::black_queen());
    assert_eq!(r.bits(), 0b1001);
    assert!(r.contains(CastlingRights::white_king()));
    assert!(!r.contains(CastlingRights::white()));
    assert_eq!(r.difference(CastlingRights::white_king()).bits(), 0b0001);
    assert_eq!(r.union(CastlingRights::black_king()).bits(), 0b1011);
    assert_eq!(r.intersection(CastlingRights::black()).bits(), 0b0001);
    assert_eq!(CastlingRights::from_bits_retain(0b0110).bits(), 0b0110);
}

#[test]
fn castling_mask_clears_touched_rights() {
    assert_eq!(castling_rights_mask(Squares::E1).bits(), 0b0011);
    assert_eq!(castling_rights_mask(Squares::H1).bits(), 0b0111);
    assert_eq!(castling_rights_mask(Squares::A1).bits(), 0b1011);
    assert_eq!(castling_rights_mask(Squares::E8).bits(), 0b1100);
    assert_eq!(castling_rights_mask(Squares::H8).bits(), 0b1101);
    assert_eq!(castling_rights_mask(Squares::A8).bits(), 0b1110);
    assert_eq!(castling_rights_mask(Squares::D4).bits(), 0b1111);
}

#[test]
fn board_puts_and_removes_pieces() {
    let mut b = Board::new();
    assert_eq!(b.get_all_pieces(), 0);
    let knight = make_piece(PieceType::Knight, PieceColor::White);
    b.put_piece(knight, Squares::C2);
    assert_eq!(b.piece_at(Squares::C2), knight);
    assert!(!b.is_empty(Squares::C2));
    assert_eq!(b.get_bb_by_type(PieceType::Knight), 1 << 10);
    assert_eq!(b.get_bb_by_color(PieceColor::White), 1 << 10);
    assert_eq!(b.get_bb_by_color(PieceColor::Black), 0);
    b.remove_piece(Squares::C2);
    assert!(b.is_empty(Squares::C2));
    assert_eq!(b.piece_at(Squares::C2), NO_PIECE);
    assert_eq!(b.get_all_pieces(), 0);
    b.set_turn(PieceColor::Black);
    assert_eq!(b.get_turn(), PieceColor::Black);
    b.set_en_passant(1 << 20);
    assert_eq!(b.get_en_passant_bb(), 1 << 20);
    b.set_rights(CastlingRights::black());
    assert_eq!(b.get_rights().bits(), 0b0011);
}

#[test]
fn move_reads_as_text() {
    assert_eq!(Move::new(Squares::E2, Squares::E4, Move::FLAG_DOUBLE_PAWN_PUSH).to_string(), "From: 12 To: 28 Flags: 1");
    assert_eq!(Move::new(Squares::H7, Squares::G8, Move::FLAG_PROMOTE_QUEEN_CAPTURE).to_string(), "From: 55 To: 62 Flags: 15");
    assert_eq!(Move::null().to_string(), "");
}
