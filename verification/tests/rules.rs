use chess_engine::bitboard::{BitboardExt, A_FILE, RANK_1};
use chess_engine::board::Board;
use chess_engine::fen::{fen_loads, load_fen, try_load_fen, FenError, START_POS};
use chess_engine::move_generator::{
    calc_shift, count_ones, generate_legal_moves, generate_moves, generate_sliding_attacks,
    get_blocker_mask, is_in_check, is_square_attacked, king_attacks, knight_attacks, perft,
};
use chess_engine::moves::Move;
use chess_engine::piece::{make_piece, PieceColor, PieceType};
use chess_engine::squares::Squares;

const KIWIPETE: &str = "r3k2r/p1ppqpb1/bn2pnp1/3PN3/1p2P3/2N2Q1p/PPPBBPPP/R3K2R w KQkq -";

#[test]
fn fen_reports_each_error() {
    assert!(matches!(load_fen("a b c d e f g"), Err(FenError::InvalidPartCount)));
    assert!(matches!(load_fen("rnbqkbnr/ppppXppp/8/8/8/8/PPPPPPPP/RNBQKBNR"), Err(FenError::InvalidPiecePlacement)));
    assert!(matches!(load_fen("8/8/8/8/8/8/8/8/8"), Err(FenError::OutOfBounds)));
    assert!(matches!(load_fen("8/8/8/8/8/8/8/8 x"), Err(FenError::InvalidTurn)));
    assert!(matches!(load_fen("8/8/8/8/8/8/8/8 w KQx"), Err(FenError::InvalidRights)));
    assert!(matches!(load_fen("8/8/8/8/8/8/8/8 w KQkqK"), Err(FenError::InvalidRights)));
    assert!(matches!(load_fen("8/8/8/8/8/8/8/8 w - zz"), Err(FenError::InvalidEnPassant)));
    assert!(matches!(load_fen("8/8/8/8/8/8/8/8 w - e9"), Err(FenError::InvalidEnPassant)));
    assert!(matches!(load_fen("8/8/8/8/8/8/8/8 w - i3"), Err(FenError::InvalidEnPassant)));
    assert!(matches!(load_fen("8/8/8/8/8/8/8/8 w - e0"), Err(FenError::InvalidEnPassant)));
    assert!(matches!(load_fen("8/8/8/8/8/8/8/8 w - e3x"), Err(FenError::InvalidEnPassant)));
}

#[test]
fn fen_reads_the_en_passant_square() {
    let b = load_fen("rnbqkbnr/pppppppp/8/8/4P3/8/PPPP1PPP/RNBQKBNR b KQkq e3 0 1").unwrap();
    assert_eq!(b.get_en_passant_bb(), 1u64 << 20);
    assert_eq!(b.get_turn(), PieceColor::Black);
    let e = load_fen("8/8/8/8/8/8/8/8 w - e3").unwrap();
    assert_eq!(e.get_en_passant_bb(), 1u64 << Squares::E3);
    assert_eq!(load_fen("8/8/8/8/8/8/8/8 w - a1").unwrap().get_en_passant_bb(), 1);
    assert_eq!(load_fen("8/8/8/8/8/8/8/8 w - h8").unwrap().get_en_passant_bb(), 1u64 << 63);
    assert_eq!(load_fen("8/8/8/8/8/8/8/8 b - d6").unwrap().get_en_passant_bb(), 1u64 << 43);
}

#[test]
fn fen_reads_the_start_position() {
    let b = load_fen(START_POS).unwrap();
    assert_eq!(b.get_turn(), PieceColor::White);
    assert_eq!(b.get_rights().bits(), 0b1111);
    assert_eq!(b.get_en_passant_bb(), 0);
    assert_eq!(b.get_all_pieces(), 0xFFFF00000000FFFF);
    assert_eq!(b.get_bb_by_type(PieceType::King), (1 << 4) | (1 << 60));
    let k = load_fen("4k3/8/8/8/8/8/8/4K3 b").unwrap();
    assert_eq!(k.get_turn(), PieceColor::Black);
    assert_eq!(k.get_rights().bits(), 0);
}

#[test]
fn attack_sets_of_single_pieces() {
    assert_eq!(knight_attacks(Squares::A1), (1 << 17) | (1 << 10));
    assert_eq!(king_attacks(Squares::A1), (1 << 1) | (1 << 8) | (1 << 9));
    assert_eq!(generate_sliding_attacks(Squares::A1, 0, PieceType::Rook), (A_FILE | RANK_1) & !1);
    assert_eq!(generate_sliding_attacks(Squares::A1, 1 << 24, PieceType::Rook), 0x10101FE);
    assert_eq!(
        generate_sliding_attacks(Squares::D4, 1 << Squares::F6, PieceType::Bishop),
        (1 << Squares::E5) | (1 << Squares::F6) | (1 << Squares::C5) | (1 << Squares::B6) | (1 << Squares::A7)
            | (1 << Squares::C3) | (1 << Squares::B2) | (1 << Squares::A1) | (1 << Squares::E3)
            | (1 << Squares::F2) | (1 << Squares::G1)
    );
}

#[test]
fn blocker_masks_and_shifts() {
    let bishop_d4 = get_blocker_mask(Squares::D4, PieceType::Bishop);
    assert_eq!(count_ones(bishop_d4), 9);
    assert_eq!(count_ones(get_blocker_mask(Squares::D4, PieceType::Rook)), 10);
    assert_eq!(calc_shift(Squares::A1, PieceType::Rook), 52);
    assert_eq!(calc_shift(Squares::A1, PieceType::Bishop), 58);
    assert_eq!(calc_shift(Squares::D4, PieceType::Bishop), 55);
}

#[test]
fn pop_lsb_takes_the_lowest_square() {
    let mut bb: u64 = 0b1010_0000;
    assert_eq!(bb.pop_lsb(), 5);
    assert_eq!(bb, 0b1000_0000);
    assert_eq!(bb.pop_lsb(), 7);
    assert_eq!(bb, 0);
}

#[test]
fn legal_move_counts() {
    let mut b = load_fen(START_POS).unwrap();
    assert_eq!(generate_legal_moves(&mut b).len(), 20);
    let mut k = load_fen(KIWIPETE).unwrap();
    assert_eq!(generate_legal_moves(&mut k).len(), 48);
    let mut checked = load_fen("4k3/8/8/8/8/8/8/4R2K b").unwrap();
    assert_eq!(generate_legal_moves(&mut checked).len(), 4);
}

#[test]
fn pseudo_legal_move_kinds() {
    let b = load_fen(START_POS).unwrap();
    assert_eq!(generate_moves::<true, true>(&b, PieceColor::White).len(), 20);
    assert_eq!(generate_moves::<false, true>(&b, PieceColor::White).len(), 20);
    assert_eq!(generate_moves::<true, false>(&b, PieceColor::White).len(), 0);
    assert_eq!(generate_moves::<true, true>(&b, PieceColor::Black).len(), 20);
    let k = load_fen(KIWIPETE).unwrap();
    let castles = generate_moves::<false, false>(&k, PieceColor::White);
    assert_eq!(castles.len(), 2);
    assert_eq!(castles.move_at(0), Move::new(Squares::E1, Squares::G1, Move::FLAG_KING_CASTLE));
    assert_eq!(castles.move_at(1), Move::new(Squares::E1, Squares::C1, Move::FLAG_QUEEN_CASTLE));
}

#[test]
fn checks_and_attacked_squares() {
    let b = load_fen(START_POS).unwrap();
    assert!(is_square_attacked(&b, Squares::E3, PieceColor::White));
    assert!(is_square_attacked(&b, Squares::E6, PieceColor::Black));
    assert!(!is_square_attacked(&b, Squares::E4, PieceColor::White));
    assert!(!is_in_check(&b, PieceColor::White));
    let c = load_fen("4k3/8/8/8/8/8/8/4R2K b").unwrap();
    assert!(is_in_check(&c, PieceColor::Black));
    assert!(!is_in_check(&c, PieceColor::White));
    let empty = Board::new();
    assert!(is_in_check(&empty, PieceColor::White));
}

#[test]
fn do_then_undo_gives_the_board_back() {
    for fen in [START_POS, KIWIPETE, "4k3/8/8/8/8/8/8/4R2K b"] {
        let mut b = load_fen(fen).unwrap();
        let reference = load_fen(fen).unwrap();
        let moves = generate_legal_moves(&mut b);
        for &m in moves.as_slice() {
            b.do_move(m);
            b.undo_move();
            assert_eq!(b, reference);
        }
    }
}

#[test]
fn do_move_plays_the_move() {
    let mut b = load_fen(START_POS).unwrap();
    b.do_move(Move::new(Squares::E2, Squares::E4, Move::FLAG_DOUBLE_PAWN_PUSH));
    assert!(b.is_empty(Squares::E2));
    assert_eq!(b.get_bb_by_type(PieceType::Pawn) & (1 << Squares::E4), 1 << Squares::E4);
    assert_eq!(b.get_turn(), PieceColor::Black);
    assert_eq!(b.get_en_passant_bb(), 1 << Squares::E3);
    let mut k = load_fen(KIWIPETE).unwrap();
    k.do_move(Move::new(Squares::E1, Squares::G1, Move::FLAG_KING_CASTLE));
    assert!(k.is_empty(Squares::H1));
    assert_eq!(k.get_bb_by_type(PieceType::Rook) & (1 << Squares::F1), 1 << Squares::F1);
    assert_eq!(k.get_rights().bits(), 0b0011);
}

#[test]
fn perft_ignores_counters_and_unusable_en_passant() {
    let mut b = load_fen(START_POS).unwrap();
    b.do_move(Move::new(Squares::E2, Squares::E4, Move::FLAG_DOUBLE_PAWN_PUSH));
    let with_ep = perft(3, &mut b);
    b.set_en_passant(0);
    b.set_half_move_counter(40);
    b.set_full_move_counter(7);
    assert_eq!(perft(3, &mut b), with_ep);
    assert_eq!(with_ep, 13160);
}

#[test]
fn perft_leaves_the_board_unchanged() {
    let mut k = load_fen(KIWIPETE).unwrap();
    let reference = load_fen(KIWIPETE).unwrap();
    assert_eq!(perft(2, &mut k), 2039);
    assert_eq!(k, reference);
}

#[test]
fn en_passant_and_promotions_are_counted() {
    // Position 3 of the usual perft suite: en passant and checks.
    let mut p3 = load_fen("8/2p5/3p4/KP5r/1R3p1k/8/4P1P1/8 w -").unwrap();
    assert_eq!(perft(1, &mut p3), 14);
    assert_eq!(perft(3, &mut p3), 2812);
    assert_eq!(perft(5, &mut p3), 674624);
    // Position 4: promotions and castling.
    let mut p4 = load_fen("r3k2r/Pppp1ppp/1b3nbN/nP6/BBP1P3/q4N2/Pp1P2PP/R2Q1RK1 w kq -").unwrap();
    assert_eq!(perft(1, &mut p4), 6);
    assert_eq!(perft(3, &mut p4), 9467);
    assert_eq!(perft(4, &mut p4), 422333);
}

#[test]
fn perft_one_counts_legal_moves() {
    for fen in [START_POS, KIWIPETE, "4k3/8/8/8/8/8/8/4R2K b", "8/2p5/3p4/KP5r/1R3p1k/8/4P1P1/8 w -"] {
        let mut b = load_fen(fen).unwrap();
        let legal = generate_legal_moves(&mut b).len() as u64;
        assert_eq!(perft(1, &mut b), legal);
    }
}

#[test]
fn promotion_from_any_piece_keeps_the_board_consistent() {
    // A knight on e7 given a promotion flag: do_move accepts it and the
    // board stays consistent, the queen on e8 in every bitboard of hers.
    let mut b = load_fen("8/4N3/8/8/8/8/8/k6K w -").unwrap();
    b.do_move(Move::new(Squares::E7, Squares::E8, Move::FLAG_PROMOTE_QUEEN));
    assert!(b.is_empty(Squares::E7));
    assert_eq!(b.piece_at(Squares::E8), make_piece(PieceType::Queen, PieceColor::White));
    assert_eq!(b.get_bb_by_type(PieceType::Queen), 1 << Squares::E8);
    assert_eq!(b.get_bb_by_type(PieceType::Knight), 0);
    assert_eq!(b.get_bb_by_color(PieceColor::White), (1 << Squares::E8) | (1 << Squares::H1));
    assert_eq!(b.get_all_pieces(), (1 << Squares::E8) | (1 << Squares::H1) | (1 << Squares::A1));
}

#[test]
fn fen_checks_before_reading() {
    assert!(fen_loads(START_POS));
    assert!(!fen_loads(""));
    assert!(!fen_loads("   "));
    assert!(!fen_loads("p7p"));
    assert!(!fen_loads("99999999999999999999999999999p"));
    assert!(fen_loads("a b c d e f g"));
    assert!(fen_loads("8/8/8/8/8/8/8/8/8"));
    assert!(try_load_fen("").is_none());
    assert!(try_load_fen("p7p").is_none());
    assert!(matches!(try_load_fen("8/8/8/8/8/8/8/8 x"), Some(Err(FenError::InvalidTurn))));
    let b = try_load_fen(START_POS).unwrap().unwrap();
    assert_eq!(b, load_fen(START_POS).unwrap());
}

fn is_consistent(b: &Board) -> bool {
    let colors = [PieceColor::White, PieceColor::Black];
    let types = [
        PieceType::Pawn,
        PieceType::Knight,
        PieceType::Bishop,
        PieceType::Rook,
        PieceType::Queen,
        PieceType::King,
    ];
    let mut union: u64 = 0;
    for t in types {
        union |= b.get_bb_by_type(t);
    }
    if union != b.get_all_pieces() {
        return false;
    }
    for i in 0u8..64 {
        let bit = 1u64 << i;
        if b.is_empty(i) {
            if b.get_all_pieces() & bit != 0 {
                return false;
            }
            continue;
        }
        for c in colors {
            let expected = types.iter().any(|&t| b.piece_at(i) == make_piece(t, c));
            if (b.get_bb_by_color(c) & bit != 0) != expected {
                return false;
            }
        }
        for t in types {
            let expected = colors.iter().any(|&c| b.piece_at(i) == make_piece(t, c));
            if (b.get_bb_by_type(t) & bit != 0) != expected {
                return false;
            }
        }
    }
    true
}

#[test]
fn loaded_boards_are_consistent() {
    for fen in [START_POS, KIWIPETE, "4k3/8/8/8/8/8/8/4R2K b", "8/2p5/3p4/KP5r/1R3p1k/8/4P1P1/8 w -"] {
        let b = load_fen(fen).unwrap();
        assert!(is_consistent(&b));
    }
    // A rank that runs past the eighth file puts its piece on the next rank up.
    let over = load_fen("r7/8p/8/8/8/8/8/8").unwrap();
    assert!(!is_consistent(&over));
}

#[test]
fn undoing_every_move_gives_the_start_back() {
    let reference = load_fen(KIWIPETE).unwrap();
    let mut b = load_fen(KIWIPETE).unwrap();
    let mut played = 0;
    for _ in 0..6 {
        let moves = generate_legal_moves(&mut b);
        let m = moves.move_at((moves.len() / 2) as u8);
        b.do_move(m);
        played += 1;
    }
    assert_ne!(b, reference);
    for _ in 0..played {
        b.undo_move();
    }
    assert_eq!(b, reference);
}

#[test]
fn blocker_masks_past_the_board_are_empty() {
    assert_eq!(get_blocker_mask(64, PieceType::Rook), 0);
    assert_eq!(get_blocker_mask(71, PieceType::Bishop), 0);
    assert_eq!(get_blocker_mask(255, PieceType::Rook), 0);
    assert_eq!(calc_shift(64, PieceType::Rook), 64);
    assert_eq!(calc_shift(200, PieceType::Bishop), 64);
}

#[test]
fn calls_that_keep_their_rules_keep_the_board_consistent() {
    let mut b = Board::new();
    b.put_piece(make_piece(PieceType::King, PieceColor::White), Squares::E1);
    b.put_piece(make_piece(PieceType::Rook, PieceColor::White), Squares::H1);
    b.put_piece(make_piece(PieceType::King, PieceColor::Black), Squares::E8);
    b.put_piece(make_piece(PieceType::Pawn, PieceColor::Black), Squares::D7);
    b.put_piece(make_piece(PieceType::Knight, PieceColor::Black), Squares::B8);
    b.remove_piece(Squares::B8);
    assert!(is_consistent(&b));
    let setup = load_fen("4k3/3p4/8/8/8/8/8/4K2R w").unwrap();
    assert_eq!(b.get_all_pieces(), setup.get_all_pieces());
    b.do_move(Move::new(Squares::H1, Squares::H7, Move::FLAG_QUIET));
    assert!(is_consistent(&b));
    b.do_move(Move::new(Squares::D7, Squares::D5, Move::FLAG_DOUBLE_PAWN_PUSH));
    b.undo_move();
    b.do_move(Move::new(Squares::E8, Squares::D8, Move::FLAG_QUIET));
    assert!(is_consistent(&b));
    b.undo_move();
    b.undo_move();
    b.undo_move();
    assert!(is_consistent(&b));
    assert_eq!(b.get_all_pieces(), setup.get_all_pieces());
}
