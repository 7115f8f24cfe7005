use chess_engine::fen::{load_fen, START_POS};
use chess_engine::move_generator::{get_blocker_mask, perft};
use chess_engine::piece::PieceType;

#[test]
fn blocker_mask_test() {
    let bb = get_blocker_mask(0, PieceType::Rook);
    let mut count = 0;

    for i in 0..64 {
        if ((bb >> i) & 1) == 1 {
            count += 1;
        }
    }

    println!("{}", bb);
    assert_eq!(bb, 0x000101010101017E);
    assert_eq!(1 << count, 4096);
    assert_eq!(count, 12);
}

#[test]
fn perft_startpos() {
    let mut b = load_fen(START_POS).unwrap();

    assert_eq!(perft(1, &mut b), 20);
    assert_eq!(perft(2, &mut b), 400);
    assert_eq!(perft(3, &mut b), 8902);
    assert_eq!(perft(4, &mut b), 197281);
    assert_eq!(perft(5, &mut b), 4865609);
    assert_eq!(perft(6, &mut b), 119060324);
}

#[test]
fn speed() {
    let mut b = load_fen(START_POS).unwrap();
    assert_eq!(perft(7, &mut b), 3195901860);
}

#[test]
fn perft_kiwipete() {
    let mut k =
        load_fen(" r3k2r/p1ppqpb1/bn2pnp1/3PN3/1p2P3/2N2Q1p/PPPBBPPP/R3K2R w KQkq - ").unwrap();

    assert_eq!(perft(1, &mut k), 48);
    assert_eq!(perft(2, &mut k), 2039);
    assert_eq!(perft(3, &mut k), 97862);
    assert_eq!(perft(4, &mut k), 4085603);
    assert_eq!(perft(5, &mut k), 193690690);
}
