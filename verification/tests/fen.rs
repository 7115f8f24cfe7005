use chess_engine::fen::{load_fen, START_POS};

#[test]
fn load_start_pos() {
    let b = load_fen(START_POS);

    assert!(b.is_ok());
}
