use vstd::prelude::*;

verus! {

use crate::board::{
    Board, BoardModel, CastlingRights, do_move_safe, lemma_do_undo, lemma_empty_wf, lemma_put_wf, m_do_move, m_empty,
    m_put, m_undo_move, m_wf, undo_move_safe,
};
use crate::consistency::{
    gen_fact, lemma_generated_fit, lemma_legal_keeps_sane, lemma_sane_moves_fit, room, room_for,
    sane,
};
use crate::fen::{
    FenError, START_POS, load_fen, piece_of_char, rights_upto, spec_en_passant, spec_load_fen,
    spec_placement, spec_rights, spec_turn, split_from, split_white_space,
};
use crate::bitboard::{bb_set, lemma_bb_zero};
use crate::move_generator::{
    generate_legal_moves, leaves_king_safe, spec_generate_moves, spec_legal_moves,
};
use crate::moves::{Move, MoveList, move_from, move_to, spec_promotion_type};
use crate::piece::{NO_PIECE, PieceColor, PieceType, get_color, spec_get_color};

/// What the player has picked on the board: nothing, a clicked square, or a
/// piece being dragged from a square.
#[derive(Clone, Copy, Debug, PartialEq, Eq, Structural)]
pub enum SelectionState {
    Nothing,
    Selected(u8),
    Dragging(u8),
}

impl Default for SelectionState {
    fn default() -> (r: Self)
        ensures
            r == SelectionState::Nothing,
    {
        SelectionState::Nothing
    }
}

/// Where the game stands: in play, won, drawn, or waiting for the piece a
/// pawn moving from the first square to the second promotes to.
#[derive(Clone, Copy, Debug, PartialEq, Eq, Structural)]
pub enum GameMoment {
    Playing,
    Winner(PieceColor),
    Draw,
    Promoting(u8, u8),
}

/// A game against a peer: the side played here. The channel to the peer
/// belongs to the program around the game.
#[derive(Clone, Copy, Debug, PartialEq, Eq, Structural)]
pub struct OnlineGame {
    pub color_us: PieceColor,
}

/// The start position loads into a sane board with room for play and no
/// moves to take back.
pub open spec fn start_ok() -> bool {
    spec_load_fen(START_POS@) matches Some(Ok(b)) && sane(b) && room(b) && b.undo.len() == 0
}

/// The pieces of the start position, put on an empty board in the order the
/// start position's placement field names them.
pub open spec fn start_pieces() -> BoardModel {
    let b0 = m_empty();
    let b1 = m_put(b0, piece_of_char('r').unwrap(), 56);
    let b2 = m_put(b1, piece_of_char('n').unwrap(), 57);
    let b3 = m_put(b2, piece_of_char('b').unwrap(), 58);
    let b4 = m_put(b3, piece_of_char('q').unwrap(), 59);
    let b5 = m_put(b4, piece_of_char('k').unwrap(), 60);
    let b6 = m_put(b5, piece_of_char('b').unwrap(), 61);
    let b7 = m_put(b6, piece_of_char('n').unwrap(), 62);
    let b8 = m_put(b7, piece_of_char('r').unwrap(), 63);
    let b9 = m_put(b8, piece_of_char('p').unwrap(), 48);
    let b10 = m_put(b9, piece_of_char('p').unwrap(), 49);
    let b11 = m_put(b10, piece_of_char('p').unwrap(), 50);
    let b12 = m_put(b11, piece_of_char('p').unwrap(), 51);
    let b13 = m_put(b12, piece_of_char('p').unwrap(), 52);
    let b14 = m_put(b13, piece_of_char('p').unwrap(), 53);
    let b15 = m_put(b14, piece_of_char('p').unwrap(), 54);
    let b16 = m_put(b15, piece_of_char('p').unwrap(), 55);
    let b17 = m_put(b16, piece_of_char('P').unwrap(), 8);
    let b18 = m_put(b17, piece_of_char('P').unwrap(), 9);
    let b19 = m_put(b18, piece_of_char('P').unwrap(), 10);
    let b20 = m_put(b19, piece_of_char('P').unwrap(), 11);
    let b21 = m_put(b20, piece_of_char('P').unwrap(), 12);
    let b22 = m_put(b21, piece_of_char('P').unwrap(), 13);
    let b23 = m_put(b22, piece_of_char('P').unwrap(), 14);
    let b24 = m_put(b23, piece_of_char('P').unwrap(), 15);
    let b25 = m_put(b24, piece_of_char('R').unwrap(), 0);
    let b26 = m_put(b25, piece_of_char('N').unwrap(), 1);
    let b27 = m_put(b26, piece_of_char('B').unwrap(), 2);
    let b28 = m_put(b27, piece_of_char('Q').unwrap(), 3);
    let b29 = m_put(b28, piece_of_char('K').unwrap(), 4);
    let b30 = m_put(b29, piece_of_char('B').unwrap(), 5);
    let b31 = m_put(b30, piece_of_char('N').unwrap(), 6);
    let b32 = m_put(b31, piece_of_char('R').unwrap(), 7);
    b32
}

#[verifier::spinoff_prover]
#[verifier::rlimit(40)]
proof fn lemma_start_pieces()
    ensures
        m_wf(start_pieces()),
        start_pieces().mailbox[0] != 7 && start_pieces().mailbox[4] != 7,
        start_pieces().mailbox[7] != 7 && start_pieces().mailbox[56] != 7,
        start_pieces().mailbox[60] != 7 && start_pieces().mailbox[63] != 7,
        start_pieces().half == 0 && start_pieces().full == 0 && start_pieces().undo.len() == 0,
{
    lemma_empty_wf();
    let b0 = m_empty();
    lemma_put_wf(b0, piece_of_char('r').unwrap(), 56);
    let b1 = m_put(b0, piece_of_char('r').unwrap(), 56);
    lemma_put_wf(b1, piece_of_char('n').unwrap(), 57);
    let b2 = m_put(b1, piece_of_char('n').unwrap(), 57);
    lemma_put_wf(b2, piece_of_char('b').unwrap(), 58);
    let b3 = m_put(b2, piece_of_char('b').unwrap(), 58);
    lemma_put_wf(b3, piece_of_char('q').unwrap(), 59);
    let b4 = m_put(b3, piece_of_char('q').unwrap(), 59);
    lemma_put_wf(b4, piece_of_char('k').unwrap(), 60);
    let b5 = m_put(b4, piece_of_char('k').unwrap(), 60);
    lemma_put_wf(b5, piece_of_char('b').unwrap(), 61);
    let b6 = m_put(b5, piece_of_char('b').unwrap(), 61);
    lemma_put_wf(b6, piece_of_char('n').unwrap(), 62);
    let b7 = m_put(b6, piece_of_char('n').unwrap(), 62);
    lemma_put_wf(b7, piece_of_char('r').unwrap(), 63);
    let b8 = m_put(b7, piece_of_char('r').unwrap(), 63);
    lemma_put_wf(b8, piece_of_char('p').unwrap(), 48);
    let b9 = m_put(b8, piece_of_char('p').unwrap(), 48);
    lemma_put_wf(b9, piece_of_char('p').unwrap(), 49);
    let b10 = m_put(b9, piece_of_char('p').unwrap(), 49);
    lemma_put_wf(b10, piece_of_char('p').unwrap(), 50);
    let b11 = m_put(b10, piece_of_char('p').unwrap(), 50);
    lemma_put_wf(b11, piece_of_char('p').unwrap(), 51);
    let b12 = m_put(b11, piece_of_char('p').unwrap(), 51);
    lemma_put_wf(b12, piece_of_char('p').unwrap(), 52);
    let b13 = m_put(b12, piece_of_char('p').unwrap(), 52);
    lemma_put_wf(b13, piece_of_char('p').unwrap(), 53);
    let b14 = m_put(b13, piece_of_char('p').unwrap(), 53);
    lemma_put_wf(b14, piece_of_char('p').unwrap(), 54);
    let b15 = m_put(b14, piece_of_char('p').unwrap(), 54);
    lemma_put_wf(b15, piece_of_char('p').unwrap(), 55);
    let b16 = m_put(b15, piece_of_char('p').unwrap(), 55);
    lemma_put_wf(b16, piece_of_char('P').unwrap(), 8);
    let b17 = m_put(b16, piece_of_char('P').unwrap(), 8);
    lemma_put_wf(b17, piece_of_char('P').unwrap(), 9);
    let b18 = m_put(b17, piece_of_char('P').unwrap(), 9);
    lemma_put_wf(b18, piece_of_char('P').unwrap(), 10);
    let b19 = m_put(b18, piece_of_char('P').unwrap(), 10);
    lemma_put_wf(b19, piece_of_char('P').unwrap(), 11);
    let b20 = m_put(b19, piece_of_char('P').unwrap(), 11);
    lemma_put_wf(b20, piece_of_char('P').unwrap(), 12);
    let b21 = m_put(b20, piece_of_char('P').unwrap(), 12);
    lemma_put_wf(b21, piece_of_char('P').unwrap(), 13);
    let b22 = m_put(b21, piece_of_char('P').unwrap(), 13);
    lemma_put_wf(b22, piece_of_char('P').unwrap(), 14);
    let b23 = m_put(b22, piece_of_char('P').unwrap(), 14);
    lemma_put_wf(b23, piece_of_char('P').unwrap(), 15);
    let b24 = m_put(b23, piece_of_char('P').unwrap(), 15);
    lemma_put_wf(b24, piece_of_char('R').unwrap(), 0);
    let b25 = m_put(b24, piece_of_char('R').unwrap(), 0);
    lemma_put_wf(b25, piece_of_char('N').unwrap(), 1);
    let b26 = m_put(b25, piece_of_char('N').unwrap(), 1);
    lemma_put_wf(b26, piece_of_char('B').unwrap(), 2);
    let b27 = m_put(b26, piece_of_char('B').unwrap(), 2);
    lemma_put_wf(b27, piece_of_char('Q').unwrap(), 3);
    let b28 = m_put(b27, piece_of_char('Q').unwrap(), 3);
    lemma_put_wf(b28, piece_of_char('K').unwrap(), 4);
    let b29 = m_put(b28, piece_of_char('K').unwrap(), 4);
    lemma_put_wf(b29, piece_of_char('B').unwrap(), 5);
    let b30 = m_put(b29, piece_of_char('B').unwrap(), 5);
    lemma_put_wf(b30, piece_of_char('N').unwrap(), 6);
    let b31 = m_put(b30, piece_of_char('N').unwrap(), 6);
    lemma_put_wf(b31, piece_of_char('R').unwrap(), 7);
}

#[verifier::rlimit(60)]
proof fn lemma_start_placement()
    ensures
        spec_placement(m_empty(), split_white_space(START_POS@)[0], 0, 0, 7) == Some(
            Ok::<BoardModel, FenError>(start_pieces()),
        ),
        split_white_space(START_POS@).len() == 6,
{
    reveal_strlit("rnbqkbnr/pppppppp/8/8/8/8/PPPPPPPP/RNBQKBNR w KQkq - 0 1");
    reveal_with_fuel(split_from, 60);
    reveal_with_fuel(spec_placement, 50);
}

/// The start position loads into a sane board with room for play and nothing
/// to take back.
#[verifier::rlimit(60)]
pub proof fn lemma_start_ok()
    ensures
        start_ok(),
{
    reveal_strlit("rnbqkbnr/pppppppp/8/8/8/8/PPPPPPPP/RNBQKBNR w KQkq - 0 1");
    reveal_with_fuel(split_from, 60);
    reveal_with_fuel(rights_upto, 5);
    lemma_start_placement();
    lemma_start_pieces();
    let parts = split_white_space(START_POS@);
    assert(parts[1] =~= seq!['w']);
    assert(parts[2] =~= seq!['K', 'Q', 'k', 'q']);
    assert(parts[3] =~= seq!['-']);
    let b1 = start_pieces();
    let b2 = BoardModel { turn: PieceColor::White, ..b1 };
    assert(spec_turn(b1, parts[1]) == Ok::<BoardModel, FenError>(b2));
    assert(rights_upto(parts[2], 4) is Some);
    let b3 = BoardModel { rights: CastlingRights { bits: rights_upto(parts[2], 4).unwrap() }, ..b2 };
    assert(spec_rights(b2, parts[2]) == Ok::<BoardModel, FenError>(b3));
    let b4 = BoardModel { en_passant: 0, ..b3 };
    assert(spec_en_passant(b3, parts[3]) == Ok::<BoardModel, FenError>(b4));
    assert(spec_load_fen(START_POS@) == Some(Ok::<BoardModel, FenError>(b4)));
    lemma_bb_zero();
    assert(bb_set(0u64) =~= Set::<int>::empty());
    assert(sane(b4));
}

/// The board the start position loads into.
pub open spec fn start_board() -> BoardModel {
    spec_load_fen(START_POS@).unwrap()->Ok_0
}

/// The move goes from `from` to `to`.
pub open spec fn joins(from: u8, to: u8) -> spec_fn(Move) -> bool {
    |m: Move| move_to(m) == to && move_from(m) == from
}

/// The moves of `legal` from `from` to `to`, in their order.
pub open spec fn choices(legal: Seq<Move>, from: u8, to: u8) -> Seq<Move> {
    legal.filter(joins(from, to))
}

/// The first move of `c` that promotes to `p`.
pub open spec fn first_promoting(c: Seq<Move>, p: PieceType) -> Option<Move>
    decreases c.len(),
{
    if c.len() == 0 {
        None
    } else if spec_promotion_type(c[0]) == Some(p) {
        Some(c[0])
    } else {
        first_promoting(c.drop_first(), p)
    }
}

/// `first_promoting(c, p)` is the first move of `c` that promotes to `p`:
/// it is some move exactly when one of `c` promotes to `p`, and then it is
/// a move of `c` promoting to `p` with none before it doing so.
pub proof fn lemma_first_promoting(c: Seq<Move>, p: PieceType)
    ensures
        (first_promoting(c, p) is Some) == (exists|i: int|
            0 <= i < c.len() && spec_promotion_type(#[trigger] c[i]) == Some(p)),
        first_promoting(c, p) matches Some(x) ==> exists|i: int|
            0 <= i < c.len() && #[trigger] c[i] == x && spec_promotion_type(x) == Some(p) && forall|
                j: int,
            |
                0 <= j < i ==> spec_promotion_type(#[trigger] c[j]) != Some(p),
    decreases c.len(),
{
    if c.len() > 0 {
        let t = c.drop_first();
        lemma_first_promoting(t, p);
        if spec_promotion_type(c[0]) == Some(p) {
            assert(c[0] == c[0]);
        } else {
            if first_promoting(t, p) is Some {
                let x = first_promoting(t, p).unwrap();
                let i = choose|i: int|
                    0 <= i < t.len() && #[trigger] t[i] == x && spec_promotion_type(x) == Some(p)
                        && forall|j: int| 0 <= j < i ==> spec_promotion_type(#[trigger] t[j]) != Some(p);
                assert(c[i + 1] == x);
                assert forall|j: int| 0 <= j < i + 1 implies spec_promotion_type(#[trigger] c[j])
                    != Some(p) by {
                    if j > 0 {
                        assert(c[j] == t[j - 1]);
                    }
                }
            } else {
                assert forall|i: int| 0 <= i < c.len() implies spec_promotion_type(#[trigger] c[i])
                    != Some(p) by {
                    if i > 0 {
                        assert(c[i] == t[i - 1]);
                    }
                }
            }
        }
    }
}

/// The move `try_move` plays from the legal moves `legal`: the only one
/// joining the two squares, or, among several, the first promoting to the
/// piece chosen.
pub open spec fn move_played(legal: Seq<Move>, from: u8, to: u8, promotion: Option<PieceType>) -> Option<Move> {
    let c = choices(legal, from, to);
    if c.len() == 0 {
        None
    } else if c.len() == 1 {
        Some(c[0])
    } else {
        match promotion {
            Some(p) => first_promoting(c, p),
            None => None,
        }
    }
}

/// What `try_move` answers: the move played; the empty move when the
/// squares join several moves and no piece was chosen; an error when no
/// legal move joins them or none of them promotes to the piece chosen.
pub open spec fn move_answer(legal: Seq<Move>, from: u8, to: u8, promotion: Option<PieceType>) -> Result<Move, &'static str> {
    let c = choices(legal, from, to);
    if c.len() > 1 && promotion is None {
        Ok(Move(0))
    } else {
        match move_played(legal, from, to, promotion) {
            Some(m) => Ok(m),
            None => Err("Found no matching legal move"),
        }
    }
}

/// Where the game stands after `try_move`: waiting for a promotion piece when
/// the squares join several moves and none was chosen, in play after a chosen
/// promotion, else as before.
pub open spec fn stage_after(stage: GameMoment, legal: Seq<Move>, from: u8, to: u8, promotion: Option<PieceType>) -> GameMoment {
    let c = choices(legal, from, to);
    if c.len() > 1 {
        match promotion {
            None => GameMoment::Promoting(from, to),
            Some(p) => if first_promoting(c, p) is Some {
                GameMoment::Playing
            } else {
                stage
            },
        }
    } else {
        stage
    }
}

/// The board after `m` is played on `b`.
#[verifier::opaque]
pub open spec fn after_move(b: BoardModel, m: Move) -> BoardModel {
    m_do_move(b, m)
}

/// The board after its last move is taken back.
#[verifier::opaque]
pub open spec fn taken_back(b: BoardModel) -> BoardModel {
    m_undo_move(b)
}

/// In a game against a peer, the piece on `from` is not of the side played here.
pub open spec fn refused(peer: Option<OnlineGame>, b: BoardModel, from: u8) -> bool {
    peer matches Some(o) && o.color_us != spec_get_color(b.mailbox[from as int])
}

/// Taking back a legal move played on a sane board with room for it gives the board back.
pub proof fn lemma_take_back(b: BoardModel, mv: Move)
    requires
        sane(b),
        room(b),
        spec_legal_moves(b).contains(mv),
    ensures
        taken_back(after_move(b, mv)) == b,
{
    let g = spec_generate_moves(true, true, b, b.turn);
    g.lemma_filter_contains_rev(leaves_king_safe(b, b.turn), mv);
    let j = choose|j: int| 0 <= j < g.len() && g[j] == mv;
    lemma_generated_fit(b);
    assert(gen_fact(b, g[j]));
    lemma_do_undo(b, mv);
    reveal(taken_back);
    reveal(after_move);
}

/// The board after `move_played`, if it played one.
pub open spec fn board_after(b: BoardModel, played: Option<Move>) -> BoardModel {
    match played {
        Some(m) => after_move(b, m),
        None => b,
    }
}

proof fn lemma_first_promoting_in(c: Seq<Move>, p: PieceType)
    ensures
        first_promoting(c, p) matches Some(m) ==> c.contains(m) && spec_promotion_type(m) == Some(p),
    decreases c.len(),
{
    if c.len() > 0 && spec_promotion_type(c[0]) != Some(p) {
        lemma_first_promoting_in(c.drop_first(), p);
        if first_promoting(c, p) is Some {
            let m = first_promoting(c, p).unwrap();
            let i = choose|i: int| 0 <= i < c.drop_first().len() && c.drop_first()[i] == m;
            assert(c[i + 1] == m);
        }
    }
}

/// The first move of `c` that promotes to `p`.
fn find_promotion(c: &Vec<Move>, p: PieceType) -> (r: Option<Move>)
    ensures
        r == first_promoting(c@, p),
{
    let k = c.len();
    let mut j: usize = 0;
    assert(c@.subrange(0, k as int) =~= c@);
    while j < k
        invariant
            k == c@.len(),
            j <= k,
            first_promoting(c@, p) == first_promoting(c@.subrange(j as int, k as int), p),
        decreases k - j,
    {
        let m = c[j];
        assert(c@.subrange(j as int, k as int)[0] == m);
        assert(c@.subrange(j as int, k as int).drop_first() =~= c@.subrange(j + 1, k as int));
        if m.promotion_type() == Some(p) {
            return Some(m);
        }
        j += 1;
    }
    assert(c@.subrange(k as int, k as int).len() == 0);
    None
}

/// Taking back the last move of `a` can run and gives `b`.
#[verifier::opaque]
pub open spec fn steps_back(a: BoardModel, b: BoardModel) -> bool {
    undo_move_safe(a) && m_undo_move(a) == b
}

/// The board is sane.
#[verifier::opaque]
pub open spec fn sane_board(b: BoardModel) -> bool {
    sane(b)
}

/// The boards of a game, first to last: all sane, the first with nothing to
/// take back and room for a move, and each later one giving back the one
/// before it when its last move is taken back, that one having had room for
/// the move.
#[verifier::opaque]
pub open spec fn history_ok(h: Seq<BoardModel>) -> bool {
    &&& h.len() >= 1
    &&& h[0].undo.len() == 0
    &&& room(h[0])
    &&& forall|i: int| 0 <= i < h.len() ==> #[trigger] sane_board(h[i])
    &&& forall|i: int| 0 < i < h.len() ==> #[trigger] steps_back(h[i], h[i - 1]) && room(h[i - 1])
}

#[verifier::spinoff_prover]
proof fn lemma_history_last(h: Seq<BoardModel>)
    requires
        history_ok(h),
    ensures
        h.len() >= 1,
        sane(h.last()),
        undo_move_safe(h.last()),
        h.len() == 1 ==> m_undo_move(h.last()) == h.last() && room(h.last()),
        h.len() > 1 ==> m_undo_move(h.last()) == h[h.len() - 2] && room(h[h.len() - 2])
            && history_ok(h.drop_last()),
{
    reveal(history_ok);
    let n = h.len();
    assert(sane(h[n - 1])) by {
        assert(sane_board(h[n - 1]));
        reveal(sane_board);
    }
    if n > 1 {
        let i = n - 1;
        assert(steps_back(h[i], h[i - 1]));
        assert(undo_move_safe(h[i]) && m_undo_move(h[i]) == h[i - 1]) by {
            reveal(steps_back);
        }
        let d = h.drop_last();
        assert(d[0] == h[0]);
        assert(d.last() == h[n - 2]);
        assert forall|i: int| 0 <= i < d.len() implies #[trigger] sane_board(d[i]) by {
            assert(d[i] == h[i]);
            assert(sane_board(h[i]));
        }
        assert forall|i: int| 0 < i < d.len() implies #[trigger] steps_back(d[i], d[i - 1]) && room(
            d[i - 1],
        ) by {
            assert(d[i] == h[i]);
            assert(d[i - 1] == h[i - 1]);
            assert(steps_back(h[i], h[i - 1]));
        }
    }
}

proof fn lemma_history_push(h: Seq<BoardModel>, mv: Move)
    requires
        history_ok(h),
        room(h.last()),
        spec_legal_moves(h.last()).contains(mv),
    ensures
        history_ok(h.push(after_move(h.last(), mv))),
        sane(after_move(h.last(), mv)),
        do_move_safe(h.last(), mv),
        after_move(h.last(), mv) == m_do_move(h.last(), mv),
{
    reveal(after_move);
    let b = h.last();
    lemma_history_last(h);
    let g = spec_generate_moves(true, true, b, b.turn);
    g.lemma_filter_contains_rev(leaves_king_safe(b, b.turn), mv);
    let j = choose|j: int| 0 <= j < g.len() && g[j] == mv;
    lemma_generated_fit(b);
    assert(gen_fact(b, g[j]));
    lemma_do_undo(b, mv);
    lemma_legal_keeps_sane(b, mv);
    let a = m_do_move(b, mv);
    assert(steps_back(a, b)) by {
        reveal(steps_back);
    }
    assert(sane_board(a)) by {
        reveal(sane_board);
    }
    reveal(history_ok);
    let h2 = h.push(a);
    assert forall|i: int| 0 <= i < h2.len() implies #[trigger] sane_board(h2[i]) by {
        if i < h.len() {
            assert(h2[i] == h[i]);
        }
    }
    assert forall|i: int| 0 < i < h2.len() implies #[trigger] steps_back(h2[i], h2[i - 1]) && room(
        h2[i - 1],
    ) by {
        if i < h.len() {
            assert(h2[i] == h[i]);
            assert(h2[i - 1] == h[i - 1]);
        } else {
            assert(h2[i - 1] == b);
        }
    }
}

/// A game in progress: the board, its legal moves, what the player has
/// picked and where the game stands.
pub struct Game {
    board: Board,
    legal_moves: MoveList,
    selected_piece: SelectionState,
    moment: GameMoment,
    online: Option<OnlineGame>,
    pub perspective: PieceColor,
    history: Ghost<Seq<BoardModel>>,
}

impl Game {
    /// The boards of the game so far keep its history, the last one is the
    /// board, and a picked square is on the board.
    pub closed spec fn board_inv(&self) -> bool {
        &&& history_ok(self.history@)
        &&& self.history@.last() == self.board@
        &&& self.selected_piece matches SelectionState::Selected(s) ==> s < 64
        &&& self.selected_piece matches SelectionState::Dragging(s) ==> s < 64
    }

    /// The game is in play: `board_inv`, and the legal moves it holds are
    /// those of its board.
    pub closed spec fn inv(&self) -> bool {
        &&& self.board_inv()
        &&& self.legal_moves@ == spec_legal_moves(self.board@)
    }

    /// The board of the game.
    pub closed spec fn board_model(&self) -> BoardModel {
        self.board@
    }

    /// The legal moves the game holds for its board.
    pub closed spec fn legal(&self) -> Seq<Move> {
        self.legal_moves@
    }

    /// What the player has picked.
    pub closed spec fn selection(&self) -> SelectionState {
        self.selected_piece
    }

    /// Where the game stands.
    pub closed spec fn stage(&self) -> GameMoment {
        self.moment
    }

    /// The peer game, if there is one.
    pub closed spec fn peer(&self) -> Option<OnlineGame> {
        self.online
    }

    /// The side the board is shown from.
    pub closed spec fn shown_from(&self) -> PieceColor {
        self.perspective
    }

    /// The game's legal moves are those of its board.
    pub proof fn lemma_legal(&self)
        requires
            self.inv(),
        ensures
            self.legal() == spec_legal_moves(self.board_model()),
    {
    }

    /// The counters and the undo stack of the board have room for a move and
    /// for the moves that answer it: after a move the legal moves are
    /// generated again, and that plays each reply.
    pub closed spec fn has_room(&self) -> bool {
        room_for(self.board@, 2)
    }

    /// A game from the start position, against a peer when `online` is given.
    pub fn new(online: Option<OnlineGame>) -> (r: Self)
        ensures
            r.inv(),
            r.board_model() == start_board(),
            r.legal() == spec_legal_moves(start_board()),
            r.selection() == SelectionState::Nothing,
            r.stage() == GameMoment::Playing,
            r.shown_from() == PieceColor::White,
            r.peer() == online,
    {
        proof {
            lemma_start_ok();
        }
        let mut board = match load_fen(START_POS) {
            Ok(b) => b,
            Err(_) => {
                proof {
                    assert(false);
                }
                Board::new()
            },
        };
        proof {
            lemma_sane_moves_fit(board@);
        }
        let legal_moves = generate_legal_moves(&mut board);
        let ghost history = seq![board@];
        proof {
            reveal(history_ok);
            reveal(sane_board);
            assert(history[0] == board@);
        }
        Game {
            board,
            legal_moves,
            selected_piece: SelectionState::Nothing,
            perspective: PieceColor::White,
            moment: GameMoment::Playing,
            online,
            history: Ghost(history),
        }
    }

    pub fn board(&self) -> (r: &Board)
        ensures
            r@ == self.board_model(),
    {
        &self.board
    }

    pub fn online(&self) -> (r: Option<OnlineGame>)
        ensures
            r == self.peer(),
    {
        self.online
    }

    pub fn legal_moves(&self) -> (r: &MoveList)
        ensures
            r@ == self.legal(),
    {
        &self.legal_moves
    }

    pub fn selected_piece(&self) -> (r: SelectionState)
        ensures
            r == self.selection(),
    {
        self.selected_piece
    }

    pub fn moment(&self) -> (r: GameMoment)
        ensures
            r == self.stage(),
    {
        self.moment
    }

    /// Plays a legal move of the board and takes up the legal moves of the board after it.
    fn play(&mut self, mv: Move)
        requires
            old(self).inv(),
            old(self).has_room(),
            old(self).legal_moves@.contains(mv),
        ensures
            final(self).inv(),
            final(self).board@ == after_move(old(self).board@, mv),
            final(self).selected_piece == old(self).selected_piece,
            final(self).moment == old(self).moment,
            final(self).online == old(self).online,
            final(self).perspective == old(self).perspective,
    {
        let ghost h = self.history@;
        proof {
            lemma_history_push(h, mv);
        }
        self.board.do_move(mv);
        proof {
            lemma_sane_moves_fit(self.board@);
        }
        self.legal_moves = generate_legal_moves(&mut self.board);
        self.history = Ghost(h.push(self.board@));
    }

    /// Plays the legal move from `from` to `to`. When the two squares join
    /// several moves, which are promotions, the move promoting to
    /// `promotion_choice` is played; with no piece chosen the game waits for
    /// one and the empty move is answered.
    pub fn try_move(&mut self, from: u8, to: u8, promotion_choice: Option<PieceType>) -> (r: Result<Move, &'static str>)
        requires
            old(self).inv(),
            move_played(old(self).legal(), from, to, promotion_choice) is Some ==> old(self).has_room(),
        ensures
            final(self).inv(),
            r == move_answer(old(self).legal(), from, to, promotion_choice),
            final(self).board_model() == board_after(
                old(self).board_model(),
                move_played(old(self).legal(), from, to, promotion_choice),
            ),
            final(self).stage() == stage_after(
                old(self).stage(),
                old(self).legal(),
                from,
                to,
                promotion_choice,
            ),
            final(self).selection() == if choices(old(self).legal(), from, to).len() > 1
                && promotion_choice is None {
                SelectionState::Nothing
            } else {
                old(self).selection()
            },
            final(self).peer() == old(self).peer(),
            final(self).shown_from() == old(self).shown_from(),
    {
        let ghost legal = self.legal_moves@;
        let ghost pred = joins(from, to);
        let mut move_choices: Vec<Move> = Vec::new();
        let n = self.legal_moves.len();
        let mut i: usize = 0;
        assert(legal.take(0) =~= Seq::<Move>::empty());
        while i < n
            invariant
                n == legal.len(),
                i <= n,
                self.legal_moves@ == legal,
                pred == joins(from, to),
                move_choices@ == legal.take(i as int).filter(pred),
            decreases n - i,
        {
            let m = self.legal_moves.as_slice()[i];
            if m.to_square() == to && m.from_square() == from {
                move_choices.push(m);
            }
            proof {
                assert(legal.take(i + 1) =~= legal.take(i as int).push(m));
                legal.take(i as int).lemma_filter_push(m, pred);
            }
            i += 1;
        }
        assert(legal.take(n as int) =~= legal);
        let ghost c = move_choices@;
        assert(c == choices(legal, from, to));
        if move_choices.len() == 0 {
            return Err("Found no matching legal move");
        }
        if move_choices.len() == 1 {
            let mv = move_choices[0];
            proof {
                legal.lemma_filter_contains_rev(pred, mv);
            }
            self.play(mv);
            return Ok(mv);
        }
        match promotion_choice {
            Some(promotion_piece) => {
                match find_promotion(&move_choices, promotion_piece) {
                    Some(m) => {
                        proof {
                            lemma_first_promoting_in(c, promotion_piece);
                            legal.lemma_filter_contains_rev(pred, m);
                        }
                        self.play(m);
                        self.moment = GameMoment::Playing;
                        Ok(m)
                    },
                    None => Err("Found no matching legal move"),
                }
            },
            None => {
                self.moment = GameMoment::Promoting(from, to);
                self.selected_piece = SelectionState::Nothing;
                Ok(Move::null())
            },
        }
    }

    /// Takes back the last move played; with no move played the board stays
    /// as it is. The legal moves held are left as they were, those of the
    /// board before the call, so a game whose move was taken back is no
    /// longer in play (`inv`) where the board changed.
    pub fn undo(&mut self)
        requires
            old(self).board_inv(),
        ensures
            final(self).board_inv(),
            final(self).board_model() == taken_back(old(self).board_model()),
            final(self).legal() == old(self).legal(),
            final(self).selection() == old(self).selection(),
            final(self).stage() == old(self).stage(),
            final(self).peer() == old(self).peer(),
            final(self).shown_from() == old(self).shown_from(),
    {
        let ghost h = self.history@;
        proof {
            lemma_history_last(h);
            if h.len() > 1 {
                lemma_history_last(h.drop_last());
                assert(h.drop_last().last() == h[h.len() - 2]);
            }
            reveal(taken_back);
        }
        self.board.undo_move();
        let ghost h2 = if h.len() > 1 {
            h.drop_last()
        } else {
            h
        };
        self.history = Ghost(h2);
    }

    /// Starts dragging the piece on `index`, if there is one.
    pub fn handle_drag_start(&mut self, index: u8)
        requires
            old(self).board_inv(),
            index < 64,
        ensures
            final(self).board_inv(),
            old(self).inv() ==> final(self).inv(),
            final(self).legal() == old(self).legal(),
            final(self).board_model() == old(self).board_model(),
            final(self).selection() == if old(self).board_model().mailbox[index as int] != 7 {
                SelectionState::Dragging(index)
            } else {
                old(self).selection()
            },
            final(self).stage() == old(self).stage(),
            final(self).peer() == old(self).peer(),
            final(self).shown_from() == old(self).shown_from(),
    {
        if self.board.piece_at(index) != NO_PIECE {
            self.selected_piece = SelectionState::Dragging(index);
        }
    }

    /// Drops a dragged piece on `index`: tries the move from the square it was
    /// dragged from, unless the piece there is not of the side played here
    /// against a peer, and answers what the try gave. The selection is cleared.
    pub fn handle_drag_end(&mut self, index: u8) -> (r: Option<Result<Move, &'static str>>)
        requires
            old(self).inv(),
            old(self).selection() matches SelectionState::Dragging(from) ==> (move_played(
                old(self).legal(),
                from,
                index,
                None,
            ) is Some ==> old(self).has_room()),
        ensures
            final(self).inv(),
            final(self).selection() == SelectionState::Nothing,
            final(self).peer() == old(self).peer(),
            final(self).shown_from() == old(self).shown_from(),
            match old(self).selection() {
                SelectionState::Dragging(from) => if refused(
                    old(self).peer(),
                    old(self).board_model(),
                    from,
                ) {
                    r is None && final(self).board_model() == old(self).board_model()
                        && final(self).stage() == old(self).stage()
                } else {
                    &&& r == Some(move_answer(old(self).legal(), from, index, None))
                    &&& final(self).board_model() == board_after(
                        old(self).board_model(),
                        move_played(old(self).legal(), from, index, None),
                    )
                    &&& final(self).stage() == stage_after(
                        old(self).stage(),
                        old(self).legal(),
                        from,
                        index,
                        None,
                    )
                },
                _ => r is None && final(self).board_model() == old(self).board_model()
                    && final(self).stage() == old(self).stage(),
            },
    {
        if let SelectionState::Dragging(from) = self.selected_piece {
            if let Some(o) = self.online {
                if o.color_us != get_color(self.board.piece_at(from)) {
                    self.selected_piece = SelectionState::Nothing;
                    return None;
                }
            }
            let result = self.try_move(from, index, None);
            self.selected_piece = SelectionState::Nothing;
            return Some(result);
        }
        self.selected_piece = SelectionState::Nothing;
        None
    }

    /// Handles a click on `index`: with nothing picked the square is picked;
    /// with a square picked, the move from it to `index` is tried, unless the
    /// piece there is not of the side played here against a peer, and the
    /// selection is cleared; while dragging nothing happens.
    pub fn handle_select(&mut self, index: u8) -> (r: Option<Result<Move, &'static str>>)
        requires
            old(self).inv(),
            old(self).selection() matches SelectionState::Selected(from) ==> (move_played(
                old(self).legal(),
                from,
                index,
                None,
            ) is Some ==> old(self).has_room()),
            index < 64,
        ensures
            final(self).inv(),
            final(self).peer() == old(self).peer(),
            final(self).shown_from() == old(self).shown_from(),
            match old(self).selection() {
                SelectionState::Nothing => r is None && final(self).selection()
                    == SelectionState::Selected(index) && final(self).board_model() == old(
                    self,
                ).board_model() && final(self).stage() == old(self).stage(),
                SelectionState::Selected(from) => {
                    &&& final(self).selection() == SelectionState::Nothing
                    &&& if refused(old(self).peer(), old(self).board_model(), from) {
                        r is None && final(self).board_model() == old(self).board_model()
                            && final(self).stage() == old(self).stage()
                    } else {
                        &&& r == Some(move_answer(old(self).legal(), from, index, None))
                        &&& final(self).board_model() == board_after(
                            old(self).board_model(),
                            move_played(old(self).legal(), from, index, None),
                        )
                        &&& final(self).stage() == stage_after(
                            old(self).stage(),
                            old(self).legal(),
                            from,
                            index,
                            None,
                        )
                    }
                },
                SelectionState::Dragging(_) => r is None && final(self).selection() == old(
                    self,
                ).selection() && final(self).board_model() == old(self).board_model()
                    && final(self).stage() == old(self).stage(),
            },
    {
        match self.selected_piece {
            SelectionState::Nothing => {
                self.selected_piece = SelectionState::Selected(index);
                None
            },
            SelectionState::Selected(from) => {
                if let Some(o) = self.online {
                    if o.color_us != get_color(self.board.piece_at(from)) {
                        self.selected_piece = SelectionState::Nothing;
                        return None;
                    }
                }
                let result = self.try_move(from, index, None);
                self.selected_piece = SelectionState::Nothing;
                Some(result)
            },
            SelectionState::Dragging(_) => None,
        }
    }

    /// Whether the counters and the undo stack have room for a move and its answers.
    pub fn can_move(&self) -> (r: bool)
        ensures
            r == self.has_room(),
    {
        self.board.half_move_counter() < 254 && self.board.full_move_counter() < 65534
            && self.board.undo_len() < 255
    }
}

} // verus!
