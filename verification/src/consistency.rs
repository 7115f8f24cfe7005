use vstd::prelude::*;

verus! {

use crate::bitboard::{
    bb_set, bits_of, lemma_bb_and, lemma_bb_not, lemma_bb_or, lemma_bb_shl, lemma_bb_shr,
    lemma_bb_single, lemma_bb_zero, lemma_bits_of, A_FILE, H_FILE, RANK_2, RANK_3, RANK_6, RANK_7,
};
use crate::board::{
    BoardModel, color_squares, lemma_do_wf, lemma_placed, m_do_move, m_wf, move_sound, placed_piece,
    side_mailbox, spec_rights_mask, square_ok, type_squares,
};
use crate::move_generator::{
    BLACK_KING_EMPTY, BLACK_QUEEN_EMPTY, WHITE_KING_EMPTY, WHITE_QUEEN_EMPTY, emit_list, child,
    kind_attacks, kind_moves, leaves_king_safe, moves_fit, perft_ok, perft_ok_all, perft_sum,
    piece_list, promotion_list, spec_castles, spec_generate_moves, spec_legal_moves, spec_perft,
    spec_piece_moves,
};
use crate::moves::{
    Move, lemma_spec_move, move_flags, move_from, move_to, spec_is_castle, spec_is_double_pawn,
    spec_is_en_passant, spec_move,
};
use crate::piece::{PieceColor, PieceType, color_code, spec_flip, spec_get_color, spec_make};

/// Every en passant square is empty and has behind it, one rank nearer the
/// side that just moved, a pawn of that side; it stands on the sixth rank
/// when White is to move and on the third when Black is.
pub open spec fn ep_ok(b: BoardModel) -> bool {
    forall|s: int|
        #[trigger] bb_set(b.en_passant).contains(s) ==> {
            &&& b.mailbox[s] == 7
            &&& if b.turn == PieceColor::White {
                40 <= s < 48 && b.mailbox[s - 8] == spec_make(PieceType::Pawn, PieceColor::Black)
            } else {
                16 <= s < 24 && b.mailbox[s + 8] == spec_make(PieceType::Pawn, PieceColor::White)
            }
        }
}

/// Each castling right held has a piece on its king's square and on its rook's square.
pub open spec fn castle_ok(b: BoardModel) -> bool {
    &&& b.rights.bits & 0b1000 != 0 ==> b.mailbox[4] != 7 && b.mailbox[7] != 7
    &&& b.rights.bits & 0b0100 != 0 ==> b.mailbox[4] != 7 && b.mailbox[0] != 7
    &&& b.rights.bits & 0b0010 != 0 ==> b.mailbox[60] != 7 && b.mailbox[63] != 7
    &&& b.rights.bits & 0b0001 != 0 ==> b.mailbox[60] != 7 && b.mailbox[56] != 7
}

/// A board that play keeps playable: consistent, with en passant squares
/// and castling rights that fit its pieces.
pub open spec fn sane(b: BoardModel) -> bool {
    &&& m_wf(b)
    &&& ep_ok(b)
    &&& castle_ok(b)
}

/// The move counters and the undo stack have room for one more move.
pub open spec fn room(b: BoardModel) -> bool {
    &&& b.half < 255
    &&& b.full < 65535
    &&& b.undo.len() < 256
}

/// A double pawn push from `f` to `t` of the side to move, over an empty square.
pub open spec fn double_ok(b: BoardModel, f: int, t: int) -> bool {
    if b.turn == PieceColor::White {
        &&& 24 <= t < 32
        &&& f == t - 16
        &&& b.mailbox[t - 8] == 7
        &&& b.mailbox[f] == spec_make(PieceType::Pawn, PieceColor::White)
    } else {
        &&& 32 <= t < 40
        &&& f == t + 16
        &&& b.mailbox[t + 8] == 7
        &&& b.mailbox[f] == spec_make(PieceType::Pawn, PieceColor::Black)
    }
}

/// What the move generator promises of each move it lists: the move fits
/// the board; but for a castle it moves a piece of the side to move, and a
/// capture other than en passant takes a piece of the other side; a castle
/// starts on the king's home square, an en passant capture lands on the en
/// passant square with a pawn of the side to move, and a double push is a
/// pawn's first move over an empty square.
pub open spec fn gen_fact(b: BoardModel, m: Move) -> bool {
    let f = move_from(m);
    let t = move_to(m);
    &&& move_sound(b, m)
    &&& !spec_is_castle(m) ==> spec_get_color(b.mailbox[f]) == b.turn
    &&& crate::board::takes_on_target(m) ==> spec_get_color(b.mailbox[t]) == spec_flip(b.turn)
    &&& spec_is_castle(m) ==> f == if b.turn == PieceColor::White {
        4int
    } else {
        60int
    }
    &&& spec_is_en_passant(m) ==> bb_set(b.en_passant).contains(t) && spec_get_color(b.mailbox[f])
        == b.turn
    &&& move_flags(m) == 1 ==> double_ok(b, f, t)
}

/// Every move of `s` keeps the promise of the generator.
pub open spec fn all_fit(b: BoardModel, s: Seq<Move>) -> bool {
    forall|i: int| 0 <= i < s.len() ==> #[trigger] gen_fact(b, s[i])
}

proof fn lemma_all_fit_concat(b: BoardModel, s1: Seq<Move>, s2: Seq<Move>)
    requires
        all_fit(b, s1),
        all_fit(b, s2),
    ensures
        all_fit(b, s1 + s2),
{
    assert forall|i: int| 0 <= i < (s1 + s2).len() implies #[trigger] gen_fact(b, (s1 + s2)[i]) by {
        if i < s1.len() {
            assert((s1 + s2)[i] == s1[i]);
        } else {
            assert((s1 + s2)[i] == s2[i - s1.len()]);
        }
    }
}

proof fn lemma_emit_fit(b: BoardModel, tos: Seq<u8>, offset: int, flag: u16)
    requires
        forall|j: int|
            0 <= j < tos.len() ==> #[trigger] gen_fact(b, spec_move((tos[j] + offset) as u8, tos[j], flag)),
    ensures
        all_fit(b, emit_list(tos, offset, flag)),
    decreases tos.len(),
{
    if tos.len() > 0 {
        let rest = tos.drop_first();
        assert forall|j: int| 0 <= j < rest.len() implies #[trigger] gen_fact(
            b,
            spec_move((rest[j] + offset) as u8, rest[j], flag),
        ) by {
            assert(rest[j] == tos[j + 1]);
        }
        lemma_emit_fit(b, rest, offset, flag);
        let head = seq![spec_move((tos[0] + offset) as u8, tos[0], flag)];
        assert(gen_fact(b, spec_move((tos[0] + offset) as u8, tos[0], flag)));
        assert(all_fit(b, head));
        lemma_all_fit_concat(b, head, emit_list(rest, offset, flag));
    }
}

proof fn lemma_promotion_fit(b: BoardModel, tos: Seq<u8>, offset: int, base_flag: u16)
    requires
        base_flag <= 12,
        forall|j: int, k: int|
            0 <= j < tos.len() && 0 <= k < 4 ==> #[trigger] gen_fact(
                b,
                spec_move((tos[j] + offset) as u8, tos[j], (base_flag + k) as u16),
            ),
    ensures
        all_fit(b, promotion_list(tos, offset, base_flag)),
    decreases tos.len(),
{
    if tos.len() > 0 {
        let rest = tos.drop_first();
        assert forall|j: int, k: int| 0 <= j < rest.len() && 0 <= k < 4 implies #[trigger] gen_fact(
            b,
            spec_move((rest[j] + offset) as u8, rest[j], (base_flag + k) as u16),
        ) by {
            assert(rest[j] == tos[j + 1]);
        }
        lemma_promotion_fit(b, rest, offset, base_flag);
        let from = (tos[0] + offset) as u8;
        let head = seq![
            spec_move(from, tos[0], (base_flag + 3) as u16),
            spec_move(from, tos[0], (base_flag + 2) as u16),
            spec_move(from, tos[0], (base_flag + 1) as u16),
            spec_move(from, tos[0], base_flag),
        ];
        assert(gen_fact(b, spec_move(from, tos[0], (base_flag + 3) as u16)));
        assert(gen_fact(b, spec_move(from, tos[0], (base_flag + 2) as u16)));
        assert(gen_fact(b, spec_move(from, tos[0], (base_flag + 1) as u16)));
        assert(gen_fact(b, spec_move(from, tos[0], (base_flag + 0) as u16)));
        assert(all_fit(b, head));
        lemma_all_fit_concat(b, head, promotion_list(rest, offset, base_flag));
    }
}

proof fn lemma_piece_list_fit(b: BoardModel, from: u8, tos: Seq<u8>, flag: u16)
    requires
        forall|j: int| 0 <= j < tos.len() ==> #[trigger] gen_fact(b, spec_move(from, tos[j], flag)),
    ensures
        all_fit(b, piece_list(from, tos, flag)),
    decreases tos.len(),
{
    if tos.len() > 0 {
        let rest = tos.drop_first();
        assert forall|j: int| 0 <= j < rest.len() implies #[trigger] gen_fact(
            b,
            spec_move(from, rest[j], flag),
        ) by {
            assert(rest[j] == tos[j + 1]);
        }
        lemma_piece_list_fit(b, from, rest, flag);
        let head = seq![spec_move(from, tos[0], flag)];
        assert(gen_fact(b, spec_move(from, tos[0], flag)));
        assert(all_fit(b, head));
        lemma_all_fit_concat(b, head, piece_list(from, rest, flag));
    }
}

/// Moves onto the squares of a bitboard, from `offset` squares away, keep the promise.
proof fn lemma_emit_bits(b: BoardModel, x: u64, offset: int, flag: u16)
    requires
        forall|s: int|
            #[trigger] bb_set(x).contains(s) ==> gen_fact(b, spec_move((s + offset) as u8, s as u8, flag)),
    ensures
        all_fit(b, emit_list(bits_of(x), offset, flag)),
{
    lemma_bits_of(x);
    let tos = bits_of(x);
    assert forall|j: int| 0 <= j < tos.len() implies #[trigger] gen_fact(
        b,
        spec_move((tos[j] + offset) as u8, tos[j], flag),
    ) by {
        assert(bb_set(x).contains(tos[j] as int));
    }
    lemma_emit_fit(b, tos, offset, flag);
}

/// The four promotions onto each square of a bitboard keep the promise.
proof fn lemma_promotion_bits(b: BoardModel, x: u64, offset: int, base_flag: u16)
    requires
        base_flag <= 12,
        forall|s: int, k: int|
            #[trigger] bb_set(x).contains(s) && 0 <= k < 4 ==> #[trigger] gen_fact(
                b,
                spec_move((s + offset) as u8, s as u8, (base_flag + k) as u16),
            ),
    ensures
        all_fit(b, promotion_list(bits_of(x), offset, base_flag)),
{
    lemma_bits_of(x);
    let tos = bits_of(x);
    assert forall|j: int, k: int| 0 <= j < tos.len() && 0 <= k < 4 implies #[trigger] gen_fact(
        b,
        spec_move((tos[j] + offset) as u8, tos[j], (base_flag + k) as u16),
    ) by {
        let s = tos[j] as int;
        assert(bb_set(x).contains(s));
        assert(s as u8 == tos[j]);
        assert(gen_fact(b, spec_move((s + offset) as u8, s as u8, (base_flag + k) as u16)));
    }
    lemma_promotion_fit(b, tos, offset, base_flag);
}

/// Moves from `from` onto the squares of a bitboard keep the promise.
proof fn lemma_piece_bits(b: BoardModel, from: u8, x: u64, flag: u16)
    requires
        forall|s: int| #[trigger] bb_set(x).contains(s) ==> gen_fact(b, spec_move(from, s as u8, flag)),
    ensures
        all_fit(b, piece_list(from, bits_of(x), flag)),
{
    lemma_bits_of(x);
    let tos = bits_of(x);
    assert forall|j: int| 0 <= j < tos.len() implies #[trigger] gen_fact(
        b,
        spec_move(from, tos[j], flag),
    ) by {
        assert(bb_set(x).contains(tos[j] as int));
    }
    lemma_piece_list_fit(b, from, tos, flag);
}

/// A move of a piece of the side to move that is not a castle keeps the
/// promise when its target fits its flag.
proof fn lemma_move_fit(b: BoardModel, from: int, to: int, flag: u16)
    requires
        sane(b),
        room(b),
        0 <= from < 64,
        0 <= to < 64,
        flag < 16,
        flag != 2 && flag != 3 && flag != 6 && flag != 7,
        bb_set(b.color_bbs[color_code(b.turn) as int]).contains(from),
        flag >= 8 ==> bb_set(b.type_bbs[0]).contains(from),
        (flag / 4) % 2 == 1 && flag != 5 ==> bb_set(
            b.color_bbs[color_code(spec_flip(b.turn)) as int],
        ).contains(to),
        (flag / 4) % 2 == 0 ==> !bb_set(b.color_bbs[0] | b.color_bbs[1]).contains(to),
        flag == 5 ==> bb_set(b.en_passant).contains(to),
        flag == 1 ==> double_ok(b, from, to),
    ensures
        gen_fact(b, spec_move(from as u8, to as u8, flag)),
{
    let m = spec_move(from as u8, to as u8, flag);
    lemma_spec_move(from as u8, to as u8, flag);
    let c = color_code(b.turn) as int;
    let e = color_code(spec_flip(b.turn)) as int;
    let mb = b.mailbox;
    assert(bb_set(b.color_bbs[c]) == color_squares(mb, c));
    assert(bb_set(b.color_bbs[e]) == color_squares(mb, e));
    assert(bb_set(b.color_bbs[0]) == color_squares(mb, 0));
    assert(bb_set(b.color_bbs[1]) == color_squares(mb, 1));
    assert(bb_set(b.type_bbs[0]) == type_squares(mb, 0));
    lemma_bb_or(b.color_bbs[0], b.color_bbs[1]);
    assert(square_ok(mb[to]));
    assert(mb[to] != 7 ==> color_code(spec_get_color(mb[to])) == 0 || color_code(
        spec_get_color(mb[to]),
    ) == 1);
    if flag == 5 {
        assert(bb_set(b.en_passant).contains(to));
    }
    assert(from != to);
    assert(move_sound(b, m));
}

proof fn lemma_rank_bits(s: u64)
    by (bit_vector)
    requires
        s < 64,
    ensures
        ((RANK_3 >> s) & 1 == 1) == (16 <= s && s < 24),
        ((RANK_6 >> s) & 1 == 1) == (40 <= s && s < 48),
{
}

/// A square of `((src & mask) << k) & target` comes from a square `k` lower.
proof fn lemma_up_in(src: u64, mask: u64, k: u64, target: u64, s: int)
    requires
        k < 64,
        bb_set(((src & mask) << k) & target).contains(s),
    ensures
        k <= s < 64,
        bb_set(src).contains(s - k),
        bb_set(mask).contains(s - k),
        bb_set(target).contains(s),
{
    lemma_bb_and((src & mask) << k, target);
    lemma_bb_shl(src & mask, k);
    lemma_bb_and(src, mask);
}

/// A square of `((src & mask) >> k) & target` comes from a square `k` higher.
proof fn lemma_down_in(src: u64, mask: u64, k: u64, target: u64, s: int)
    requires
        k < 64,
        bb_set(((src & mask) >> k) & target).contains(s),
    ensures
        0 <= s,
        s + k < 64,
        bb_set(src).contains(s + k),
        bb_set(mask).contains(s + k),
        bb_set(target).contains(s),
{
    lemma_bb_and((src & mask) >> k, target);
    lemma_bb_shr(src & mask, k);
    lemma_bb_and(src, mask);
}

/// The pawn moves the generator lists keep its promise.
proof fn lemma_pawns_fit(b: BoardModel)
    requires
        sane(b),
        room(b),
    ensures
        all_fit(
            b,
            crate::move_generator::spec_pawn_moves(
                true,
                true,
                b.type_bbs[0] & b.color_bbs[color_code(b.turn) as int],
                b.turn,
                b.color_bbs[color_code(spec_flip(b.turn)) as int],
                b.color_bbs[0] | b.color_bbs[1],
                b.en_passant,
            ),
        ),
{
    let c = color_code(b.turn) as int;
    let friendlies = b.color_bbs[c];
    let enemies = b.color_bbs[color_code(spec_flip(b.turn)) as int];
    let all = b.color_bbs[0] | b.color_bbs[1];
    let ep = b.en_passant;
    let pawns = b.type_bbs[0] & friendlies;
    lemma_bb_and(b.type_bbs[0], friendlies);
    lemma_bb_not(all);
    if b.turn == PieceColor::White {
        let np = pawns & !RANK_7;
        let pp = pawns & RANK_7;
        lemma_bb_and(pawns, !RANK_7);
        lemma_bb_and(pawns, RANK_7);
        assert forall|s: int| #[trigger] bb_set(((np & !A_FILE) << 7u64) & enemies).contains(s) implies gen_fact(
            b,
            spec_move((s + -7) as u8, s as u8, 4),
        ) by {
            lemma_up_in(np, !A_FILE, 7, enemies, s);
            lemma_move_fit(b, s - 7, s, 4);
        }
        lemma_emit_bits(b, ((np & !A_FILE) << 7u64) & enemies, -7, 4);
        assert forall|s: int| #[trigger] bb_set(((np & !H_FILE) << 9u64) & enemies).contains(s) implies gen_fact(
            b,
            spec_move((s + -9) as u8, s as u8, 4),
        ) by {
            lemma_up_in(np, !H_FILE, 9, enemies, s);
            lemma_move_fit(b, s - 9, s, 4);
        }
        lemma_emit_bits(b, ((np & !H_FILE) << 9u64) & enemies, -9, 4);
        assert forall|s: int| #[trigger] bb_set(((np & !A_FILE) << 7u64) & ep).contains(s) implies gen_fact(
            b,
            spec_move((s + -7) as u8, s as u8, 5),
        ) by {
            lemma_up_in(np, !A_FILE, 7, ep, s);
            lemma_move_fit(b, s - 7, s, 5);
        }
        lemma_emit_bits(b, ((np & !A_FILE) << 7u64) & ep, -7, 5);
        assert forall|s: int| #[trigger] bb_set(((np & !H_FILE) << 9u64) & ep).contains(s) implies gen_fact(
            b,
            spec_move((s + -9) as u8, s as u8, 5),
        ) by {
            lemma_up_in(np, !H_FILE, 9, ep, s);
            lemma_move_fit(b, s - 9, s, 5);
        }
        lemma_emit_bits(b, ((np & !H_FILE) << 9u64) & ep, -9, 5);
        assert forall|s: int, k: int|
            #[trigger] bb_set(((pp & !A_FILE) << 7u64) & enemies).contains(s) && 0 <= k < 4 implies #[trigger] gen_fact(
            b,
            spec_move((s + -7) as u8, s as u8, (12 + k) as u16),
        ) by {
            lemma_up_in(pp, !A_FILE, 7, enemies, s);
            lemma_move_fit(b, s - 7, s, (12 + k) as u16);
        }
        lemma_promotion_bits(b, ((pp & !A_FILE) << 7u64) & enemies, -7, 12);
        assert forall|s: int, k: int|
            #[trigger] bb_set(((pp & !H_FILE) << 9u64) & enemies).contains(s) && 0 <= k < 4 implies #[trigger] gen_fact(
            b,
            spec_move((s + -9) as u8, s as u8, (12 + k) as u16),
        ) by {
            lemma_up_in(pp, !H_FILE, 9, enemies, s);
            lemma_move_fit(b, s - 9, s, (12 + k) as u16);
        }
        lemma_promotion_bits(b, ((pp & !H_FILE) << 9u64) & enemies, -9, 12);
        assert forall|s: int, k: int|
            #[trigger] bb_set(((pawns & RANK_7) << 8u64) & !all).contains(s) && 0 <= k < 4 implies #[trigger] gen_fact(
            b,
            spec_move((s + -8) as u8, s as u8, (8 + k) as u16),
        ) by {
            lemma_up_in(pawns, RANK_7, 8, !all, s);
            lemma_move_fit(b, s - 8, s, (8 + k) as u16);
        }
        lemma_promotion_bits(b, ((pawns & RANK_7) << 8u64) & !all, -8, 8);
        let single = ((pawns & !RANK_7) << 8u64) & !all;
        assert forall|s: int| #[trigger] bb_set(single).contains(s) implies gen_fact(
            b,
            spec_move((s + -8) as u8, s as u8, 0),
        ) by {
            lemma_up_in(pawns, !RANK_7, 8, !all, s);
            lemma_move_fit(b, s - 8, s, 0);
        }
        lemma_emit_bits(b, single, -8, 0);
        assert forall|s: int| #[trigger] bb_set(((single & RANK_3) << 8u64) & !all).contains(s) implies gen_fact(
            b,
            spec_move((s + -16) as u8, s as u8, 1),
        ) by {
            lemma_up_in(single, RANK_3, 8, !all, s);
            lemma_up_in(pawns, !RANK_7, 8, !all, s - 8);
            lemma_rank_bits((s - 8) as u64);
            assert(bb_set(b.type_bbs[0]) == type_squares(b.mailbox, 0));
            assert(bb_set(friendlies) == color_squares(b.mailbox, c));
            crate::board::lemma_plain_pawn(b.mailbox[s - 16]);
            assert(b.mailbox[s - 8] == 7) by {
                assert(bb_set(b.color_bbs[0]) == color_squares(b.mailbox, 0));
                assert(bb_set(b.color_bbs[1]) == color_squares(b.mailbox, 1));
                lemma_bb_or(b.color_bbs[0], b.color_bbs[1]);
                assert(square_ok(b.mailbox[s - 8]));
            }
            lemma_move_fit(b, s - 16, s, 1);
        }
        lemma_emit_bits(b, ((single & RANK_3) << 8u64) & !all, -16, 1);
        let l1 = emit_list(bits_of(((np & !A_FILE) << 7u64) & enemies), -7, 4);
        let l2 = emit_list(bits_of(((np & !H_FILE) << 9u64) & enemies), -9, 4);
        let l3 = emit_list(bits_of(((np & !A_FILE) << 7u64) & ep), -7, 5);
        let l4 = emit_list(bits_of(((np & !H_FILE) << 9u64) & ep), -9, 5);
        let l5 = promotion_list(bits_of(((pp & !A_FILE) << 7u64) & enemies), -7, 12);
        let l6 = promotion_list(bits_of(((pp & !H_FILE) << 9u64) & enemies), -9, 12);
        let l7 = promotion_list(bits_of((pp << 8u64) & !all), -8, 8);
        let l8 = emit_list(bits_of(single), -8, 0);
        let l9 = emit_list(bits_of(((single & RANK_3) << 8u64) & !all), -16, 1);
        lemma_all_fit_concat(b, l1, l2);
        lemma_all_fit_concat(b, l1 + l2, l3);
        lemma_all_fit_concat(b, l1 + l2 + l3, l4);
        lemma_all_fit_concat(b, l1 + l2 + l3 + l4, l5);
        lemma_all_fit_concat(b, l1 + l2 + l3 + l4 + l5, l6);
        lemma_all_fit_concat(b, l1 + l2 + l3 + l4 + l5 + l6, l7);
        lemma_all_fit_concat(b, l8, l9);
        lemma_all_fit_concat(b, l1 + l2 + l3 + l4 + l5 + l6 + l7, l8 + l9);
    } else {
        let np = pawns & !RANK_2;
        let pp = pawns & RANK_2;
        lemma_bb_and(pawns, !RANK_2);
        lemma_bb_and(pawns, RANK_2);
        assert forall|s: int| #[trigger] bb_set(((np & !H_FILE) >> 7u64) & enemies).contains(s) implies gen_fact(
            b,
            spec_move((s + 7) as u8, s as u8, 4),
        ) by {
            lemma_down_in(np, !H_FILE, 7, enemies, s);
            lemma_move_fit(b, s + 7, s, 4);
        }
        lemma_emit_bits(b, ((np & !H_FILE) >> 7u64) & enemies, 7, 4);
        assert forall|s: int| #[trigger] bb_set(((np & !A_FILE) >> 9u64) & enemies).contains(s) implies gen_fact(
            b,
            spec_move((s + 9) as u8, s as u8, 4),
        ) by {
            lemma_down_in(np, !A_FILE, 9, enemies, s);
            lemma_move_fit(b, s + 9, s, 4);
        }
        lemma_emit_bits(b, ((np & !A_FILE) >> 9u64) & enemies, 9, 4);
        assert forall|s: int| #[trigger] bb_set(((np & !H_FILE) >> 7u64) & ep).contains(s) implies gen_fact(
            b,
            spec_move((s + 7) as u8, s as u8, 5),
        ) by {
            lemma_down_in(np, !H_FILE, 7, ep, s);
            lemma_move_fit(b, s + 7, s, 5);
        }
        lemma_emit_bits(b, ((np & !H_FILE) >> 7u64) & ep, 7, 5);
        assert forall|s: int| #[trigger] bb_set(((np & !A_FILE) >> 9u64) & ep).contains(s) implies gen_fact(
            b,
            spec_move((s + 9) as u8, s as u8, 5),
        ) by {
            lemma_down_in(np, !A_FILE, 9, ep, s);
            lemma_move_fit(b, s + 9, s, 5);
        }
        lemma_emit_bits(b, ((np & !A_FILE) >> 9u64) & ep, 9, 5);
        assert forall|s: int, k: int|
            #[trigger] bb_set(((pp & !H_FILE) >> 7u64) & enemies).contains(s) && 0 <= k < 4 implies #[trigger] gen_fact(
            b,
            spec_move((s + 7) as u8, s as u8, (12 + k) as u16),
        ) by {
            lemma_down_in(pp, !H_FILE, 7, enemies, s);
            lemma_move_fit(b, s + 7, s, (12 + k) as u16);
        }
        lemma_promotion_bits(b, ((pp & !H_FILE) >> 7u64) & enemies, 7, 12);
        assert forall|s: int, k: int|
            #[trigger] bb_set(((pp & !A_FILE) >> 9u64) & enemies).contains(s) && 0 <= k < 4 implies #[trigger] gen_fact(
            b,
            spec_move((s + 9) as u8, s as u8, (12 + k) as u16),
        ) by {
            lemma_down_in(pp, !A_FILE, 9, enemies, s);
            lemma_move_fit(b, s + 9, s, (12 + k) as u16);
        }
        lemma_promotion_bits(b, ((pp & !A_FILE) >> 9u64) & enemies, 9, 12);
        assert forall|s: int, k: int|
            #[trigger] bb_set(((pawns & RANK_2) >> 8u64) & !all).contains(s) && 0 <= k < 4 implies #[trigger] gen_fact(
            b,
            spec_move((s + 8) as u8, s as u8, (8 + k) as u16),
        ) by {
            lemma_down_in(pawns, RANK_2, 8, !all, s);
            lemma_move_fit(b, s + 8, s, (8 + k) as u16);
        }
        lemma_promotion_bits(b, ((pawns & RANK_2) >> 8u64) & !all, 8, 8);
        let single = ((pawns & !RANK_2) >> 8u64) & !all;
        assert forall|s: int| #[trigger] bb_set(single).contains(s) implies gen_fact(
            b,
            spec_move((s + 8) as u8, s as u8, 0),
        ) by {
            lemma_down_in(pawns, !RANK_2, 8, !all, s);
            lemma_move_fit(b, s + 8, s, 0);
        }
        lemma_emit_bits(b, single, 8, 0);
        assert forall|s: int| #[trigger] bb_set(((single & RANK_6) >> 8u64) & !all).contains(s) implies gen_fact(
            b,
            spec_move((s + 16) as u8, s as u8, 1),
        ) by {
            lemma_down_in(single, RANK_6, 8, !all, s);
            lemma_down_in(pawns, !RANK_2, 8, !all, s + 8);
            lemma_rank_bits((s + 8) as u64);
            assert(bb_set(b.type_bbs[0]) == type_squares(b.mailbox, 0));
            assert(bb_set(friendlies) == color_squares(b.mailbox, c));
            crate::board::lemma_plain_pawn(b.mailbox[s + 16]);
            assert(b.mailbox[s + 8] == 7) by {
                assert(bb_set(b.color_bbs[0]) == color_squares(b.mailbox, 0));
                assert(bb_set(b.color_bbs[1]) == color_squares(b.mailbox, 1));
                lemma_bb_or(b.color_bbs[0], b.color_bbs[1]);
                assert(square_ok(b.mailbox[s + 8]));
            }
            lemma_move_fit(b, s + 16, s, 1);
        }
        lemma_emit_bits(b, ((single & RANK_6) >> 8u64) & !all, 16, 1);
        let l1 = emit_list(bits_of(((np & !H_FILE) >> 7u64) & enemies), 7, 4);
        let l2 = emit_list(bits_of(((np & !A_FILE) >> 9u64) & enemies), 9, 4);
        let l3 = emit_list(bits_of(((np & !H_FILE) >> 7u64) & ep), 7, 5);
        let l4 = emit_list(bits_of(((np & !A_FILE) >> 9u64) & ep), 9, 5);
        let l5 = promotion_list(bits_of(((pp & !H_FILE) >> 7u64) & enemies), 7, 12);
        let l6 = promotion_list(bits_of(((pp & !A_FILE) >> 9u64) & enemies), 9, 12);
        let l7 = promotion_list(bits_of((pp >> 8u64) & !all), 8, 8);
        let l8 = emit_list(bits_of(single), 8, 0);
        let l9 = emit_list(bits_of(((single & RANK_6) >> 8u64) & !all), 16, 1);
        lemma_all_fit_concat(b, l1, l2);
        lemma_all_fit_concat(b, l1 + l2, l3);
        lemma_all_fit_concat(b, l1 + l2 + l3, l4);
        lemma_all_fit_concat(b, l1 + l2 + l3 + l4, l5);
        lemma_all_fit_concat(b, l1 + l2 + l3 + l4 + l5, l6);
        lemma_all_fit_concat(b, l1 + l2 + l3 + l4 + l5 + l6, l7);
        lemma_all_fit_concat(b, l8, l9);
        lemma_all_fit_concat(b, l1 + l2 + l3 + l4 + l5 + l6 + l7, l8 + l9);
    }
}

proof fn lemma_castle_squares(all: u64)
    by (bit_vector)
    ensures
        all & WHITE_KING_EMPTY == 0 ==> (all >> 5u64) & 1 != 1 && (all >> 6u64) & 1 != 1,
        all & WHITE_QUEEN_EMPTY == 0 ==> (all >> 1u64) & 1 != 1 && (all >> 2u64) & 1 != 1 && (all
            >> 3u64) & 1 != 1,
        all & BLACK_KING_EMPTY == 0 ==> (all >> 61u64) & 1 != 1 && (all >> 62u64) & 1 != 1,
        all & BLACK_QUEEN_EMPTY == 0 ==> (all >> 57u64) & 1 != 1 && (all >> 58u64) & 1 != 1 && (all
            >> 59u64) & 1 != 1,
{
}

/// On a consistent board a square outside the occupancy is empty.
proof fn lemma_empty_square(b: BoardModel, s: int)
    requires
        m_wf(b),
        0 <= s < 64,
        !bb_set(b.color_bbs[0] | b.color_bbs[1]).contains(s),
    ensures
        b.mailbox[s] == 7,
{
    assert(bb_set(b.color_bbs[0]) == color_squares(b.mailbox, 0));
    assert(bb_set(b.color_bbs[1]) == color_squares(b.mailbox, 1));
    lemma_bb_or(b.color_bbs[0], b.color_bbs[1]);
    assert(square_ok(b.mailbox[s]));
}

/// The castles the generator lists keep its promise.
proof fn lemma_castles_fit(b: BoardModel)
    requires
        sane(b),
        room(b),
    ensures
        all_fit(
            b,
            spec_castles(b, b.turn, b.rights.bits, b.color_bbs[0] | b.color_bbs[1]),
        ),
{
    let all = b.color_bbs[0] | b.color_bbs[1];
    lemma_castle_squares(all);
    lemma_spec_move(4, 6, 2);
    lemma_spec_move(4, 2, 3);
    lemma_spec_move(60, 62, 2);
    lemma_spec_move(60, 58, 3);
    if all & WHITE_KING_EMPTY == 0 {
        lemma_empty_square(b, 5);
        lemma_empty_square(b, 6);
    }
    if all & WHITE_QUEEN_EMPTY == 0 {
        lemma_empty_square(b, 2);
        lemma_empty_square(b, 3);
    }
    if all & BLACK_KING_EMPTY == 0 {
        lemma_empty_square(b, 61);
        lemma_empty_square(b, 62);
    }
    if all & BLACK_QUEEN_EMPTY == 0 {
        lemma_empty_square(b, 58);
        lemma_empty_square(b, 59);
    }
    let s = spec_castles(b, b.turn, b.rights.bits, all);
    assert forall|i: int| 0 <= i < s.len() implies #[trigger] gen_fact(b, s[i]) by {
        if b.turn == PieceColor::White {
            assert(s[i] == spec_move(4, 6, 2) || s[i] == spec_move(4, 2, 3));
        } else {
            assert(s[i] == spec_move(60, 62, 2) || s[i] == spec_move(60, 58, 3));
        }
    }
}

/// The moves of the pieces on the squares `froms`, all of the side to move,
/// keep the promise.
proof fn lemma_kind_fit(b: BoardModel, froms: Seq<u8>, kind: int)
    requires
        sane(b),
        room(b),
        forall|j: int|
            0 <= j < froms.len() ==> #[trigger] froms[j] < 64 && bb_set(
                b.color_bbs[color_code(b.turn) as int],
            ).contains(froms[j] as int),
    ensures
        all_fit(
            b,
            kind_moves(
                true,
                true,
                froms,
                kind,
                b.color_bbs[0] | b.color_bbs[1],
                b.color_bbs[color_code(b.turn) as int],
                b.color_bbs[color_code(spec_flip(b.turn)) as int],
            ),
        ),
    decreases froms.len(),
{
    let all = b.color_bbs[0] | b.color_bbs[1];
    let friendlies = b.color_bbs[color_code(b.turn) as int];
    let enemies = b.color_bbs[color_code(spec_flip(b.turn)) as int];
    if froms.len() > 0 {
        let rest = froms.drop_first();
        assert forall|j: int| 0 <= j < rest.len() implies #[trigger] rest[j] < 64 && bb_set(
            friendlies,
        ).contains(rest[j] as int) by {
            assert(rest[j] == froms[j + 1]);
        }
        lemma_kind_fit(b, rest, kind);
        let from = froms[0];
        assert(from < 64 && bb_set(friendlies).contains(from as int));
        let att = kind_attacks(kind, from as int, all, friendlies);
        lemma_bb_and(att, enemies);
        lemma_bb_and(att, !all);
        lemma_bb_not(all);
        assert forall|s: int| #[trigger] bb_set(att & enemies).contains(s) implies gen_fact(
            b,
            spec_move(from, s as u8, 4),
        ) by {
            lemma_move_fit(b, from as int, s, 4);
        }
        lemma_piece_bits(b, from, att & enemies, 4);
        assert forall|s: int| #[trigger] bb_set(att & !all).contains(s) implies gen_fact(
            b,
            spec_move(from, s as u8, 0),
        ) by {
            lemma_move_fit(b, from as int, s, 0);
        }
        lemma_piece_bits(b, from, att & !all, 0);
        lemma_all_fit_concat(
            b,
            piece_list(from, bits_of(att & enemies), 4),
            piece_list(from, bits_of(att & !all), 0),
        );
        lemma_all_fit_concat(
            b,
            spec_piece_moves(true, true, from, att, enemies, all),
            kind_moves(true, true, rest, kind, all, friendlies, enemies),
        );
    }
}

proof fn lemma_kind_bits_fit(b: BoardModel, t: int, kind: int)
    requires
        sane(b),
        room(b),
        0 <= t < 6,
    ensures
        all_fit(
            b,
            kind_moves(
                true,
                true,
                bits_of(b.type_bbs[t] & b.color_bbs[color_code(b.turn) as int]),
                kind,
                b.color_bbs[0] | b.color_bbs[1],
                b.color_bbs[color_code(b.turn) as int],
                b.color_bbs[color_code(spec_flip(b.turn)) as int],
            ),
        ),
{
    let friendlies = b.color_bbs[color_code(b.turn) as int];
    let pieces = b.type_bbs[t] & friendlies;
    lemma_bits_of(pieces);
    lemma_bb_and(b.type_bbs[t], friendlies);
    let froms = bits_of(pieces);
    assert forall|j: int| 0 <= j < froms.len() implies #[trigger] froms[j] < 64 && bb_set(
        friendlies,
    ).contains(froms[j] as int) by {
        assert(bb_set(pieces).contains(froms[j] as int));
    }
    lemma_kind_fit(b, froms, kind);
}

/// The moves generated for the side to move of a sane board: each starts on
/// a square that holds a piece, of the side to move unless the move is a
/// castle, which starts on the king's home square; a capture other than en
/// passant lands on a piece of the other side, and every other move (a quiet
/// move, a push, a promotion without capture, an en passant capture, a
/// castle) lands on an empty square.
pub proof fn lemma_generated_moves_shape(b: BoardModel)
    requires
        sane(b),
    ensures
        forall|i: int|
            0 <= i < spec_generate_moves(true, true, b, b.turn).len() ==> {
                let m = #[trigger] spec_generate_moves(true, true, b, b.turn)[i];
                let f = move_from(m);
                let t = move_to(m);
                &&& b.mailbox[f] != 7
                &&& !spec_is_castle(m) ==> spec_get_color(b.mailbox[f]) == b.turn
                &&& spec_is_castle(m) ==> f == if b.turn == PieceColor::White {
                    4int
                } else {
                    60int
                }
                &&& crate::board::takes_on_target(m) ==> b.mailbox[t] != 7 && spec_get_color(
                    b.mailbox[t],
                ) == spec_flip(b.turn)
                &&& !crate::board::takes_on_target(m) ==> b.mailbox[t] == 7
            },
{
    let r = BoardModel { half: 0, full: 0, undo: Seq::empty(), ..b };
    reveal(spec_generate_moves);
    assert(spec_generate_moves(true, true, r, r.turn) == spec_generate_moves(true, true, b, b.turn));
    lemma_generated_fit(r);
    let s = spec_generate_moves(true, true, b, b.turn);
    assert forall|i: int| 0 <= i < s.len() implies gen_fact(r, #[trigger] s[i]) by {}
}

/// Every move the generator lists for the side to move of a sane board with
/// room for one more move keeps the generator's promise.
pub proof fn lemma_generated_fit(b: BoardModel)
    requires
        sane(b),
        room(b),
    ensures
        all_fit(b, spec_generate_moves(true, true, b, b.turn)),
{
    reveal(spec_generate_moves);
    let c = color_code(b.turn) as int;
    let friendlies = b.color_bbs[c];
    let enemies = b.color_bbs[color_code(spec_flip(b.turn)) as int];
    let all = b.color_bbs[0] | b.color_bbs[1];
    lemma_pawns_fit(b);
    lemma_castles_fit(b);
    lemma_kind_bits_fit(b, 3, 0);
    lemma_kind_bits_fit(b, 2, 1);
    lemma_kind_bits_fit(b, 4, 2);
    lemma_kind_bits_fit(b, 1, 3);
    lemma_kind_bits_fit(b, 5, 4);
    let p = crate::move_generator::spec_pawn_moves(
        true,
        true,
        b.type_bbs[0] & friendlies,
        b.turn,
        enemies,
        all,
        b.en_passant,
    );
    let cs = spec_castles(b, b.turn, b.rights.bits, all);
    let k0 = kind_moves(true, true, bits_of(b.type_bbs[3] & friendlies), 0, all, friendlies, enemies);
    let k1 = kind_moves(true, true, bits_of(b.type_bbs[2] & friendlies), 1, all, friendlies, enemies);
    let k2 = kind_moves(true, true, bits_of(b.type_bbs[4] & friendlies), 2, all, friendlies, enemies);
    let k3 = kind_moves(true, true, bits_of(b.type_bbs[1] & friendlies), 3, all, friendlies, enemies);
    let k4 = kind_moves(true, true, bits_of(b.type_bbs[5] & friendlies), 4, all, friendlies, enemies);
    lemma_all_fit_concat(b, p, cs);
    lemma_all_fit_concat(b, p + cs, k0);
    lemma_all_fit_concat(b, p + cs + k0, k1);
    lemma_all_fit_concat(b, p + cs + k0 + k1, k2);
    lemma_all_fit_concat(b, p + cs + k0 + k1 + k2, k3);
    lemma_all_fit_concat(b, p + cs + k0 + k1 + k2 + k3, k4);
}

/// On a sane board whose counters and undo stack have room for one more
/// move, every pseudo-legal move of the side to move fits the board.
pub proof fn lemma_sane_moves_fit(b: BoardModel)
    requires
        sane(b),
        room(b),
    ensures
        moves_fit(b),
{
    lemma_generated_fit(b);
    let s = spec_generate_moves(true, true, b, b.turn);
    assert forall|i: int| 0 <= i < s.len() implies move_sound(b, #[trigger] s[i]) by {
        assert(gen_fact(b, s[i]));
    }
}

proof fn lemma_rights_bits(x: u8, m1: u8, m2: u8, r: u8)
    by (bit_vector)
    ensures
        ((x & m1) & m2) & r != 0 ==> x & r != 0 && m1 & r != 0 && m2 & r != 0,
        0b1011u8 & 8u8 != 0 && 0b1011u8 & 4u8 == 0 && 0b1011u8 & 2u8 != 0 && 0b1011u8 & 1u8 != 0,
        0b0011u8 & 8u8 == 0 && 0b0011u8 & 4u8 == 0 && 0b0011u8 & 2u8 != 0 && 0b0011u8 & 1u8 != 0,
        0b0111u8 & 8u8 == 0 && 0b0111u8 & 4u8 != 0 && 0b0111u8 & 2u8 != 0 && 0b0111u8 & 1u8 != 0,
        0b1110u8 & 8u8 != 0 && 0b1110u8 & 4u8 != 0 && 0b1110u8 & 2u8 != 0 && 0b1110u8 & 1u8 == 0,
        0b1100u8 & 8u8 != 0 && 0b1100u8 & 4u8 != 0 && 0b1100u8 & 2u8 == 0 && 0b1100u8 & 1u8 == 0,
        0b1101u8 & 8u8 != 0 && 0b1101u8 & 4u8 != 0 && 0b1101u8 & 2u8 == 0 && 0b1101u8 & 1u8 != 0,
        0b1111u8 & 8u8 != 0 && 0b1111u8 & 4u8 != 0 && 0b1111u8 & 2u8 != 0 && 0b1111u8 & 1u8 != 0,
{
}

/// A castling right that survives a move was not touched by it: the move
/// neither left from nor arrived on that right's king or rook square.
proof fn lemma_right_kept(x: u8, f: int, t: int, r: u8, king_sq: int, rook_sq: int)
    requires
        (r == 8 && king_sq == 4 && rook_sq == 7) || (r == 4 && king_sq == 4 && rook_sq == 0) || (r
            == 2 && king_sq == 60 && rook_sq == 63) || (r == 1 && king_sq == 60 && rook_sq == 56),
        ((x & spec_rights_mask(f)) & spec_rights_mask(t)) & r != 0,
    ensures
        x & r != 0,
        f != king_sq && f != rook_sq,
        t != king_sq && t != rook_sq,
{
    lemma_rights_bits(x, spec_rights_mask(f), spec_rights_mask(t), r);
}

/// A move that keeps the generator's promise leaves a sane board sane.
pub proof fn lemma_sane_after(b: BoardModel, mv: Move)
    requires
        sane(b),
        room(b),
        gen_fact(b, mv),
    ensures
        sane(m_do_move(b, mv)),
{
    let f = move_from(mv);
    let t = move_to(mv);
    let mb = b.mailbox;
    let a = m_do_move(b, mv);
    let placed = placed_piece(b, mv);
    lemma_do_wf(b, mv);
    lemma_placed(b, mv);
    let side = side_mailbox(b, mv);
    assert(a.mailbox == side.update(f, 7).update(t, placed));
    assert(a.turn == spec_flip(b.turn));
    assert(a.rights.bits == (b.rights.bits & spec_rights_mask(f)) & spec_rights_mask(t));
    assert(a.en_passant == if spec_is_double_pawn(mv) {
        1u64 << (((f + t) / 2) as u64)
    } else {
        0u64
    });
    // En passant squares.
    if spec_is_double_pawn(mv) {
        let mid = (f + t) / 2;
        lemma_bb_single(mid as u64);
        assert(side == mb);
        assert(placed == mb[f]);
        if b.turn == PieceColor::White {
            assert(mid == t - 8);
        } else {
            assert(mid == t + 8);
        }
        assert forall|s: int| #[trigger] bb_set(a.en_passant).contains(s) implies {
            &&& a.mailbox[s] == 7
            &&& if a.turn == PieceColor::White {
                40 <= s < 48 && a.mailbox[s - 8] == spec_make(PieceType::Pawn, PieceColor::Black)
            } else {
                16 <= s < 24 && a.mailbox[s + 8] == spec_make(PieceType::Pawn, PieceColor::White)
            }
        } by {
            assert(s == mid);
        }
    } else {
        lemma_bb_zero();
        assert(bb_set(a.en_passant) =~= Set::<int>::empty());
    }
    assert(ep_ok(a));
    // Castling rights.
    if spec_is_en_passant(mv) {
        assert(bb_set(b.en_passant).contains(t));
    }
    lemma_rights_bits(0, 0, 0, 0);
    if a.rights.bits & 8 != 0 {
        lemma_right_kept(b.rights.bits, f, t, 8, 4, 7);
        assert(a.mailbox[4] == mb[4] && a.mailbox[7] == mb[7]);
    }
    if a.rights.bits & 4 != 0 {
        lemma_right_kept(b.rights.bits, f, t, 4, 4, 0);
        assert(a.mailbox[4] == mb[4] && a.mailbox[0] == mb[0]);
    }
    if a.rights.bits & 2 != 0 {
        lemma_right_kept(b.rights.bits, f, t, 2, 60, 63);
        assert(a.mailbox[60] == mb[60] && a.mailbox[63] == mb[63]);
    }
    if a.rights.bits & 1 != 0 {
        lemma_right_kept(b.rights.bits, f, t, 1, 60, 56);
        assert(a.mailbox[60] == mb[60] && a.mailbox[56] == mb[56]);
    }
    assert(castle_ok(a));
}

/// A legal move keeps a sane board sane.
pub proof fn lemma_legal_keeps_sane(b: BoardModel, mv: Move)
    requires
        sane(b),
        room(b),
        spec_legal_moves(b).contains(mv),
    ensures
        sane(m_do_move(b, mv)),
        m_do_move(b, mv).half == b.half + 1,
        m_do_move(b, mv).full <= b.full + 1,
        m_do_move(b, mv).undo.len() == b.undo.len() + 1,
{
    let g = spec_generate_moves(true, true, b, b.turn);
    g.lemma_filter_contains_rev(leaves_king_safe(b, b.turn), mv);
    let j = choose|j: int| 0 <= j < g.len() && g[j] == mv;
    lemma_generated_fit(b);
    assert(gen_fact(b, g[j]));
    lemma_sane_after(b, mv);
}

/// The counters and the undo stack have room for `depth` more moves.
pub open spec fn room_for(b: BoardModel, depth: nat) -> bool {
    &&& b.half + depth <= 255
    &&& b.full + depth <= 65535
    &&& b.undo.len() + depth <= 256
}

/// `perft` can walk every sane board with room for `depth` more moves whose
/// leaf count fits in a `u64`.
pub proof fn lemma_sane_perft_ok(depth: nat, b: BoardModel)
    requires
        sane(b),
        room_for(b, depth),
        spec_perft(depth, b) <= u64::MAX,
    ensures
        perft_ok(depth, b),
    decreases depth, 1nat, 0nat,
{
    if depth > 0 {
        lemma_sane_moves_fit(b);
        lemma_generated_fit(b);
        lemma_sane_perft_ok_all(spec_generate_moves(true, true, b, b.turn), b, depth);
    }
}

proof fn lemma_sane_perft_ok_all(s: Seq<Move>, b: BoardModel, depth: nat)
    requires
        depth > 0,
        sane(b),
        room_for(b, depth),
        all_fit(b, s),
        perft_sum(s, b, depth) <= u64::MAX,
    ensures
        perft_ok_all(s, b, depth),
    decreases depth, 0nat, s.len(),
{
    if s.len() > 0 {
        let rest = s.drop_last();
        assert forall|i: int| 0 <= i < rest.len() implies #[trigger] gen_fact(b, rest[i]) by {
            assert(rest[i] == s[i]);
        }
        lemma_sane_perft_ok_all(rest, b, depth);
        let m = s.last();
        assert(gen_fact(b, s[s.len() - 1]));
        if leaves_king_safe(b, b.turn)(m) {
            reveal(child);
            lemma_sane_after(b, m);
            lemma_sane_perft_ok((depth - 1) as nat, child(b, m));
        }
    }
}

proof fn lemma_emit_len(tos: Seq<u8>, offset: int, flag: u16)
    ensures
        emit_list(tos, offset, flag).len() == tos.len(),
    decreases tos.len(),
{
    if tos.len() > 0 {
        lemma_emit_len(tos.drop_first(), offset, flag);
    }
}

proof fn lemma_promotion_len(tos: Seq<u8>, offset: int, flag: u16)
    ensures
        promotion_list(tos, offset, flag).len() == 4 * tos.len(),
    decreases tos.len(),
{
    if tos.len() > 0 {
        lemma_promotion_len(tos.drop_first(), offset, flag);
    }
}

proof fn lemma_piece_list_len(from: u8, tos: Seq<u8>, flag: u16)
    ensures
        piece_list(from, tos, flag).len() == tos.len(),
    decreases tos.len(),
{
    if tos.len() > 0 {
        lemma_piece_list_len(from, tos.drop_first(), flag);
    }
}

/// A piece's moves land on the squares it attacks, each once.
proof fn lemma_piece_moves_len(
    captures: bool,
    quiets: bool,
    index: u8,
    attacks: u64,
    enemies: u64,
    all_pieces: u64,
)
    requires
        bb_set(enemies).subset_of(bb_set(all_pieces)),
    ensures
        spec_piece_moves(captures, quiets, index, attacks, enemies, all_pieces).len() <= 64,
{
    let c = attacks & enemies;
    let q = attacks & !all_pieces;
    lemma_piece_list_len(index, bits_of(c), Move::FLAG_CAPTURE);
    lemma_piece_list_len(index, bits_of(q), Move::FLAG_QUIET);
    lemma_bits_count(c);
    lemma_bits_count(q);
    lemma_bb_and(attacks, enemies);
    lemma_bb_and(attacks, !all_pieces);
    lemma_bb_not(all_pieces);
    assert(bb_set(c).disjoint(bb_set(q)));
    vstd::set_lib::lemma_set_disjoint_lens(bb_set(c), bb_set(q));
    vstd::set_lib::lemma_int_range(0, 64);
    assert((bb_set(c) + bb_set(q)).subset_of(vstd::set_lib::set_int_range(0, 64)));
    vstd::set_lib::lemma_len_subset(bb_set(c) + bb_set(q), vstd::set_lib::set_int_range(0, 64));
}

proof fn lemma_kind_moves_len(
    captures: bool,
    quiets: bool,
    froms: Seq<u8>,
    kind: int,
    all_pieces: u64,
    friendlies: u64,
    enemies: u64,
)
    requires
        bb_set(enemies).subset_of(bb_set(all_pieces)),
    ensures
        kind_moves(captures, quiets, froms, kind, all_pieces, friendlies, enemies).len() <= 64
            * froms.len(),
    decreases froms.len(),
{
    if froms.len() > 0 {
        let attacks = kind_attacks(kind, froms[0] as int, all_pieces, friendlies);
        lemma_piece_moves_len(captures, quiets, froms[0], attacks, enemies, all_pieces);
        lemma_kind_moves_len(
            captures,
            quiets,
            froms.drop_first(),
            kind,
            all_pieces,
            friendlies,
            enemies,
        );
    }
}

/// A bitboard lists as many squares as it holds.
proof fn lemma_bits_count(x: u64)
    ensures
        bb_set(x).finite(),
        bits_of(x).len() == bb_set(x).len(),
{
    lemma_bits_of(x);
    let s = bits_of(x);
    let si = s.map_values(|v: u8| v as int);
    assert forall|i: int, j: int| 0 <= i < si.len() && 0 <= j < si.len() && i != j implies si[i]
        != si[j] by {
        if i < j {
            assert(s[i] < s[j]);
        } else {
            assert(s[j] < s[i]);
        }
    }
    assert(si.no_duplicates());
    assert forall|q: int| si.to_set().contains(q) == bb_set(x).contains(q) by {
        if si.to_set().contains(q) {
            let i = choose|i: int| 0 <= i < si.len() && si[i] == q;
            assert(bb_set(x).contains(s[i] as int));
        }
        if bb_set(x).contains(q) {
            let i = choose|i: int| 0 <= i < s.len() && #[trigger] s[i] == q;
            assert(si[i] == q);
        }
    }
    assert(si.to_set() =~= bb_set(x));
    si.unique_seq_to_set();
}

/// The pieces of the five kinds other than pawns, of one colour, stand on
/// at most 64 squares together.
proof fn lemma_froms_count(b: BoardModel, f: u64)
    requires
        m_wf(b),
    ensures
        bits_of(b.type_bbs[1] & f).len() + bits_of(b.type_bbs[2] & f).len() + bits_of(
            b.type_bbs[3] & f,
        ).len() + bits_of(b.type_bbs[4] & f).len() + bits_of(b.type_bbs[5] & f).len() <= 64,
{
    let a1 = bb_set(b.type_bbs[1] & f);
    let a2 = bb_set(b.type_bbs[2] & f);
    let a3 = bb_set(b.type_bbs[3] & f);
    let a4 = bb_set(b.type_bbs[4] & f);
    let a5 = bb_set(b.type_bbs[5] & f);
    lemma_bits_count(b.type_bbs[1] & f);
    lemma_bits_count(b.type_bbs[2] & f);
    lemma_bits_count(b.type_bbs[3] & f);
    lemma_bits_count(b.type_bbs[4] & f);
    lemma_bits_count(b.type_bbs[5] & f);
    assert forall|t: int| 1 <= t < 6 implies #[trigger] bb_set(b.type_bbs[t] & f).subset_of(
        type_squares(b.mailbox, t),
    ) by {
        lemma_bb_and(b.type_bbs[t], f);
    }
    assert(a1.subset_of(type_squares(b.mailbox, 1)));
    assert(a2.subset_of(type_squares(b.mailbox, 2)));
    assert(a3.subset_of(type_squares(b.mailbox, 3)));
    assert(a4.subset_of(type_squares(b.mailbox, 4)));
    assert(a5.subset_of(type_squares(b.mailbox, 5)));
    let u2 = a1 + a2;
    let u3 = u2 + a3;
    let u4 = u3 + a4;
    let u5 = u4 + a5;
    assert(a1.disjoint(a2));
    vstd::set_lib::lemma_set_disjoint_lens(a1, a2);
    assert(u2.disjoint(a3));
    vstd::set_lib::lemma_set_disjoint_lens(u2, a3);
    assert(u3.disjoint(a4));
    vstd::set_lib::lemma_set_disjoint_lens(u3, a4);
    assert(u4.disjoint(a5));
    vstd::set_lib::lemma_set_disjoint_lens(u4, a5);
    vstd::set_lib::lemma_int_range(0, 64);
    assert(u5.subset_of(vstd::set_lib::set_int_range(0, 64)));
    vstd::set_lib::lemma_len_subset(u5, vstd::set_lib::set_int_range(0, 64));
}

proof fn lemma_kind_len(b: BoardModel, t: int, kind: int, all: u64, friendlies: u64, enemies: u64)
    requires
        bb_set(enemies).subset_of(bb_set(all)),
    ensures
        kind_moves(true, true, bits_of(b.type_bbs[t] & friendlies), kind, all, friendlies, enemies).len()
            <= 64 * bits_of(b.type_bbs[t] & friendlies).len(),
        bits_of(b.type_bbs[t] & friendlies).len() <= 64,
{
    crate::move_generator::lemma_bits_len(b.type_bbs[t] & friendlies);
    lemma_kind_moves_len(true, true, bits_of(b.type_bbs[t] & friendlies), kind, all, friendlies, enemies);
}

/// No consistent board has more than 6144 pseudo-legal moves for a side:
/// its pawns have at most 1152, the castles are at most two, and each of at
/// most 64 other pieces has at most 64, one per square it attacks.
pub proof fn lemma_move_count(b: BoardModel, turn: PieceColor)
    requires
        m_wf(b),
    ensures
        spec_generate_moves(true, true, b, turn).len() <= 6144,
{
    reveal(spec_generate_moves);
    let friendlies = b.color_bbs[color_code(turn) as int];
    let enemies = b.color_bbs[color_code(spec_flip(turn)) as int];
    let all = b.color_bbs[0] | b.color_bbs[1];
    let pawns = b.type_bbs[0] & friendlies;
    let ep = b.en_passant;
    assert forall|x: u64, off: int, f: u16| #[trigger] emit_list(bits_of(x), off, f).len() <= 64 by {
        lemma_emit_len(bits_of(x), off, f);
        crate::move_generator::lemma_bits_len(x);
    }
    assert forall|x: u64, off: int, f: u16| #[trigger] promotion_list(bits_of(x), off, f).len() <= 256 by {
        lemma_promotion_len(bits_of(x), off, f);
        crate::move_generator::lemma_bits_len(x);
    }
    assert(crate::move_generator::spec_pawn_moves(true, true, pawns, turn, enemies, all, ep).len()
        <= 1152);
    assert(spec_castles(b, turn, b.rights.bits, all).len() <= 2);
    lemma_bb_or(b.color_bbs[0], b.color_bbs[1]);
    assert(bb_set(enemies).subset_of(bb_set(all)));
    lemma_kind_len(b, 3, 0, all, friendlies, enemies);
    lemma_kind_len(b, 2, 1, all, friendlies, enemies);
    lemma_kind_len(b, 4, 2, all, friendlies, enemies);
    lemma_kind_len(b, 1, 3, all, friendlies, enemies);
    lemma_kind_len(b, 5, 4, all, friendlies, enemies);
    lemma_froms_count(b, friendlies);
}

/// 6144 to the power `depth`.
pub open spec fn count_bound(depth: nat) -> nat
    decreases depth,
{
    if depth == 0 {
        1
    } else {
        6144 * count_bound((depth - 1) as nat)
    }
}

/// The leaf count `depth` moves deep from a sane board with room for
/// `depth` more moves is at most 6144 to the power `depth`.
pub proof fn lemma_perft_bound(depth: nat, b: BoardModel)
    requires
        sane(b),
        room_for(b, depth),
    ensures
        spec_perft(depth, b) <= count_bound(depth),
    decreases depth, 1nat, 0nat,
{
    if depth > 0 {
        let s = spec_generate_moves(true, true, b, b.turn);
        lemma_generated_fit(b);
        lemma_perft_sum_bound(s, b, depth);
        lemma_move_count(b, b.turn);
        let k = count_bound((depth - 1) as nat);
        assert(s.len() * k <= 6144 * k) by (nonlinear_arith)
            requires
                s.len() <= 6144,
        ;
    }
}

proof fn lemma_perft_sum_bound(s: Seq<Move>, b: BoardModel, depth: nat)
    requires
        depth > 0,
        sane(b),
        room_for(b, depth),
        all_fit(b, s),
    ensures
        perft_sum(s, b, depth) <= s.len() * count_bound((depth - 1) as nat),
    decreases depth, 0nat, s.len(),
{
    if s.len() > 0 {
        let k = count_bound((depth - 1) as nat);
        let rest = s.drop_last();
        assert forall|i: int| 0 <= i < rest.len() implies #[trigger] gen_fact(b, rest[i]) by {
            assert(rest[i] == s[i]);
        }
        lemma_perft_sum_bound(rest, b, depth);
        let m = s.last();
        assert(gen_fact(b, s[s.len() - 1]));
        if leaves_king_safe(b, b.turn)(m) {
            reveal(child);
            lemma_sane_after(b, m);
            lemma_perft_bound((depth - 1) as nat, child(b, m));
        }
        assert((s.len() - 1) * k + k == s.len() * k) by (nonlinear_arith);
    }
}

/// `perft` can walk five moves deep from every sane board with room for the
/// moves: the leaf count is at most 6144 to the fifth, below 2 to the 63.
pub proof fn lemma_perft_ok_shallow(depth: nat, b: BoardModel)
    requires
        sane(b),
        depth <= 5,
        room_for(b, depth),
    ensures
        perft_ok(depth, b),
{
    lemma_perft_bound(depth, b);
    reveal_with_fuel(count_bound, 6);
    assert(count_bound(depth) <= 0x8000_0000_0000_0000);
    lemma_sane_perft_ok(depth, b);
}

/// The move is neither a quiet move nor a double pawn push.
pub open spec fn not_quiet() -> spec_fn(Move) -> bool {
    |m: Move| move_flags(m) != 0 && move_flags(m) != 1
}

proof fn lemma_flag_of(f: u8, t: u8, flag: u16)
    requires
        t < 64,
        flag < 16,
    ensures
        move_flags(spec_move(f, t, flag)) == flag,
{
    let from16 = f as u16;
    let to16 = t as u16;
    assert((((flag << 12u16) | from16) | (to16 << 6u16)) / 4096u16 == flag) by (bit_vector)
        requires
            from16 < 256,
            to16 < 64,
            flag < 16,
    ;
}

proof fn lemma_filter_keep(s: Seq<Move>, pred: spec_fn(Move) -> bool)
    requires
        forall|i: int| 0 <= i < s.len() ==> pred(#[trigger] s[i]),
    ensures
        s.filter(pred) == s,
    decreases s.len(),
{
    reveal(Seq::filter);
    if s.len() > 0 {
        let d = s.drop_last();
        assert forall|i: int| 0 <= i < d.len() implies pred(#[trigger] d[i]) by {
            assert(d[i] == s[i]);
        }
        lemma_filter_keep(d, pred);
        assert(pred(s[s.len() - 1]));
        assert(d.push(s.last()) =~= s);
    }
}

proof fn lemma_filter_drop(s: Seq<Move>, pred: spec_fn(Move) -> bool)
    requires
        forall|i: int| 0 <= i < s.len() ==> !pred(#[trigger] s[i]),
    ensures
        s.filter(pred) == Seq::<Move>::empty(),
    decreases s.len(),
{
    reveal(Seq::filter);
    if s.len() > 0 {
        let d = s.drop_last();
        assert forall|i: int| 0 <= i < d.len() implies !pred(#[trigger] d[i]) by {
            assert(d[i] == s[i]);
        }
        lemma_filter_drop(d, pred);
        assert(!pred(s[s.len() - 1]));
    }
}

proof fn lemma_emit_flags(tos: Seq<u8>, offset: int, flag: u16)
    requires
        forall|i: int| 0 <= i < tos.len() ==> #[trigger] tos[i] < 64,
        flag < 16,
    ensures
        forall|i: int|
            0 <= i < emit_list(tos, offset, flag).len() ==> move_flags(
                #[trigger] emit_list(tos, offset, flag)[i],
            ) == flag,
    decreases tos.len(),
{
    lemma_emit_len(tos, offset, flag);
    if tos.len() > 0 {
        let rest = tos.drop_first();
        assert forall|i: int| 0 <= i < rest.len() implies #[trigger] rest[i] < 64 by {
            assert(rest[i] == tos[i + 1]);
        }
        lemma_emit_flags(rest, offset, flag);
        lemma_flag_of((tos[0] + offset) as u8, tos[0], flag);
        let l = emit_list(tos, offset, flag);
        assert forall|i: int| 0 <= i < l.len() implies move_flags(#[trigger] l[i]) == flag by {
            if i > 0 {
                assert(l[i] == emit_list(rest, offset, flag)[i - 1]);
            }
        }
    }
}

proof fn lemma_promotion_flags(tos: Seq<u8>, offset: int, base: u16)
    requires
        forall|i: int| 0 <= i < tos.len() ==> #[trigger] tos[i] < 64,
        8 <= base <= 12,
    ensures
        forall|i: int|
            0 <= i < promotion_list(tos, offset, base).len() ==> move_flags(
                #[trigger] promotion_list(tos, offset, base)[i],
            ) >= 8,
    decreases tos.len(),
{
    lemma_promotion_len(tos, offset, base);
    if tos.len() > 0 {
        let rest = tos.drop_first();
        assert forall|i: int| 0 <= i < rest.len() implies #[trigger] rest[i] < 64 by {
            assert(rest[i] == tos[i + 1]);
        }
        lemma_promotion_flags(rest, offset, base);
        let from = (tos[0] + offset) as u8;
        lemma_flag_of(from, tos[0], (base + 3) as u16);
        lemma_flag_of(from, tos[0], (base + 2) as u16);
        lemma_flag_of(from, tos[0], (base + 1) as u16);
        lemma_flag_of(from, tos[0], base);
        let l = promotion_list(tos, offset, base);
        assert forall|i: int| 0 <= i < l.len() implies move_flags(#[trigger] l[i]) >= 8 by {
            if i >= 4 {
                assert(l[i] == promotion_list(rest, offset, base)[i - 4]);
            }
        }
    }
}

proof fn lemma_piece_flags(from: u8, tos: Seq<u8>, flag: u16)
    requires
        forall|i: int| 0 <= i < tos.len() ==> #[trigger] tos[i] < 64,
        flag < 16,
    ensures
        forall|i: int|
            0 <= i < piece_list(from, tos, flag).len() ==> move_flags(
                #[trigger] piece_list(from, tos, flag)[i],
            ) == flag,
    decreases tos.len(),
{
    lemma_piece_list_len(from, tos, flag);
    if tos.len() > 0 {
        let rest = tos.drop_first();
        assert forall|i: int| 0 <= i < rest.len() implies #[trigger] rest[i] < 64 by {
            assert(rest[i] == tos[i + 1]);
        }
        lemma_piece_flags(from, rest, flag);
        lemma_flag_of(from, tos[0], flag);
        let l = piece_list(from, tos, flag);
        assert forall|i: int| 0 <= i < l.len() implies move_flags(#[trigger] l[i]) == flag by {
            if i > 0 {
                assert(l[i] == piece_list(from, rest, flag)[i - 1]);
            }
        }
    }
}

proof fn lemma_emit_filter_by(x: u64, offset: int, flag: u16, pred: spec_fn(Move) -> bool, keep: bool)
    requires
        flag < 16,
        forall|m: Move| move_flags(m) == flag ==> #[trigger] pred(m) == keep,
    ensures
        emit_list(bits_of(x), offset, flag).filter(pred) == if keep {
            emit_list(bits_of(x), offset, flag)
        } else {
            Seq::<Move>::empty()
        },
{
    lemma_bits_of(x);
    lemma_emit_flags(bits_of(x), offset, flag);
    let l = emit_list(bits_of(x), offset, flag);
    if keep {
        assert forall|i: int| 0 <= i < l.len() implies pred(#[trigger] l[i]) by {
            assert(move_flags(l[i]) == flag);
        }
        lemma_filter_keep(l, pred);
    } else {
        assert forall|i: int| 0 <= i < l.len() implies !pred(#[trigger] l[i]) by {
            assert(move_flags(l[i]) == flag);
        }
        lemma_filter_drop(l, pred);
    }
}

proof fn lemma_emit_filter(x: u64, offset: int, flag: u16)
    requires
        flag < 16,
    ensures
        emit_list(bits_of(x), offset, flag).filter(not_quiet()) == if flag == 0 || flag == 1 {
            Seq::<Move>::empty()
        } else {
            emit_list(bits_of(x), offset, flag)
        },
{
    lemma_emit_filter_by(x, offset, flag, not_quiet(), !(flag == 0 || flag == 1));
}

proof fn lemma_promotion_filter(x: u64, offset: int, base: u16)
    requires
        8 <= base <= 12,
    ensures
        promotion_list(bits_of(x), offset, base).filter(not_quiet()) == promotion_list(
            bits_of(x),
            offset,
            base,
        ),
{
    lemma_bits_of(x);
    lemma_promotion_flags(bits_of(x), offset, base);
    lemma_filter_keep(promotion_list(bits_of(x), offset, base), not_quiet());
}

proof fn lemma_piece_filter_by(from: u8, x: u64, flag: u16, pred: spec_fn(Move) -> bool, keep: bool)
    requires
        flag < 16,
        forall|m: Move| move_flags(m) == flag ==> #[trigger] pred(m) == keep,
    ensures
        piece_list(from, bits_of(x), flag).filter(pred) == if keep {
            piece_list(from, bits_of(x), flag)
        } else {
            Seq::<Move>::empty()
        },
{
    lemma_bits_of(x);
    lemma_piece_flags(from, bits_of(x), flag);
    let l = piece_list(from, bits_of(x), flag);
    if keep {
        assert forall|i: int| 0 <= i < l.len() implies pred(#[trigger] l[i]) by {
            assert(move_flags(l[i]) == flag);
        }
        lemma_filter_keep(l, pred);
    } else {
        assert forall|i: int| 0 <= i < l.len() implies !pred(#[trigger] l[i]) by {
            assert(move_flags(l[i]) == flag);
        }
        lemma_filter_drop(l, pred);
    }
}

proof fn lemma_piece_filter(from: u8, x: u64, flag: u16)
    requires
        flag < 16,
    ensures
        piece_list(from, bits_of(x), flag).filter(not_quiet()) == if flag == 0 || flag == 1 {
            Seq::<Move>::empty()
        } else {
            piece_list(from, bits_of(x), flag)
        },
{
    lemma_piece_filter_by(from, x, flag, not_quiet(), !(flag == 0 || flag == 1));
}

proof fn lemma_kind_filter(
    froms: Seq<u8>,
    kind: int,
    all_pieces: u64,
    friendlies: u64,
    enemies: u64,
)
    ensures
        kind_moves(true, true, froms, kind, all_pieces, friendlies, enemies).filter(not_quiet())
            == kind_moves(true, false, froms, kind, all_pieces, friendlies, enemies),
    decreases froms.len(),
{
    broadcast use Seq::filter_distributes_over_add;

    if froms.len() > 0 {
        let attacks = kind_attacks(kind, froms[0] as int, all_pieces, friendlies);
        lemma_piece_filter(froms[0], attacks & enemies, Move::FLAG_CAPTURE);
        lemma_piece_filter(froms[0], attacks & !all_pieces, Move::FLAG_QUIET);
        lemma_kind_filter(froms.drop_first(), kind, all_pieces, friendlies, enemies);
        let c = piece_list(froms[0], bits_of(attacks & enemies), Move::FLAG_CAPTURE);
        assert(c + Seq::<Move>::empty() =~= c);
    } else {
        reveal(Seq::filter);
    }
}

proof fn lemma_pawn_filter(pawns: u64, color: PieceColor, enemies: u64, all_pieces: u64, ep: u64)
    ensures
        crate::move_generator::spec_pawn_moves(true, true, pawns, color, enemies, all_pieces, ep).filter(
            not_quiet(),
        ) == crate::move_generator::spec_pawn_moves(
            true,
            false,
            pawns,
            color,
            enemies,
            all_pieces,
            ep,
        ),
{
    broadcast use Seq::filter_distributes_over_add;

    if color == PieceColor::White {
        let np = pawns & !RANK_7;
        let pp = pawns & RANK_7;
        lemma_emit_filter(((np & !A_FILE) << 7u64) & enemies, -7, 4);
        lemma_emit_filter(((np & !H_FILE) << 9u64) & enemies, -9, 4);
        lemma_emit_filter(((np & !A_FILE) << 7u64) & ep, -7, 5);
        lemma_emit_filter(((np & !H_FILE) << 9u64) & ep, -9, 5);
        lemma_promotion_filter(((pp & !A_FILE) << 7u64) & enemies, -7, 12);
        lemma_promotion_filter(((pp & !H_FILE) << 9u64) & enemies, -9, 12);
        lemma_promotion_filter((pp << 8u64) & !all_pieces, -8, 8);
        let single = ((pawns & !RANK_7) << 8u64) & !all_pieces;
        let double = ((single & RANK_3) << 8u64) & !all_pieces;
        lemma_emit_filter(single, -8, 0);
        lemma_emit_filter(double, -16, 1);
        let t = crate::move_generator::white_pawn_tacticals(pawns, enemies, all_pieces, ep);
        assert(t.filter(not_quiet()) == t);
        assert(t + Seq::<Move>::empty() =~= t);
    } else {
        let np = pawns & !RANK_2;
        let pp = pawns & RANK_2;
        lemma_emit_filter(((np & !H_FILE) >> 7u64) & enemies, 7, 4);
        lemma_emit_filter(((np & !A_FILE) >> 9u64) & enemies, 9, 4);
        lemma_emit_filter(((np & !H_FILE) >> 7u64) & ep, 7, 5);
        lemma_emit_filter(((np & !A_FILE) >> 9u64) & ep, 9, 5);
        lemma_promotion_filter(((pp & !H_FILE) >> 7u64) & enemies, 7, 12);
        lemma_promotion_filter(((pp & !A_FILE) >> 9u64) & enemies, 9, 12);
        lemma_promotion_filter((pp >> 8u64) & !all_pieces, 8, 8);
        let single = ((pawns & !RANK_2) >> 8u64) & !all_pieces;
        let double = ((single & RANK_6) >> 8u64) & !all_pieces;
        lemma_emit_filter(single, 8, 0);
        lemma_emit_filter(double, 16, 1);
        let t = crate::move_generator::black_pawn_tacticals(pawns, enemies, all_pieces, ep);
        assert(t.filter(not_quiet()) == t);
        assert(t + Seq::<Move>::empty() =~= t);
    }
}

proof fn lemma_castles_filter(b: BoardModel, turn: PieceColor, rights: u8, all: u64)
    ensures
        spec_castles(b, turn, rights, all).filter(not_quiet()) == spec_castles(b, turn, rights, all),
{
    let cs = spec_castles(b, turn, rights, all);
    lemma_flag_of(4, 6, 2);
    lemma_flag_of(4, 2, 3);
    lemma_flag_of(60, 62, 2);
    lemma_flag_of(60, 58, 3);
    assert forall|i: int| 0 <= i < cs.len() implies (not_quiet())(#[trigger] cs[i]) by {
        if turn == PieceColor::White {
            assert(cs[i] == spec_move(4, 6, 2) || cs[i] == spec_move(4, 2, 3));
        } else {
            assert(cs[i] == spec_move(60, 62, 2) || cs[i] == spec_move(60, 58, 3));
        }
    }
    lemma_filter_keep(cs, not_quiet());
}

/// The moves generated with captures only are the moves generated with
/// captures and quiet moves less the quiet moves and double pushes, in the
/// same order: captures (en passant ones among them), promotions and castles
/// are listed whether or not quiet moves are asked for.
#[verifier::spinoff_prover]
pub proof fn lemma_captures_only(b: BoardModel, turn: PieceColor)
    ensures
        spec_generate_moves(true, false, b, turn) == spec_generate_moves(true, true, b, turn).filter(
            not_quiet(),
        ),
{
    let np = not_quiet();
    let friendlies = b.color_bbs[color_code(turn) as int];
    let enemies = b.color_bbs[color_code(spec_flip(turn)) as int];
    let all = b.color_bbs[0] | b.color_bbs[1];
    let p1 = crate::move_generator::spec_pawn_moves(true, true, b.type_bbs[0] & friendlies, turn, enemies, all, b.en_passant);
    let p0 = crate::move_generator::spec_pawn_moves(true, false, b.type_bbs[0] & friendlies, turn, enemies, all, b.en_passant);
    let cs = spec_castles(b, turn, b.rights.bits, all);
    let k1 = kind_moves(true, true, bits_of(b.type_bbs[3] & friendlies), 0, all, friendlies, enemies);
    let k0 = kind_moves(true, false, bits_of(b.type_bbs[3] & friendlies), 0, all, friendlies, enemies);
    let l1 = kind_moves(true, true, bits_of(b.type_bbs[2] & friendlies), 1, all, friendlies, enemies);
    let l0 = kind_moves(true, false, bits_of(b.type_bbs[2] & friendlies), 1, all, friendlies, enemies);
    let m1 = kind_moves(true, true, bits_of(b.type_bbs[4] & friendlies), 2, all, friendlies, enemies);
    let m0 = kind_moves(true, false, bits_of(b.type_bbs[4] & friendlies), 2, all, friendlies, enemies);
    let n1 = kind_moves(true, true, bits_of(b.type_bbs[1] & friendlies), 3, all, friendlies, enemies);
    let n0 = kind_moves(true, false, bits_of(b.type_bbs[1] & friendlies), 3, all, friendlies, enemies);
    let o1 = kind_moves(true, true, bits_of(b.type_bbs[5] & friendlies), 4, all, friendlies, enemies);
    let o0 = kind_moves(true, false, bits_of(b.type_bbs[5] & friendlies), 4, all, friendlies, enemies);
    assert(spec_generate_moves(true, true, b, turn) == p1 + cs + k1 + l1 + m1 + n1 + o1) by {
        reveal(spec_generate_moves);
    }
    assert(spec_generate_moves(true, false, b, turn) == p0 + cs + k0 + l0 + m0 + n0 + o0) by {
        reveal(spec_generate_moves);
    }
    lemma_pawn_filter(b.type_bbs[0] & friendlies, turn, enemies, all, b.en_passant);
    lemma_castles_filter(b, turn, b.rights.bits, all);
    lemma_kind_filter(bits_of(b.type_bbs[3] & friendlies), 0, all, friendlies, enemies);
    lemma_kind_filter(bits_of(b.type_bbs[2] & friendlies), 1, all, friendlies, enemies);
    lemma_kind_filter(bits_of(b.type_bbs[4] & friendlies), 2, all, friendlies, enemies);
    lemma_kind_filter(bits_of(b.type_bbs[1] & friendlies), 3, all, friendlies, enemies);
    lemma_kind_filter(bits_of(b.type_bbs[5] & friendlies), 4, all, friendlies, enemies);
    Seq::filter_distributes_over_add(p1, cs, np);
    Seq::filter_distributes_over_add(p1 + cs, k1, np);
    Seq::filter_distributes_over_add(p1 + cs + k1, l1, np);
    Seq::filter_distributes_over_add(p1 + cs + k1 + l1, m1, np);
    Seq::filter_distributes_over_add(p1 + cs + k1 + l1 + m1, n1, np);
    Seq::filter_distributes_over_add(p1 + cs + k1 + l1 + m1 + n1, o1, np);
}

/// The move is a quiet move, a double pawn push or a castle.
pub open spec fn quiet_kind() -> spec_fn(Move) -> bool {
    |m: Move| 0 <= move_flags(m) <= 3
}

proof fn lemma_promotion_drop_quiet(x: u64, offset: int, base: u16)
    requires
        8 <= base <= 12,
    ensures
        promotion_list(bits_of(x), offset, base).filter(quiet_kind()) == Seq::<Move>::empty(),
{
    lemma_bits_of(x);
    lemma_promotion_flags(bits_of(x), offset, base);
    lemma_filter_drop(promotion_list(bits_of(x), offset, base), quiet_kind());
}

proof fn lemma_kind_quiet(froms: Seq<u8>, kind: int, all_pieces: u64, friendlies: u64, enemies: u64)
    ensures
        kind_moves(true, true, froms, kind, all_pieces, friendlies, enemies).filter(quiet_kind())
            == kind_moves(false, true, froms, kind, all_pieces, friendlies, enemies),
    decreases froms.len(),
{
    broadcast use Seq::filter_distributes_over_add;

    if froms.len() > 0 {
        let attacks = kind_attacks(kind, froms[0] as int, all_pieces, friendlies);
        lemma_piece_filter_by(froms[0], attacks & enemies, Move::FLAG_CAPTURE, quiet_kind(), false);
        lemma_piece_filter_by(froms[0], attacks & !all_pieces, Move::FLAG_QUIET, quiet_kind(), true);
        lemma_kind_quiet(froms.drop_first(), kind, all_pieces, friendlies, enemies);
        let q = piece_list(froms[0], bits_of(attacks & !all_pieces), Move::FLAG_QUIET);
        assert(Seq::<Move>::empty() + q =~= q);
    } else {
        reveal(Seq::filter);
    }
}

proof fn lemma_pawn_quiet(pawns: u64, color: PieceColor, enemies: u64, all_pieces: u64, ep: u64)
    ensures
        crate::move_generator::spec_pawn_moves(true, true, pawns, color, enemies, all_pieces, ep).filter(
            quiet_kind(),
        ) == crate::move_generator::spec_pawn_moves(
            false,
            true,
            pawns,
            color,
            enemies,
            all_pieces,
            ep,
        ),
{
    broadcast use Seq::filter_distributes_over_add;

    let qk = quiet_kind();
    if color == PieceColor::White {
        let np = pawns & !RANK_7;
        let pp = pawns & RANK_7;
        lemma_emit_filter_by(((np & !A_FILE) << 7u64) & enemies, -7, 4, qk, false);
        lemma_emit_filter_by(((np & !H_FILE) << 9u64) & enemies, -9, 4, qk, false);
        lemma_emit_filter_by(((np & !A_FILE) << 7u64) & ep, -7, 5, qk, false);
        lemma_emit_filter_by(((np & !H_FILE) << 9u64) & ep, -9, 5, qk, false);
        lemma_promotion_drop_quiet(((pp & !A_FILE) << 7u64) & enemies, -7, 12);
        lemma_promotion_drop_quiet(((pp & !H_FILE) << 9u64) & enemies, -9, 12);
        lemma_promotion_drop_quiet((pp << 8u64) & !all_pieces, -8, 8);
        let single = ((pawns & !RANK_7) << 8u64) & !all_pieces;
        let double = ((single & RANK_3) << 8u64) & !all_pieces;
        lemma_emit_filter_by(single, -8, 0, qk, true);
        lemma_emit_filter_by(double, -16, 1, qk, true);
        let t = crate::move_generator::white_pawn_tacticals(pawns, enemies, all_pieces, ep);
        assert(t.filter(qk) =~= Seq::<Move>::empty());
        let u = crate::move_generator::pawn_pushes(pawns, color, all_pieces);
        assert(Seq::<Move>::empty() + u =~= u);
    } else {
        let np = pawns & !RANK_2;
        let pp = pawns & RANK_2;
        lemma_emit_filter_by(((np & !H_FILE) >> 7u64) & enemies, 7, 4, qk, false);
        lemma_emit_filter_by(((np & !A_FILE) >> 9u64) & enemies, 9, 4, qk, false);
        lemma_emit_filter_by(((np & !H_FILE) >> 7u64) & ep, 7, 5, qk, false);
        lemma_emit_filter_by(((np & !A_FILE) >> 9u64) & ep, 9, 5, qk, false);
        lemma_promotion_drop_quiet(((pp & !H_FILE) >> 7u64) & enemies, 7, 12);
        lemma_promotion_drop_quiet(((pp & !A_FILE) >> 9u64) & enemies, 9, 12);
        lemma_promotion_drop_quiet((pp >> 8u64) & !all_pieces, 8, 8);
        let single = ((pawns & !RANK_2) >> 8u64) & !all_pieces;
        let double = ((single & RANK_6) >> 8u64) & !all_pieces;
        lemma_emit_filter_by(single, 8, 0, qk, true);
        lemma_emit_filter_by(double, 16, 1, qk, true);
        let t = crate::move_generator::black_pawn_tacticals(pawns, enemies, all_pieces, ep);
        assert(t.filter(qk) =~= Seq::<Move>::empty());
        let u = crate::move_generator::pawn_pushes(pawns, color, all_pieces);
        assert(Seq::<Move>::empty() + u =~= u);
    }
}

proof fn lemma_castles_quiet(b: BoardModel, turn: PieceColor, rights: u8, all: u64)
    ensures
        spec_castles(b, turn, rights, all).filter(quiet_kind()) == spec_castles(b, turn, rights, all),
{
    let cs = spec_castles(b, turn, rights, all);
    lemma_flag_of(4, 6, 2);
    lemma_flag_of(4, 2, 3);
    lemma_flag_of(60, 62, 2);
    lemma_flag_of(60, 58, 3);
    assert forall|i: int| 0 <= i < cs.len() implies (quiet_kind())(#[trigger] cs[i]) by {
        if turn == PieceColor::White {
            assert(cs[i] == spec_move(4, 6, 2) || cs[i] == spec_move(4, 2, 3));
        } else {
            assert(cs[i] == spec_move(60, 62, 2) || cs[i] == spec_move(60, 58, 3));
        }
    }
    lemma_filter_keep(cs, quiet_kind());
}

/// The moves generated with quiet moves only are the moves generated with
/// captures and quiet moves less everything but quiet moves, double pushes
/// and castles, in the same order.
#[verifier::spinoff_prover]
pub proof fn lemma_quiets_only(b: BoardModel, turn: PieceColor)
    ensures
        spec_generate_moves(false, true, b, turn) == spec_generate_moves(true, true, b, turn).filter(
            quiet_kind(),
        ),
{
    let qk = quiet_kind();
    let friendlies = b.color_bbs[color_code(turn) as int];
    let enemies = b.color_bbs[color_code(spec_flip(turn)) as int];
    let all = b.color_bbs[0] | b.color_bbs[1];
    let p1 = crate::move_generator::spec_pawn_moves(true, true, b.type_bbs[0] & friendlies, turn, enemies, all, b.en_passant);
    let p0 = crate::move_generator::spec_pawn_moves(false, true, b.type_bbs[0] & friendlies, turn, enemies, all, b.en_passant);
    let cs = spec_castles(b, turn, b.rights.bits, all);
    let k1 = kind_moves(true, true, bits_of(b.type_bbs[3] & friendlies), 0, all, friendlies, enemies);
    let k0 = kind_moves(false, true, bits_of(b.type_bbs[3] & friendlies), 0, all, friendlies, enemies);
    let l1 = kind_moves(true, true, bits_of(b.type_bbs[2] & friendlies), 1, all, friendlies, enemies);
    let l0 = kind_moves(false, true, bits_of(b.type_bbs[2] & friendlies), 1, all, friendlies, enemies);
    let m1 = kind_moves(true, true, bits_of(b.type_bbs[4] & friendlies), 2, all, friendlies, enemies);
    let m0 = kind_moves(false, true, bits_of(b.type_bbs[4] & friendlies), 2, all, friendlies, enemies);
    let n1 = kind_moves(true, true, bits_of(b.type_bbs[1] & friendlies), 3, all, friendlies, enemies);
    let n0 = kind_moves(false, true, bits_of(b.type_bbs[1] & friendlies), 3, all, friendlies, enemies);
    let o1 = kind_moves(true, true, bits_of(b.type_bbs[5] & friendlies), 4, all, friendlies, enemies);
    let o0 = kind_moves(false, true, bits_of(b.type_bbs[5] & friendlies), 4, all, friendlies, enemies);
    assert(spec_generate_moves(true, true, b, turn) == p1 + cs + k1 + l1 + m1 + n1 + o1) by {
        reveal(spec_generate_moves);
    }
    assert(spec_generate_moves(false, true, b, turn) == p0 + cs + k0 + l0 + m0 + n0 + o0) by {
        reveal(spec_generate_moves);
    }
    lemma_pawn_quiet(b.type_bbs[0] & friendlies, turn, enemies, all, b.en_passant);
    lemma_castles_quiet(b, turn, b.rights.bits, all);
    lemma_kind_quiet(bits_of(b.type_bbs[3] & friendlies), 0, all, friendlies, enemies);
    lemma_kind_quiet(bits_of(b.type_bbs[2] & friendlies), 1, all, friendlies, enemies);
    lemma_kind_quiet(bits_of(b.type_bbs[4] & friendlies), 2, all, friendlies, enemies);
    lemma_kind_quiet(bits_of(b.type_bbs[1] & friendlies), 3, all, friendlies, enemies);
    lemma_kind_quiet(bits_of(b.type_bbs[5] & friendlies), 4, all, friendlies, enemies);
    Seq::filter_distributes_over_add(p1, cs, qk);
    Seq::filter_distributes_over_add(p1 + cs, k1, qk);
    Seq::filter_distributes_over_add(p1 + cs + k1, l1, qk);
    Seq::filter_distributes_over_add(p1 + cs + k1 + l1, m1, qk);
    Seq::filter_distributes_over_add(p1 + cs + k1 + l1 + m1, n1, qk);
    Seq::filter_distributes_over_add(p1 + cs + k1 + l1 + m1 + n1, o1, qk);
}

} // verus!
