use vstd::prelude::*;

verus! {

use crate::bitboard::{
    bb_set, lemma_bb_and, lemma_bb_empty, lemma_bb_ext, lemma_bb_not, lemma_bb_or, lemma_bb_single,
};
use crate::bitboard::{bits_of, A_FILE, H_FILE};
use crate::board::{
    BoardModel, color_squares, lemma_do_wf, lemma_make, lemma_placed, m_do_move, m_wf, move_sound,
    placed_piece, type_squares,
};
use crate::move_generator::{
    attacked_on, spec_bishop_attacks, spec_is_in_check, spec_king_attacks, spec_knight_attacks,
    spec_ray, spec_rook_attacks,
};
use crate::moves::{Move, move_from, move_to, spec_is_castle, spec_is_en_passant, spec_is_promotion};
use crate::piece::{color_code, spec_flip, spec_get_color, spec_get_type, type_code};

/// A ray is the same without a piece it does not reach.
proof fn lemma_ray_unseen(x: int, y: int, dx: int, dy: int, occ: u64, f: int, n: nat)
    requires
        0 <= f < 64,
        !bb_set(spec_ray(x, y, dx, dy, occ, n)).contains(f),
    ensures
        spec_ray(x, y, dx, dy, occ & !(1u64 << (f as u64)), n) == spec_ray(x, y, dx, dy, occ, n),
    decreases n,
{
    if n > 0 {
        let nx = x + dx;
        let ny = y + dy;
        if 0 <= nx < 8 && 0 <= ny < 8 {
            let sq = nx + ny * 8;
            let bit = 1u64 << (sq as u64);
            let fb = 1u64 << (f as u64);
            let occ1 = occ & !fb;
            lemma_bb_single(sq as u64);
            lemma_bb_single(f as u64);
            lemma_bb_not(fb);
            lemma_bb_and(occ, !fb);
            lemma_bb_and(bit, occ);
            lemma_bb_and(bit, occ1);
            lemma_bb_empty(bit & occ);
            lemma_bb_empty(bit & occ1);
            if bit & occ != 0 {
                if !bb_set(occ).contains(sq) {
                    assert(bb_set(bit & occ) =~= Set::<int>::empty());
                }
                assert(sq != f);
                assert(bb_set(bit & occ1).contains(sq));
            } else {
                assert(bb_set(bit & occ1) =~= Set::<int>::empty()) by {
                    assert(bb_set(bit & occ) =~= Set::<int>::empty());
                }
                let rest = spec_ray(nx, ny, dx, dy, occ, (n - 1) as nat);
                lemma_bb_or(bit, rest);
                lemma_ray_unseen(nx, ny, dx, dy, occ, f, (n - 1) as nat);
            }
        }
    }
}

/// A ray with one more piece in the way reaches no square it did not reach before.
proof fn lemma_ray_block(x: int, y: int, dx: int, dy: int, occ: u64, t: int, n: nat)
    requires
        0 <= t < 64,
    ensures
        bb_set(spec_ray(x, y, dx, dy, occ | (1u64 << (t as u64)), n)).subset_of(
            bb_set(spec_ray(x, y, dx, dy, occ, n)),
        ),
    decreases n,
{
    if n > 0 {
        let nx = x + dx;
        let ny = y + dy;
        if 0 <= nx < 8 && 0 <= ny < 8 {
            let sq = nx + ny * 8;
            let bit = 1u64 << (sq as u64);
            let tb = 1u64 << (t as u64);
            let occ2 = occ | tb;
            lemma_bb_single(sq as u64);
            lemma_bb_or(occ, tb);
            lemma_bb_and(bit, occ);
            lemma_bb_and(bit, occ2);
            lemma_bb_empty(bit & occ);
            lemma_bb_empty(bit & occ2);
            let rest = spec_ray(nx, ny, dx, dy, occ, (n - 1) as nat);
            let rest2 = spec_ray(nx, ny, dx, dy, occ2, (n - 1) as nat);
            lemma_bb_or(bit, rest);
            lemma_bb_or(bit, rest2);
            if bit & occ2 == 0 {
                assert(bb_set(bit & occ) =~= Set::<int>::empty()) by {
                    assert(bb_set(bit & occ2) =~= Set::<int>::empty());
                    assert(bb_set(bit & occ).subset_of(bb_set(bit & occ2)));
                }
                lemma_ray_block(nx, ny, dx, dy, occ, t, (n - 1) as nat);
            }
        }
    }
}

proof fn lemma_or4(a: u64, b: u64, c: u64, d: u64)
    ensures
        bb_set((((0u64 | a) | b) | c) | d) == bb_set(a).union(bb_set(b)).union(bb_set(c)).union(
            bb_set(d),
        ),
{
    crate::bitboard::lemma_bb_zero();
    lemma_bb_or(0u64, a);
    lemma_bb_or(0u64 | a, b);
    lemma_bb_or((0u64 | a) | b, c);
    lemma_bb_or(((0u64 | a) | b) | c, d);
    assert(bb_set(0u64 | a) =~= bb_set(a));
}

/// One ray after a piece the king does not see leaves and another piece arrives.
proof fn lemma_ray_after(x: int, y: int, dx: int, dy: int, occ: u64, f: int, t: int)
    requires
        0 <= f < 64,
        0 <= t < 64,
        !bb_set(spec_ray(x, y, dx, dy, occ, 8)).contains(f),
    ensures
        bb_set(
            spec_ray(x, y, dx, dy, (occ & !(1u64 << (f as u64))) | (1u64 << (t as u64)), 8),
        ).subset_of(bb_set(spec_ray(x, y, dx, dy, occ, 8))),
{
    lemma_ray_unseen(x, y, dx, dy, occ, f, 8);
    lemma_ray_block(x, y, dx, dy, occ & !(1u64 << (f as u64)), t, 8);
}

/// A rook and a bishop on `k` see no new square after a piece they do not see
/// leaves the board's occupancy and another square is filled.
pub proof fn lemma_sliders_after(k: int, occ: u64, f: int, t: int)
    requires
        0 <= k < 64,
        0 <= f < 64,
        0 <= t < 64,
        !bb_set(spec_rook_attacks(k, occ) | spec_bishop_attacks(k, occ)).contains(f),
    ensures
        bb_set(
            spec_rook_attacks(k, (occ & !(1u64 << (f as u64))) | (1u64 << (t as u64))),
        ).subset_of(bb_set(spec_rook_attacks(k, occ))),
        bb_set(
            spec_bishop_attacks(k, (occ & !(1u64 << (f as u64))) | (1u64 << (t as u64))),
        ).subset_of(bb_set(spec_bishop_attacks(k, occ))),
{
    let x = k % 8;
    let y = k / 8;
    let o = (occ & !(1u64 << (f as u64))) | (1u64 << (t as u64));
    lemma_bb_or(spec_rook_attacks(k, occ), spec_bishop_attacks(k, occ));
    lemma_or4(
        spec_ray(x, y, 0, -1, occ, 8),
        spec_ray(x, y, 0, 1, occ, 8),
        spec_ray(x, y, -1, 0, occ, 8),
        spec_ray(x, y, 1, 0, occ, 8),
    );
    lemma_or4(
        spec_ray(x, y, 0, -1, o, 8),
        spec_ray(x, y, 0, 1, o, 8),
        spec_ray(x, y, -1, 0, o, 8),
        spec_ray(x, y, 1, 0, o, 8),
    );
    lemma_or4(
        spec_ray(x, y, 1, 1, occ, 8),
        spec_ray(x, y, -1, -1, occ, 8),
        spec_ray(x, y, 1, -1, occ, 8),
        spec_ray(x, y, -1, 1, occ, 8),
    );
    lemma_or4(
        spec_ray(x, y, 1, 1, o, 8),
        spec_ray(x, y, -1, -1, o, 8),
        spec_ray(x, y, 1, -1, o, 8),
        spec_ray(x, y, -1, 1, o, 8),
    );
    lemma_ray_after(x, y, 0, -1, occ, f, t);
    lemma_ray_after(x, y, 0, 1, occ, f, t);
    lemma_ray_after(x, y, -1, 0, occ, f, t);
    lemma_ray_after(x, y, 1, 0, occ, f, t);
    lemma_ray_after(x, y, 1, 1, occ, f, t);
    lemma_ray_after(x, y, -1, -1, occ, f, t);
    lemma_ray_after(x, y, 1, -1, occ, f, t);
    lemma_ray_after(x, y, -1, 1, occ, f, t);
}

/// The squares a queen on `k` sees past the pieces `occ`.
pub open spec fn seen_from(k: int, occ: u64) -> u64 {
    spec_rook_attacks(k, occ) | spec_bishop_attacks(k, occ)
}

/// The lowest king of the side to move stands on `k` and is not attacked, and
/// `seen` holds the squares a queen on `k` would see.
pub open spec fn safe_king(b: BoardModel, k: int, seen: u64) -> bool {
    let kings = b.type_bbs[5] & b.color_bbs[color_code(b.turn) as int];
    &&& kings != 0
    &&& k == bits_of(kings)[0]
    &&& !attacked_on(b.color_bbs, b.type_bbs, k, spec_flip(b.turn))
    &&& seen == seen_from(k, b.color_bbs[0] | b.color_bbs[1])
}

/// A square's bit meets a bitboard exactly when the square is one of its squares.
pub proof fn lemma_bit_in(s: int, x: u64)
    requires
        0 <= s < 64,
    ensures
        ((1u64 << (s as u64)) & x != 0) == bb_set(x).contains(s),
{
    lemma_bb_single(s as u64);
    lemma_bb_and(1u64 << (s as u64), x);
    lemma_bb_empty((1u64 << (s as u64)) & x);
    if bb_set(x).contains(s) {
        assert(bb_set((1u64 << (s as u64)) & x).contains(s));
    } else {
        assert(bb_set((1u64 << (s as u64)) & x) =~= Set::<int>::empty());
    }
}

proof fn lemma_meet_mono(x: u64, a: u64, y: u64, z: u64)
    requires
        bb_set(x).subset_of(bb_set(y)),
        bb_set(a).subset_of(bb_set(z)),
        x & a != 0,
    ensures
        y & z != 0,
{
    lemma_bb_and(x, a);
    lemma_bb_and(y, z);
    lemma_bb_empty(x & a);
    lemma_bb_empty(y & z);
    if y & z == 0 {
        assert forall|s: int| !bb_set(x & a).contains(s) by {
            if bb_set(x & a).contains(s) {
                assert(bb_set(y & z).contains(s));
            }
        }
        assert(bb_set(x & a) =~= Set::<int>::empty());
    }
}

proof fn lemma_sub_meet(p: u64, q: u64)
    requires
        bb_set(p).subset_of(bb_set(q)),
    ensures
        p & !q == 0,
{
    lemma_bb_not(q);
    lemma_bb_and(p, !q);
    lemma_bb_empty(p & !q);
    assert(bb_set(p & !q) =~= Set::<int>::empty());
}

proof fn lemma_pawn_attacks_mono(p: u64, q: u64, kb: u64)
    by (bit_vector)
    requires
        p & !q == 0,
    ensures
        (((p & !A_FILE) << 7u64) | ((p & !H_FILE) << 9u64)) & kb != 0 ==> (((q & !A_FILE) << 7u64)
            | ((q & !H_FILE) << 9u64)) & kb != 0,
        (((p & !A_FILE) >> 9u64) | ((p & !H_FILE) >> 7u64)) & kb != 0 ==> (((q & !A_FILE) >> 9u64)
            | ((q & !H_FILE) >> 7u64)) & kb != 0,
{
}

/// The pieces of one type and colour after a move, as a subset of those before.
proof fn lemma_pieces_sub(
    a: BoardModel,
    b: BoardModel,
    t1: int,
    t2: int,
    e: int,
)
    requires
        m_wf(a),
        m_wf(b),
        0 <= t1 < 6,
        0 <= t2 < 6,
        0 <= e < 2,
        forall|s: int|
            #![trigger color_squares(a.mailbox, e).contains(s)]
            color_squares(a.mailbox, e).contains(s) ==> a.mailbox[s] == b.mailbox[s],
    ensures
        bb_set((a.type_bbs[t1] | a.type_bbs[t2]) & a.color_bbs[e]).subset_of(
            bb_set((b.type_bbs[t1] | b.type_bbs[t2]) & b.color_bbs[e]),
        ),
        bb_set(a.type_bbs[t1] & a.color_bbs[e]).subset_of(bb_set(b.type_bbs[t1] & b.color_bbs[e])),
{
    lemma_bb_or(a.type_bbs[t1], a.type_bbs[t2]);
    lemma_bb_or(b.type_bbs[t1], b.type_bbs[t2]);
    lemma_bb_and(a.type_bbs[t1] | a.type_bbs[t2], a.color_bbs[e]);
    lemma_bb_and(b.type_bbs[t1] | b.type_bbs[t2], b.color_bbs[e]);
    lemma_bb_and(a.type_bbs[t1], a.color_bbs[e]);
    lemma_bb_and(b.type_bbs[t1], b.color_bbs[e]);
    assert(bb_set(a.type_bbs[t1]) == type_squares(a.mailbox, t1));
    assert(bb_set(a.type_bbs[t2]) == type_squares(a.mailbox, t2));
    assert(bb_set(b.type_bbs[t1]) == type_squares(b.mailbox, t1));
    assert(bb_set(b.type_bbs[t2]) == type_squares(b.mailbox, t2));
    assert(bb_set(a.color_bbs[e]) == color_squares(a.mailbox, e));
    assert(bb_set(b.color_bbs[e]) == color_squares(b.mailbox, e));
}

/// A move that is neither en passant nor a castle, of a piece of the side to
/// move other than a king, from a square its unattacked king does not see, to
/// a square without a piece of its own, leaves that king unattacked.
pub proof fn lemma_unseen_move_safe(b: BoardModel, mv: Move, k: int, seen: u64)
    requires
        m_wf(b),
        move_sound(b, mv),
        safe_king(b, k, seen),
        !spec_is_en_passant(mv),
        !spec_is_castle(mv),
        (1u64 << (move_from(mv) as u64)) & b.color_bbs[color_code(b.turn) as int] != 0,
        (1u64 << (move_from(mv) as u64)) & b.type_bbs[5] == 0,
        (1u64 << (move_to(mv) as u64)) & b.color_bbs[color_code(b.turn) as int] == 0,
        (1u64 << (move_from(mv) as u64)) & seen == 0,
    ensures
        !spec_is_in_check(m_do_move(b, mv), b.turn),
{
    let f = move_from(mv);
    let t = move_to(mv);
    let c = color_code(b.turn) as int;
    let e = color_code(spec_flip(b.turn)) as int;
    let a = m_do_move(b, mv);
    let mb = b.mailbox;
    let ma = a.mailbox;
    let placed = placed_piece(b, mv);
    lemma_do_wf(b, mv);
    lemma_placed(b, mv);
    assert(ma == mb.update(f, 7).update(t, placed));
    lemma_bit_in(f, b.color_bbs[c]);
    lemma_bit_in(f, b.type_bbs[5]);
    lemma_bit_in(t, b.color_bbs[c]);
    lemma_bit_in(f, seen);
    assert(bb_set(b.color_bbs[c]) == color_squares(mb, c));
    assert(bb_set(b.type_bbs[5]) == type_squares(mb, 5));
    assert(mb[f] != 7 && color_code(spec_get_color(mb[f])) == c);
    assert(type_code(spec_get_type(mb[f])) != 5);
    assert(spec_get_color(placed) == spec_get_color(mb[f]));
    assert(type_code(spec_get_type(placed)) != 5) by {
        if spec_is_promotion(mv) {
            lemma_make(crate::moves::spec_promotion_type(mv).unwrap(), spec_get_color(mb[f]));
        }
    }
    // Enemy pieces after the move stood where they were.
    assert forall|s: int|
        #![trigger color_squares(ma, e).contains(s)]
        color_squares(ma, e).contains(s) implies ma[s] == mb[s] by {
        if s == t || s == f {
        }
    }
    lemma_pieces_sub(a, b, 1, 1, e);
    lemma_pieces_sub(a, b, 5, 5, e);
    lemma_pieces_sub(a, b, 3, 4, e);
    lemma_pieces_sub(a, b, 2, 4, e);
    lemma_pieces_sub(a, b, 0, 0, e);
    // The king of the side to move stays where it was.
    let ka = a.type_bbs[5] & a.color_bbs[c];
    let kb = b.type_bbs[5] & b.color_bbs[c];
    lemma_bb_and(a.type_bbs[5], a.color_bbs[c]);
    lemma_bb_and(b.type_bbs[5], b.color_bbs[c]);
    assert(bb_set(a.type_bbs[5]) == type_squares(ma, 5));
    assert(bb_set(a.color_bbs[c]) == color_squares(ma, c));
    assert(bb_set(ka) =~= bb_set(kb)) by {
        assert forall|s: int| bb_set(ka).contains(s) == bb_set(kb).contains(s) by {
            if s == t || s == f {
            }
        }
    }
    lemma_bb_ext(ka, kb);
    // The occupancy loses the origin and gains the target.
    let all_a = a.color_bbs[0] | a.color_bbs[1];
    let all_b = b.color_bbs[0] | b.color_bbs[1];
    let fb = 1u64 << (f as u64);
    let tb = 1u64 << (t as u64);
    lemma_bb_or(a.color_bbs[0], a.color_bbs[1]);
    lemma_bb_or(b.color_bbs[0], b.color_bbs[1]);
    lemma_bb_single(f as u64);
    lemma_bb_single(t as u64);
    lemma_bb_not(fb);
    lemma_bb_and(all_b, !fb);
    lemma_bb_or(all_b & !fb, tb);
    assert(bb_set(a.color_bbs[0]) == color_squares(ma, 0));
    assert(bb_set(a.color_bbs[1]) == color_squares(ma, 1));
    assert(bb_set(b.color_bbs[0]) == color_squares(mb, 0));
    assert(bb_set(b.color_bbs[1]) == color_squares(mb, 1));
    assert(bb_set(all_a) =~= bb_set((all_b & !fb) | tb)) by {
        assert forall|s: int| bb_set(all_a).contains(s) == bb_set((all_b & !fb) | tb).contains(s) by {
            if 0 <= s < 64 {
                assert(color_code(spec_get_color(ma[s])) == 0 || color_code(spec_get_color(ma[s])) == 1);
                assert(color_code(spec_get_color(mb[s])) == 0 || color_code(spec_get_color(mb[s])) == 1);
            }
        }
    }
    lemma_bb_ext(all_a, (all_b & !fb) | tb);
    crate::king_safety::lemma_sliders_after(k, all_b, f, t);
    // Each kind of attack on the king square was there before.
    let kbit = 1u64 << (k as u64);
    let attacker = spec_flip(b.turn);
    if spec_knight_attacks(k) & (a.type_bbs[1] & a.color_bbs[e]) != 0 {
        lemma_meet_mono(spec_knight_attacks(k), a.type_bbs[1] & a.color_bbs[e], spec_knight_attacks(k), b.type_bbs[1] & b.color_bbs[e]);
    }
    if spec_king_attacks(k) & (a.type_bbs[5] & a.color_bbs[e]) != 0 {
        lemma_meet_mono(spec_king_attacks(k), a.type_bbs[5] & a.color_bbs[e], spec_king_attacks(k), b.type_bbs[5] & b.color_bbs[e]);
    }
    if spec_rook_attacks(k, all_a) & ((a.type_bbs[3] | a.type_bbs[4]) & a.color_bbs[e]) != 0 {
        lemma_meet_mono(
            spec_rook_attacks(k, all_a),
            (a.type_bbs[3] | a.type_bbs[4]) & a.color_bbs[e],
            spec_rook_attacks(k, all_b),
            (b.type_bbs[3] | b.type_bbs[4]) & b.color_bbs[e],
        );
    }
    if spec_bishop_attacks(k, all_a) & ((a.type_bbs[2] | a.type_bbs[4]) & a.color_bbs[e]) != 0 {
        lemma_meet_mono(
            spec_bishop_attacks(k, all_a),
            (a.type_bbs[2] | a.type_bbs[4]) & a.color_bbs[e],
            spec_bishop_attacks(k, all_b),
            (b.type_bbs[2] | b.type_bbs[4]) & b.color_bbs[e],
        );
    }
    lemma_sub_meet(a.type_bbs[0] & a.color_bbs[e], b.type_bbs[0] & b.color_bbs[e]);
    lemma_pawn_attacks_mono(a.type_bbs[0] & a.color_bbs[e], b.type_bbs[0] & b.color_bbs[e], kbit);
    assert(!attacked_on(a.color_bbs, a.type_bbs, k, attacker));
}

} // verus!
