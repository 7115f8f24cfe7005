use vstd::prelude::*;

verus! {

use crate::bitboard::{
    Bitboard, bb_set, lemma_bb_or, lemma_bb_and, lemma_bb_not, lemma_bb_single, lemma_bb_ext, lemma_bb_zero,
};
use crate::moves::{
    Move, UndoList, UndoMove, move_from, move_to, move_flags, spec_is_capture, spec_is_promotion,
    spec_is_en_passant, spec_is_double_pawn, spec_is_castle, spec_promotion_type,
};
use crate::piece::{
    Piece, PieceColor, PieceType, PieceTrait, NO_PIECE, color_code, type_code, spec_get_color,
    spec_get_type, spec_make, spec_flip, color_index, type_index,
};
use crate::squares::Squares;

/// The four castling rights, one bit each: white king side 8, white queen
/// side 4, black king side 2, black queen side 1.
#[derive(Debug, Clone, Copy, PartialEq, Eq, Default, Structural)]
pub struct CastlingRights {
    pub bits: u8,
}

impl CastlingRights {
    pub open spec fn spec_bits(self) -> u8 {
        self.bits
    }

    pub fn empty() -> (r: Self)
        ensures
            r.spec_bits() == 0,
    {
        CastlingRights { bits: 0 }
    }

    pub fn white_king() -> (r: Self)
        ensures
            r.spec_bits() == 0b1000,
    {
        CastlingRights { bits: 0b1000 }
    }

    pub fn white_queen() -> (r: Self)
        ensures
            r.spec_bits() == 0b0100,
    {
        CastlingRights { bits: 0b0100 }
    }

    pub fn black_king() -> (r: Self)
        ensures
            r.spec_bits() == 0b0010,
    {
        CastlingRights { bits: 0b0010 }
    }

    pub fn black_queen() -> (r: Self)
        ensures
            r.spec_bits() == 0b0001,
    {
        CastlingRights { bits: 0b0001 }
    }

    pub fn white() -> (r: Self)
        ensures
            r.spec_bits() == 0b1100,
    {
        CastlingRights { bits: 0b1100 }
    }

    pub fn black() -> (r: Self)
        ensures
            r.spec_bits() == 0b0011,
    {
        CastlingRights { bits: 0b0011 }
    }

    pub fn queen() -> (r: Self)
        ensures
            r.spec_bits() == 0b0101,
    {
        CastlingRights { bits: 0b0101 }
    }

    pub fn king() -> (r: Self)
        ensures
            r.spec_bits() == 0b1010,
    {
        CastlingRights { bits: 0b1010 }
    }

    pub fn all() -> (r: Self)
        ensures
            r.spec_bits() == 0b1111,
    {
        CastlingRights { bits: 0b1111 }
    }

    pub fn bits(self) -> (r: u8)
        ensures
            r == self.spec_bits(),
    {
        self.bits
    }

    pub fn from_bits_retain(bits: u8) -> (r: Self)
        ensures
            r.spec_bits() == bits,
    {
        CastlingRights { bits }
    }

    pub fn is_empty(self) -> (r: bool)
        ensures
            r == (self.spec_bits() == 0),
    {
        self.bits == 0
    }

    pub fn intersection(self, other: Self) -> (r: Self)
        ensures
            r.spec_bits() == self.spec_bits() & other.spec_bits(),
    {
        CastlingRights { bits: self.bits & other.bits }
    }

    pub fn union(self, other: Self) -> (r: Self)
        ensures
            r.spec_bits() == self.spec_bits() | other.spec_bits(),
    {
        CastlingRights { bits: self.bits | other.bits }
    }

    pub fn difference(self, other: Self) -> (r: Self)
        ensures
            r.spec_bits() == self.spec_bits() & !other.spec_bits(),
    {
        CastlingRights { bits: self.bits & !other.bits }
    }

    pub fn insert(&mut self, other: Self)
        ensures
            final(self).spec_bits() == old(self).spec_bits() | other.spec_bits(),
    {
        self.bits = self.bits | other.bits;
    }

    pub fn contains(self, other: Self) -> (r: bool)
        ensures
            r == (self.spec_bits() & other.spec_bits() == other.spec_bits()),
    {
        self.bits & other.bits == other.bits
    }
}

/// The rights that stay after a move from or to `sq`: moving a king or a
/// rook off its home square, or capturing on a rook's home square, loses the
/// matching rights.
pub open spec fn spec_rights_mask(sq: int) -> u8 {
    if sq == 0 {
        0b1011
    } else if sq == 4 {
        0b0011
    } else if sq == 7 {
        0b0111
    } else if sq == 56 {
        0b1110
    } else if sq == 60 {
        0b1100
    } else if sq == 63 {
        0b1101
    } else {
        0b1111
    }
}

proof fn lemma_rights_bits(x: u8)
    by (bit_vector)
    ensures
        0b1111u8 & !0b0100u8 == 0b1011u8,
        0b1111u8 & !0b1100u8 == 0b0011u8,
        0b1111u8 & !0b1000u8 == 0b0111u8,
        0b1111u8 & !0b0001u8 == 0b1110u8,
        0b1111u8 & !0b0011u8 == 0b1100u8,
        0b1111u8 & !0b0010u8 == 0b1101u8,
{
}

/// The rights mask of a square.
pub fn castling_rights_mask(sq: u8) -> (r: CastlingRights)
    ensures
        r.bits == spec_rights_mask(sq as int),
{
    proof {
        lemma_rights_bits(0);
    }
    if sq == Squares::A1 {
        CastlingRights::all().difference(CastlingRights::white_queen())
    } else if sq == Squares::E1 {
        CastlingRights::all().difference(CastlingRights::white())
    } else if sq == Squares::H1 {
        CastlingRights::all().difference(CastlingRights::white_king())
    } else if sq == Squares::A8 {
        CastlingRights::all().difference(CastlingRights::black_queen())
    } else if sq == Squares::E8 {
        CastlingRights::all().difference(CastlingRights::black())
    } else if sq == Squares::H8 {
        CastlingRights::all().difference(CastlingRights::black_king())
    } else {
        CastlingRights::all()
    }
}

/// The state of a board, as mathematical values.
pub struct BoardModel {
    /// One bitboard per colour, White first.
    pub color_bbs: Seq<u64>,
    /// One bitboard per piece type, Pawn to King.
    pub type_bbs: Seq<u64>,
    pub turn: PieceColor,
    pub en_passant: u64,
    pub rights: CastlingRights,
    /// The piece on each square, `7` where there is none.
    pub mailbox: Seq<u8>,
    pub undo: Seq<UndoMove>,
    pub half: u8,
    pub full: u16,
}

/// The board after `put_piece(piece, index)`.
pub open spec fn m_put(b: BoardModel, piece: u8, index: int) -> BoardModel {
    let bit = 1u64 << (index as u64);
    let c = color_code(spec_get_color(piece)) as int;
    let t = type_code(spec_get_type(piece)) as int;
    BoardModel {
        color_bbs: b.color_bbs.update(c, b.color_bbs[c] | bit),
        type_bbs: b.type_bbs.update(t, b.type_bbs[t] | bit),
        mailbox: b.mailbox.update(index, piece),
        ..b
    }
}

/// The board after `remove_piece(index)`.
pub open spec fn m_remove(b: BoardModel, index: int) -> BoardModel {
    let bit = 1u64 << (index as u64);
    let piece = b.mailbox[index];
    let c = color_code(spec_get_color(piece)) as int;
    let t = type_code(spec_get_type(piece)) as int;
    BoardModel {
        color_bbs: b.color_bbs.update(c, b.color_bbs[c] & !bit),
        type_bbs: b.type_bbs.update(t, b.type_bbs[t] & !bit),
        mailbox: b.mailbox.update(index, 7),
        ..b
    }
}

/// The board after the piece on `from` is moved to `to`.
pub open spec fn m_move_piece(b: BoardModel, from: int, to: int) -> BoardModel {
    m_put(m_remove(b, from), b.mailbox[from], to)
}

/// `remove_piece(index)` can run: the square is on the board and holds a piece.
pub open spec fn removable(b: BoardModel, index: int) -> bool {
    0 <= index < 64 && type_code(spec_get_type(b.mailbox[index])) < 6
}

/// The piece a move leaves on its target square.
pub open spec fn placed_piece(b: BoardModel, mv: Move) -> u8 {
    let moving = b.mailbox[move_from(mv)];
    if spec_is_promotion(mv) {
        spec_make(spec_promotion_type(mv).unwrap(), spec_get_color(moving))
    } else {
        moving
    }
}

/// The board after the counters of a move were stepped.
pub open spec fn m_step_counters(b: BoardModel, mv: Move) -> BoardModel {
    let mc = spec_get_color(b.mailbox[move_from(mv)]);
    BoardModel {
        half: (b.half + 1) as u8,
        full: if mc == PieceColor::Black {
            (b.full + 1) as u16
        } else {
            b.full
        },
        ..b
    }
}

/// The board after a move's side effect: the pawn taken en passant, or the
/// rook of a castle.
pub open spec fn m_side_effect(b: BoardModel, mv: Move, mc: PieceColor) -> BoardModel {
    let from = move_from(mv);
    let to = move_to(mv);
    if spec_is_en_passant(mv) {
        if mc == PieceColor::White {
            m_remove(b, to - 8)
        } else {
            m_remove(b, to + 8)
        }
    } else if spec_is_castle(mv) {
        if move_flags(mv) == 2 {
            m_move_piece(b, from + 3, from + 1)
        } else {
            m_move_piece(b, from - 4, from - 1)
        }
    } else {
        b
    }
}

/// The board after the rights and the en passant square of a move were set.
pub open spec fn m_update_flags(b: BoardModel, mv: Move) -> BoardModel {
    let from = move_from(mv);
    let to = move_to(mv);
    BoardModel {
        rights: CastlingRights {
            bits: b.rights.bits & spec_rights_mask(from) & spec_rights_mask(to),
        },
        en_passant: if spec_is_double_pawn(mv) {
            1u64 << (((from + to) / 2) as u64)
        } else {
            0
        },
        ..b
    }
}

/// The move takes the piece on its target square.
pub open spec fn takes_on_target(mv: Move) -> bool {
    spec_is_capture(mv) && !spec_is_en_passant(mv)
}

/// The intermediate boards of `do_move`, in order.
pub open spec fn m_do_stage1(b: BoardModel, mv: Move) -> BoardModel {
    m_update_flags(
        m_side_effect(m_step_counters(b, mv), mv, spec_get_color(b.mailbox[move_from(mv)])),
        mv,
    )
}

pub open spec fn m_do_stage2(b: BoardModel, mv: Move) -> BoardModel {
    let s1 = m_do_stage1(b, mv);
    let s2 = if takes_on_target(mv) {
        m_remove(s1, move_to(mv))
    } else {
        s1
    };
    m_remove(BoardModel { turn: spec_flip(s2.turn), ..s2 }, move_from(mv))
}

/// The piece a move takes: the piece on the target square when `do_move` removes it.
pub open spec fn taken_piece(b: BoardModel, mv: Move) -> u8 {
    if takes_on_target(mv) {
        m_do_stage1(b, mv).mailbox[move_to(mv)]
    } else {
        7
    }
}

/// The undo record that `do_move` pushes.
pub open spec fn undo_record(b: BoardModel, mv: Move) -> UndoMove {
    UndoMove {
        mv,
        taken_piece: taken_piece(b, mv),
        castling_rights: b.rights,
        en_passant_bb: b.en_passant,
        half_move_counter: b.half,
        full_move_counter: b.full,
    }
}

/// The board after `do_move(mv)`.
pub open spec fn m_do_move(b: BoardModel, mv: Move) -> BoardModel {
    let s = m_put(m_do_stage2(b, mv), placed_piece(b, mv), move_to(mv));
    BoardModel { undo: b.undo.push(undo_record(b, mv)), ..s }
}

/// `do_move(mv)` runs on `b` without a panic.
pub open spec fn do_move_safe(b: BoardModel, mv: Move) -> bool {
    let from = move_from(mv);
    let to = move_to(mv);
    let mc = spec_get_color(b.mailbox[from]);
    let c0 = m_step_counters(b, mv);
    let s1 = m_do_stage1(b, mv);
    let s2 = if takes_on_target(mv) {
        m_remove(s1, to)
    } else {
        s1
    };
    &&& b.half < 255
    &&& mc == PieceColor::Black ==> b.full < 65535
    &&& b.undo.len() < 256
    &&& type_code(spec_get_type(placed_piece(b, mv))) < 6
    &&& spec_is_en_passant(mv) ==> if mc == PieceColor::White {
        to >= 8 && removable(c0, to - 8)
    } else {
        removable(c0, to + 8)
    }
    &&& (!spec_is_en_passant(mv) && spec_is_castle(mv) && move_flags(mv) == 2) ==> removable(
        c0,
        from + 3,
    ) && from + 1 < 64
    &&& (!spec_is_en_passant(mv) && spec_is_castle(mv) && move_flags(mv) == 3) ==> from >= 4
        && removable(c0, from - 4)
    &&& takes_on_target(mv) ==> removable(s1, to)
    &&& removable(s2, from)
}

/// The board after `undo_move`.
pub open spec fn m_undo_move(b: BoardModel) -> BoardModel {
    if b.undo.len() == 0 {
        b
    } else {
        let u = b.undo.last();
        let from = move_from(u.mv);
        let to = move_to(u.mv);
        let b0 = BoardModel {
            undo: b.undo.drop_last(),
            half: u.half_move_counter,
            full: u.full_move_counter,
            ..b
        };
        let mc = spec_get_color(b0.mailbox[to]);
        let b1 = m_move_piece(b0, to, from);
        let b2 = if spec_is_promotion(u.mv) {
            m_put(m_remove(b1, from), spec_make(PieceType::Pawn, mc), from)
        } else {
            b1
        };
        let b3 = BoardModel { en_passant: u.en_passant_bb, rights: u.castling_rights, ..b2 };
        let b4 = if u.taken_piece != 7 {
            m_put(b3, u.taken_piece, to)
        } else {
            b3
        };
        let b5 = if spec_is_en_passant(u.mv) {
            if mc == PieceColor::White {
                m_put(b4, spec_make(PieceType::Pawn, PieceColor::Black), to - 8)
            } else {
                m_put(b4, spec_make(PieceType::Pawn, PieceColor::White), to + 8)
            }
        } else if spec_is_castle(u.mv) {
            if move_flags(u.mv) == 2 {
                m_move_piece(b4, from + 1, from + 3)
            } else {
                m_move_piece(b4, from - 1, from - 4)
            }
        } else {
            b4
        };
        BoardModel { turn: spec_flip(b5.turn), ..b5 }
    }
}

/// `undo_move` runs on `b` without a panic.
pub open spec fn undo_move_safe(b: BoardModel) -> bool {
    b.undo.len() > 0 ==> {
        let u = b.undo.last();
        let from = move_from(u.mv);
        let to = move_to(u.mv);
        let b0 = BoardModel {
            undo: b.undo.drop_last(),
            half: u.half_move_counter,
            full: u.full_move_counter,
            ..b
        };
        let mc = spec_get_color(b0.mailbox[to]);
        let b1 = m_move_piece(b0, to, from);
        let b2 = if spec_is_promotion(u.mv) {
            m_put(m_remove(b1, from), spec_make(PieceType::Pawn, mc), from)
        } else {
            b1
        };
        let b3 = BoardModel { en_passant: u.en_passant_bb, rights: u.castling_rights, ..b2 };
        let b4 = if u.taken_piece != 7 {
            m_put(b3, u.taken_piece, to)
        } else {
            b3
        };
        &&& removable(b0, to)
        &&& spec_is_promotion(u.mv) ==> removable(b1, from)
        &&& u.taken_piece != 7 ==> type_code(spec_get_type(u.taken_piece)) < 6
        &&& spec_is_en_passant(u.mv) ==> if mc == PieceColor::White {
            to >= 8
        } else {
            to + 8 < 64
        }
        &&& (!spec_is_en_passant(u.mv) && spec_is_castle(u.mv) && move_flags(u.mv) == 2) ==> (
        removable(b4, from + 1) && from + 3 < 64)
        &&& (!spec_is_en_passant(u.mv) && spec_is_castle(u.mv) && move_flags(u.mv) == 3) ==> (
        from >= 4 && removable(b4, from - 1))
    }
}

/// A square's byte is a piece in its plain encoding: a type below 6 and no bit above the colour.
pub open spec fn piece_ok(p: u8) -> bool {
    p < 16 && p % 8 < 6
}

/// A square's byte is a plain piece or the empty marker.
pub open spec fn square_ok(p: u8) -> bool {
    p == 7 || piece_ok(p)
}

/// The squares that hold a piece of colour code `c`.
pub open spec fn color_squares(mb: Seq<u8>, c: int) -> Set<int> {
    Set::new(|s: int| 0 <= s < 64 && mb[s] != 7 && color_code(spec_get_color(mb[s])) == c)
}

/// The squares that hold a piece of type code `t`.
pub open spec fn type_squares(mb: Seq<u8>, t: int) -> Set<int> {
    Set::new(|s: int| 0 <= s < 64 && mb[s] != 7 && type_code(spec_get_type(mb[s])) == t)
}

/// The board is consistent: every square holds a plain piece or nothing, and
/// each bitboard holds exactly the squares of its colour or type.
pub open spec fn m_wf(b: BoardModel) -> bool {
    &&& m_shaped(b)
    &&& forall|s: int| 0 <= s < 64 ==> square_ok(#[trigger] b.mailbox[s])
    &&& forall|c: int| 0 <= c < 2 ==> bb_set(#[trigger] b.color_bbs[c]) == color_squares(b.mailbox, c)
    &&& forall|t: int| 0 <= t < 6 ==> bb_set(#[trigger] b.type_bbs[t]) == type_squares(b.mailbox, t)
}

/// The move fits the board: a piece stands on its origin, its target is empty
/// or, for a capture, occupied; an en passant capture has the enemy pawn
/// behind its empty target; a castle has its rook in place and the square
/// the rook goes to empty; and the counters and the undo stack have room.
pub open spec fn move_fits(b: BoardModel, mv: Move) -> bool {
    let f = move_from(mv);
    let t = move_to(mv);
    let mc = spec_get_color(b.mailbox[f]);
    &&& b.mailbox[f] != 7
    &&& if takes_on_target(mv) {
        b.mailbox[t] != 7
    } else {
        b.mailbox[t] == 7
    }
    &&& spec_is_en_passant(mv) ==> if mc == PieceColor::White {
        t >= 8 && b.mailbox[t - 8] == spec_make(PieceType::Pawn, PieceColor::Black)
    } else {
        t + 8 < 64 && b.mailbox[t + 8] == spec_make(PieceType::Pawn, PieceColor::White)
    }
    &&& (!spec_is_en_passant(mv) && spec_is_castle(mv) && move_flags(mv) == 2) ==> {
        &&& f + 3 < 64
        &&& b.mailbox[f + 3] != 7
        &&& b.mailbox[f + 1] == 7
        &&& t != f + 1
    }
    &&& (!spec_is_en_passant(mv) && spec_is_castle(mv) && move_flags(mv) == 3) ==> {
        &&& f >= 4
        &&& b.mailbox[f - 4] != 7
        &&& b.mailbox[f - 1] == 7
        &&& t != f - 1
    }
    &&& b.half < 255
    &&& mc == PieceColor::Black ==> b.full < 65535
    &&& b.undo.len() < 256
}

/// The move fits the board, leaves its origin, and a promotion starts from a pawn:
/// such a move can also be taken back.
pub open spec fn move_sound(b: BoardModel, mv: Move) -> bool {
    &&& move_fits(b, mv)
    &&& move_from(mv) != move_to(mv)
    &&& spec_is_promotion(mv) ==> spec_get_type(b.mailbox[move_from(mv)]) == PieceType::Pawn
}

/// The empty board is consistent.
pub proof fn lemma_empty_wf()
    ensures
        m_wf(m_empty()),
{
    let b = m_empty();
    lemma_bb_zero();
    assert forall|c: int| 0 <= c < 2 implies bb_set(#[trigger] b.color_bbs[c]) == color_squares(
        b.mailbox,
        c,
    ) by {
        assert(color_squares(b.mailbox, c) =~= Set::<int>::empty());
    }
    assert forall|t: int| 0 <= t < 6 implies bb_set(#[trigger] b.type_bbs[t]) == type_squares(
        b.mailbox,
        t,
    ) by {
        assert(type_squares(b.mailbox, t) =~= Set::<int>::empty());
    }
}

/// Putting a plain piece on an empty square of a consistent board keeps it consistent.
pub proof fn lemma_put_wf(b: BoardModel, p: u8, i: int)
    requires
        m_wf(b),
        0 <= i < 64,
        b.mailbox[i] == 7,
        piece_ok(p),
    ensures
        m_wf(m_put(b, p, i)),
        m_put(b, p, i).mailbox == b.mailbox.update(i, p),
{
    let r = m_put(b, p, i);
    lemma_bb_single(i as u64);
    assert forall|c: int| 0 <= c < 2 implies bb_set(#[trigger] r.color_bbs[c]) == color_squares(r.mailbox, c) by {
        lemma_bb_or(b.color_bbs[c], 1u64 << (i as u64));
        assert(bb_set(r.color_bbs[c]) =~= color_squares(r.mailbox, c));
    }
    assert forall|t: int| 0 <= t < 6 implies bb_set(#[trigger] r.type_bbs[t]) == type_squares(r.mailbox, t) by {
        lemma_bb_or(b.type_bbs[t], 1u64 << (i as u64));
        assert(bb_set(r.type_bbs[t]) =~= type_squares(r.mailbox, t));
    }
}

/// Removing a piece from a consistent board keeps it consistent.
pub proof fn lemma_remove_wf(b: BoardModel, i: int)
    requires
        m_wf(b),
        0 <= i < 64,
        b.mailbox[i] != 7,
    ensures
        m_wf(m_remove(b, i)),
        m_remove(b, i).mailbox == b.mailbox.update(i, 7),
        removable(b, i),
{
    let r = m_remove(b, i);
    lemma_bb_single(i as u64);
    lemma_bb_not(1u64 << (i as u64));
    assert forall|c: int| 0 <= c < 2 implies bb_set(#[trigger] r.color_bbs[c]) == color_squares(r.mailbox, c) by {
        lemma_bb_and(b.color_bbs[c], !(1u64 << (i as u64)));
        assert(bb_set(r.color_bbs[c]) =~= color_squares(r.mailbox, c));
    }
    assert forall|t: int| 0 <= t < 6 implies bb_set(#[trigger] r.type_bbs[t]) == type_squares(r.mailbox, t) by {
        lemma_bb_and(b.type_bbs[t], !(1u64 << (i as u64)));
        assert(bb_set(r.type_bbs[t]) =~= type_squares(r.mailbox, t));
    }
}

/// Two consistent boards with the same squares have the same bitboards.
pub proof fn lemma_wf_same_bitboards(a: BoardModel, b: BoardModel)
    requires
        m_wf(a),
        m_wf(b),
        a.mailbox == b.mailbox,
    ensures
        a.color_bbs == b.color_bbs,
        a.type_bbs == b.type_bbs,
{
    assert forall|c: int| 0 <= c < 2 implies a.color_bbs[c] == b.color_bbs[c] by {
        assert(bb_set(a.color_bbs[c]) == color_squares(a.mailbox, c));
        assert(bb_set(b.color_bbs[c]) == color_squares(b.mailbox, c));
        lemma_bb_ext(a.color_bbs[c], b.color_bbs[c]);
    }
    assert forall|t: int| 0 <= t < 6 implies a.type_bbs[t] == b.type_bbs[t] by {
        assert(bb_set(a.type_bbs[t]) == type_squares(a.mailbox, t));
        assert(bb_set(b.type_bbs[t]) == type_squares(b.mailbox, t));
        lemma_bb_ext(a.type_bbs[t], b.type_bbs[t]);
    }
    assert(a.color_bbs =~= b.color_bbs);
    assert(a.type_bbs =~= b.type_bbs);
}

/// The encoding of a piece gives back its type and colour.
pub proof fn lemma_make(t: PieceType, c: PieceColor)
    ensures
        spec_get_type(spec_make(t, c)) == t,
        spec_get_color(spec_make(t, c)) == c,
        spec_make(t, c) < 16,
        type_code(t) < 6 ==> piece_ok(spec_make(t, c)),
{
}

/// A plain pawn is the pawn of its colour.
pub proof fn lemma_plain_pawn(p: u8)
    requires
        piece_ok(p),
        spec_get_type(p) == PieceType::Pawn,
    ensures
        p == spec_make(PieceType::Pawn, spec_get_color(p)),
{
}

/// A plain piece can be removed.
proof fn lemma_piece_ok_type(p: u8)
    requires
        piece_ok(p),
    ensures
        type_code(spec_get_type(p)) < 6,
        type_code(spec_get_type(p)) == p % 8,
{
}

/// The squares after the side effect of a move.
pub open spec fn side_mailbox(b: BoardModel, mv: Move) -> Seq<u8> {
    let f = move_from(mv);
    let t = move_to(mv);
    let mb = b.mailbox;
    let mc = spec_get_color(mb[f]);
    if spec_is_en_passant(mv) {
        if mc == PieceColor::White {
            mb.update(t - 8, 7)
        } else {
            mb.update(t + 8, 7)
        }
    } else if spec_is_castle(mv) {
        if move_flags(mv) == 2 {
            mb.update(f + 3, 7).update(f + 1, mb[f + 3])
        } else {
            mb.update(f - 4, 7).update(f - 1, mb[f - 4])
        }
    } else {
        mb
    }
}

pub proof fn lemma_placed(b: BoardModel, mv: Move)
    requires
        m_wf(b),
        move_sound(b, mv),
    ensures
        piece_ok(placed_piece(b, mv)),
        spec_get_color(placed_piece(b, mv)) == spec_get_color(b.mailbox[move_from(mv)]),
        spec_is_promotion(mv) ==> b.mailbox[move_from(mv)] == spec_make(
            PieceType::Pawn,
            spec_get_color(b.mailbox[move_from(mv)]),
        ),
        !spec_is_promotion(mv) ==> placed_piece(b, mv) == b.mailbox[move_from(mv)],
{
    let moving = b.mailbox[move_from(mv)];
    let mc = spec_get_color(moving);
    assert(piece_ok(moving));
    if spec_is_promotion(mv) {
        lemma_make(spec_promotion_type(mv).unwrap(), mc);
        lemma_plain_pawn(moving);
    }
}

proof fn lemma_side_effect(b: BoardModel, mv: Move)
    requires
        m_wf(b),
        move_fits(b, mv),
    ensures
        m_wf(m_do_stage1(b, mv)),
        m_do_stage1(b, mv).mailbox == side_mailbox(b, mv),
        side_mailbox(b, mv)[move_from(mv)] == b.mailbox[move_from(mv)],
        side_mailbox(b, mv)[move_to(mv)] == b.mailbox[move_to(mv)],
        side_mailbox(b, mv).len() == 64,
        forall|s: int| 0 <= s < 64 ==> square_ok(#[trigger] side_mailbox(b, mv)[s]),
        spec_is_en_passant(mv) ==> if spec_get_color(b.mailbox[move_from(mv)]) == PieceColor::White {
            removable(m_step_counters(b, mv), move_to(mv) - 8)
        } else {
            removable(m_step_counters(b, mv), move_to(mv) + 8)
        },
        (!spec_is_en_passant(mv) && spec_is_castle(mv) && move_flags(mv) == 2) ==> removable(
            m_step_counters(b, mv),
            move_from(mv) + 3,
        ),
        (!spec_is_en_passant(mv) && spec_is_castle(mv) && move_flags(mv) == 3) ==> removable(
            m_step_counters(b, mv),
            move_from(mv) - 4,
        ),
{
    let f = move_from(mv);
    let t = move_to(mv);
    let mb = b.mailbox;
    let mc = spec_get_color(mb[f]);
    let c0 = m_step_counters(b, mv);
    assert(m_wf(c0));
    if spec_is_en_passant(mv) {
        if mc == PieceColor::White {
            lemma_remove_wf(c0, t - 8);
        } else {
            lemma_remove_wf(c0, t + 8);
        }
    } else if spec_is_castle(mv) {
        if move_flags(mv) == 2 {
            lemma_remove_wf(c0, f + 3);
            lemma_put_wf(m_remove(c0, f + 3), mb[f + 3], f + 1);
        } else {
            lemma_remove_wf(c0, f - 4);
            lemma_put_wf(m_remove(c0, f - 4), mb[f - 4], f - 1);
        }
    }
    let c1 = m_side_effect(c0, mv, mc);
    assert(c1.mailbox =~= side_mailbox(b, mv));
    assert(m_wf(c1));
}

/// The squares after a move.
pub open spec fn done_mailbox(b: BoardModel, mv: Move) -> Seq<u8> {
    side_mailbox(b, mv).update(move_from(mv), 7).update(move_to(mv), placed_piece(b, mv))
}

/// A move that fits a consistent board plays without a panic and leaves the board consistent.
pub proof fn lemma_do_wf(b: BoardModel, mv: Move)
    requires
        m_wf(b),
        move_sound(b, mv),
    ensures
        do_move_safe(b, mv),
        m_wf(m_do_move(b, mv)),
        m_do_move(b, mv).mailbox == done_mailbox(b, mv),
        taken_piece(b, mv) == b.mailbox[move_to(mv)],
{
    lemma_placed(b, mv);
    lemma_do_fits(b, mv);
}

/// `do_move` keeps a consistent board consistent, and places the pieces as
/// `done_mailbox` says, for every move it accepts that fits the board,
/// whatever piece a promotion starts from.
pub proof fn lemma_do_keeps_wf(b: BoardModel, mv: Move)
    requires
        m_wf(b),
        move_fits(b, mv),
        do_move_safe(b, mv),
    ensures
        m_wf(m_do_move(b, mv)),
        m_do_move(b, mv).mailbox == done_mailbox(b, mv),
        taken_piece(b, mv) == b.mailbox[move_to(mv)],
{
    let f = move_from(mv);
    let t = move_to(mv);
    let moving = b.mailbox[f];
    assert(piece_ok(moving));
    if f == t {
        assert(takes_on_target(mv));
        lemma_side_effect(b, mv);
        assert(!removable(m_remove(m_do_stage1(b, mv), t), f));
    }
    if spec_is_promotion(mv) {
        lemma_make(spec_promotion_type(mv).unwrap(), spec_get_color(moving));
    }
    assert(piece_ok(placed_piece(b, mv)));
    lemma_do_fits(b, mv);
}

/// `do_move` runs without a panic on every move that fits a consistent board
/// and leaves its origin, whatever piece a promotion starts from, and leaves
/// the board consistent with its pieces placed as `done_mailbox` says.
pub proof fn lemma_fits_runs(b: BoardModel, mv: Move)
    requires
        m_wf(b),
        move_fits(b, mv),
        move_from(mv) != move_to(mv),
    ensures
        do_move_safe(b, mv),
        m_wf(m_do_move(b, mv)),
        m_do_move(b, mv).mailbox == done_mailbox(b, mv),
{
    let moving = b.mailbox[move_from(mv)];
    assert(piece_ok(moving));
    if spec_is_promotion(mv) {
        let t = spec_promotion_type(mv).unwrap();
        assert(type_code(t) < 6);
        lemma_make(t, spec_get_color(moving));
    }
    assert(piece_ok(placed_piece(b, mv)));
    lemma_do_fits(b, mv);
}

proof fn lemma_do_fits(b: BoardModel, mv: Move)
    requires
        m_wf(b),
        move_fits(b, mv),
        move_from(mv) != move_to(mv),
        piece_ok(placed_piece(b, mv)),
    ensures
        do_move_safe(b, mv),
        m_wf(m_do_move(b, mv)),
        m_do_move(b, mv).mailbox == done_mailbox(b, mv),
        taken_piece(b, mv) == b.mailbox[move_to(mv)],
{
    let f = move_from(mv);
    let t = move_to(mv);
    lemma_piece_ok_type(placed_piece(b, mv));
    lemma_piece_ok_type(b.mailbox[f]);
    lemma_side_effect(b, mv);
    let s1 = m_do_stage1(b, mv);
    let s2 = if takes_on_target(mv) {
        m_remove(s1, t)
    } else {
        s1
    };
    if takes_on_target(mv) {
        lemma_remove_wf(s1, t);
    }
    assert(m_wf(s2));
    let s2t = BoardModel { turn: spec_flip(s2.turn), ..s2 };
    assert(m_wf(s2t));
    lemma_remove_wf(s2t, f);
    let s3 = m_do_stage2(b, mv);
    assert(s3 == m_remove(s2t, f));
    lemma_put_wf(s3, placed_piece(b, mv), t);
    let d = m_do_move(b, mv);
    assert(d.mailbox =~= done_mailbox(b, mv));
}

/// Taking back a move restores the board exactly: on a consistent board, a
/// move that fits it can be played and taken back without a panic, the board
/// stays consistent, and `undo_move` after `do_move` gives the board back.
pub proof fn lemma_do_undo(b: BoardModel, mv: Move)
    requires
        m_wf(b),
        move_sound(b, mv),
    ensures
        do_move_safe(b, mv),
        m_wf(m_do_move(b, mv)),
        undo_move_safe(m_do_move(b, mv)),
        m_undo_move(m_do_move(b, mv)) == b,
{
    let f = move_from(mv);
    let t = move_to(mv);
    let mb = b.mailbox;
    let moving = mb[f];
    let mc = spec_get_color(moving);
    let placed = placed_piece(b, mv);
    lemma_placed(b, mv);
    lemma_do_wf(b, mv);
    lemma_side_effect(b, mv);
    let mb1 = side_mailbox(b, mv);
    let d = m_do_move(b, mv);
    let u = d.undo.last();
    assert(u == undo_record(b, mv));
    let b0 = BoardModel { undo: d.undo.drop_last(), half: u.half_move_counter, full: u.full_move_counter, ..d };
    assert(m_wf(b0));
    assert(b0.undo =~= b.undo);
    assert(b0.mailbox[t] == placed);
    lemma_remove_wf(b0, t);
    lemma_put_wf(m_remove(b0, t), placed, f);
    let b1 = m_move_piece(b0, t, f);
    assert(b1.mailbox =~= mb1.update(t, 7).update(f, placed));
    let b2 = if spec_is_promotion(u.mv) {
        m_put(m_remove(b1, f), spec_make(PieceType::Pawn, mc), f)
    } else {
        b1
    };
    if spec_is_promotion(mv) {
        lemma_remove_wf(b1, f);
        lemma_make(PieceType::Pawn, mc);
        lemma_put_wf(m_remove(b1, f), spec_make(PieceType::Pawn, mc), f);
    }
    assert(m_wf(b2));
    assert(b2.mailbox =~= mb1.update(t, 7).update(f, moving));
    let b3 = BoardModel { en_passant: u.en_passant_bb, rights: u.castling_rights, ..b2 };
    assert(m_wf(b3));
    let b4 = if u.taken_piece != 7 {
        m_put(b3, u.taken_piece, t)
    } else {
        b3
    };
    if u.taken_piece != 7 {
        lemma_piece_ok_type(mb[t]);
        lemma_put_wf(b3, mb[t], t);
    }
    assert(m_wf(b4));
    assert(b4.mailbox =~= mb1.update(f, moving));
    proof_undo_tail(b, mv, b4);
}

/// The board after the moves of `ms` are played on `b` in order.
pub open spec fn m_play_all(b: BoardModel, ms: Seq<Move>) -> BoardModel
    decreases ms.len(),
{
    if ms.len() == 0 {
        b
    } else {
        m_do_move(m_play_all(b, ms.drop_last()), ms.last())
    }
}

/// The board after `undo_move` is called `n` times on `b`.
pub open spec fn m_undo_times(b: BoardModel, n: nat) -> BoardModel
    decreases n,
{
    if n == 0 {
        b
    } else {
        m_undo_times(m_undo_move(b), (n - 1) as nat)
    }
}

/// Each move of `ms` fits the board the moves before it leave.
pub open spec fn plays_soundly(b: BoardModel, ms: Seq<Move>) -> bool {
    forall|i: int| 0 <= i < ms.len() ==> move_sound(#[trigger] m_play_all(b, ms.take(i)), ms[i])
}

proof fn lemma_play_all_prefix(b: BoardModel, ms: Seq<Move>)
    requires
        ms.len() > 0,
        plays_soundly(b, ms),
    ensures
        plays_soundly(b, ms.drop_last()),
        m_play_all(b, ms.take(ms.len() - 1)) == m_play_all(b, ms.drop_last()),
        move_sound(m_play_all(b, ms.drop_last()), ms.last()),
{
    let p = ms.drop_last();
    assert(ms.take(ms.len() - 1) =~= p);
    assert forall|i: int| 0 <= i < p.len() implies move_sound(#[trigger] m_play_all(b, p.take(i)), p[i]) by {
        assert(p.take(i) =~= ms.take(i));
        assert(move_sound(m_play_all(b, ms.take(i)), ms[i]));
    }
    assert(move_sound(m_play_all(b, ms.take(ms.len() - 1)), ms[ms.len() - 1]));
}

/// Playing moves that each fit the board keeps a consistent board consistent.
pub proof fn lemma_play_all_wf(b: BoardModel, ms: Seq<Move>)
    requires
        m_wf(b),
        plays_soundly(b, ms),
    ensures
        m_wf(m_play_all(b, ms)),
    decreases ms.len(),
{
    if ms.len() > 0 {
        lemma_play_all_prefix(b, ms);
        lemma_play_all_wf(b, ms.drop_last());
        lemma_do_wf(m_play_all(b, ms.drop_last()), ms.last());
    }
}

/// Taking back every move of a game restores its start: on a consistent
/// board, after the moves of `ms` are played, each fitting the board before
/// it, `undo_move` called once per move gives the board back.
pub proof fn lemma_undo_all(b: BoardModel, ms: Seq<Move>)
    requires
        m_wf(b),
        plays_soundly(b, ms),
    ensures
        m_undo_times(m_play_all(b, ms), ms.len()) == b,
    decreases ms.len(),
{
    if ms.len() > 0 {
        let p = ms.drop_last();
        lemma_play_all_prefix(b, ms);
        lemma_play_all_wf(b, p);
        lemma_do_undo(m_play_all(b, p), ms.last());
        lemma_undo_all(b, p);
    }
}

/// A call that changes the board: `put_piece`, `remove_piece`, `do_move` or `undo_move`.
pub enum BoardOp {
    Put(u8, u8),
    Remove(u8),
    Play(Move),
    TakeBack,
}

/// The board after one call.
pub open spec fn apply_op(b: BoardModel, op: BoardOp) -> BoardModel {
    match op {
        BoardOp::Put(p, i) => m_put(b, p, i as int),
        BoardOp::Remove(i) => m_remove(b, i as int),
        BoardOp::Play(m) => m_do_move(b, m),
        BoardOp::TakeBack => m_undo_move(b),
    }
}

/// The board after the calls of `ops`, in order.
pub open spec fn apply_ops(b: BoardModel, ops: Seq<BoardOp>) -> BoardModel
    decreases ops.len(),
{
    if ops.len() == 0 {
        b
    } else {
        apply_op(apply_ops(b, ops.drop_last()), ops.last())
    }
}

/// The board the calls of `ops` set up before the moves still to be taken
/// back, and those moves, oldest first.
pub open spec fn setup_and_moves(b: BoardModel, ops: Seq<BoardOp>) -> (BoardModel, Seq<Move>)
    decreases ops.len(),
{
    if ops.len() == 0 {
        (b, Seq::empty())
    } else {
        let (base, st) = setup_and_moves(b, ops.drop_last());
        match ops.last() {
            BoardOp::Put(p, i) => (m_put(base, p, i as int), st),
            BoardOp::Remove(i) => (m_remove(base, i as int), st),
            BoardOp::Play(m) => (base, st.push(m)),
            BoardOp::TakeBack => if st.len() > 0 {
                (base, st.drop_last())
            } else {
                (base, st)
            },
        }
    }
}

/// Each call of `ops` keeps to its rule: a plain piece is put on an empty
/// square and a piece is removed from an occupied one, both while no move
/// waits to be taken back; a move played fits the board; `undo_move` may
/// come at any time.
pub open spec fn ops_ok(b: BoardModel, ops: Seq<BoardOp>) -> bool
    decreases ops.len(),
{
    if ops.len() == 0 {
        true
    } else {
        let cur = apply_ops(b, ops.drop_last());
        let st = setup_and_moves(b, ops.drop_last()).1;
        &&& ops_ok(b, ops.drop_last())
        &&& match ops.last() {
            BoardOp::Put(p, i) => st.len() == 0 && i < 64 && cur.mailbox[i as int] == 7 && piece_ok(p),
            BoardOp::Remove(i) => st.len() == 0 && i < 64 && cur.mailbox[i as int] != 7,
            BoardOp::Play(m) => move_sound(cur, m),
            BoardOp::TakeBack => true,
        }
    }
}

proof fn lemma_play_all_undo_len(b: BoardModel, ms: Seq<Move>)
    ensures
        m_play_all(b, ms).undo.len() == b.undo.len() + ms.len(),
    decreases ms.len(),
{
    if ms.len() > 0 {
        lemma_play_all_undo_len(b, ms.drop_last());
    }
}

proof fn lemma_ops_state(b: BoardModel, ops: Seq<BoardOp>)
    requires
        m_wf(b),
        b.undo.len() == 0,
        ops_ok(b, ops),
    ensures
        m_wf(setup_and_moves(b, ops).0),
        setup_and_moves(b, ops).0.undo.len() == 0,
        plays_soundly(setup_and_moves(b, ops).0, setup_and_moves(b, ops).1),
        apply_ops(b, ops) == m_play_all(setup_and_moves(b, ops).0, setup_and_moves(b, ops).1),
    decreases ops.len(),
{
    if ops.len() > 0 {
        let prev = ops.drop_last();
        lemma_ops_state(b, prev);
        let (base, st) = setup_and_moves(b, prev);
        let cur = apply_ops(b, prev);
        assert(cur == m_play_all(base, st));
        match ops.last() {
            BoardOp::Put(p, i) => {
                lemma_put_wf(base, p, i as int);
            },
            BoardOp::Remove(i) => {
                lemma_remove_wf(base, i as int);
            },
            BoardOp::Play(m) => {
                let st2 = st.push(m);
                assert(st2.drop_last() =~= st);
                assert forall|k: int| 0 <= k < st2.len() implies move_sound(
                    #[trigger] m_play_all(base, st2.take(k)),
                    st2[k],
                ) by {
                    if k < st.len() {
                        assert(st2.take(k) =~= st.take(k));
                        assert(move_sound(m_play_all(base, st.take(k)), st[k]));
                    } else {
                        assert(st2.take(k) =~= st);
                    }
                }
            },
            BoardOp::TakeBack => {
                if st.len() > 0 {
                    lemma_play_all_prefix(base, st);
                    lemma_play_all_wf(base, st.drop_last());
                    lemma_do_undo(m_play_all(base, st.drop_last()), st.last());
                } else {
                    lemma_play_all_undo_len(base, st);
                }
            },
        }
    }
}

/// The board stays consistent over any run of calls that keep to their
/// rules (`ops_ok`), from a consistent board with nothing to take back: it
/// is then the board set up by the puts and removes with the moves still
/// to be taken back played on it.
pub proof fn lemma_ops_keep_wf(b: BoardModel, ops: Seq<BoardOp>)
    requires
        m_wf(b),
        b.undo.len() == 0,
        ops_ok(b, ops),
    ensures
        m_wf(apply_ops(b, ops)),
        apply_ops(b, ops) == m_play_all(setup_and_moves(b, ops).0, setup_and_moves(b, ops).1),
{
    lemma_ops_state(b, ops);
    lemma_play_all_wf(setup_and_moves(b, ops).0, setup_and_moves(b, ops).1);
}

proof fn proof_undo_tail(b: BoardModel, mv: Move, b4: BoardModel)
    requires
        m_wf(b),
        move_sound(b, mv),
        m_wf(b4),
        b4.mailbox == side_mailbox(b, mv).update(move_from(mv), b.mailbox[move_from(mv)]),
        m_undo_move(m_do_move(b, mv)) == ({
            let b5 = if spec_is_en_passant(mv) {
                if spec_get_color(b.mailbox[move_from(mv)]) == PieceColor::White {
                    m_put(b4, spec_make(PieceType::Pawn, PieceColor::Black), move_to(mv) - 8)
                } else {
                    m_put(b4, spec_make(PieceType::Pawn, PieceColor::White), move_to(mv) + 8)
                }
            } else if spec_is_castle(mv) {
                if move_flags(mv) == 2 {
                    m_move_piece(b4, move_from(mv) + 1, move_from(mv) + 3)
                } else {
                    m_move_piece(b4, move_from(mv) - 1, move_from(mv) - 4)
                }
            } else {
                b4
            };
            BoardModel { turn: spec_flip(b5.turn), ..b5 }
        }),
        b4.undo == b.undo,
        b4.half == b.half,
        b4.full == b.full,
        b4.rights == b.rights,
        b4.en_passant == b.en_passant,
        b4.turn == spec_flip(b.turn),
    ensures
        m_undo_move(m_do_move(b, mv)) == b,
{
    let f = move_from(mv);
    let t = move_to(mv);
    let mb = b.mailbox;
    let mc = spec_get_color(mb[f]);
    let b5 = if spec_is_en_passant(mv) {
        if mc == PieceColor::White {
            m_put(b4, spec_make(PieceType::Pawn, PieceColor::Black), t - 8)
        } else {
            m_put(b4, spec_make(PieceType::Pawn, PieceColor::White), t + 8)
        }
    } else if spec_is_castle(mv) {
        if move_flags(mv) == 2 {
            m_move_piece(b4, f + 1, f + 3)
        } else {
            m_move_piece(b4, f - 1, f - 4)
        }
    } else {
        b4
    };
    if spec_is_en_passant(mv) {
        if mc == PieceColor::White {
            lemma_make(PieceType::Pawn, PieceColor::Black);
            lemma_put_wf(b4, spec_make(PieceType::Pawn, PieceColor::Black), t - 8);
        } else {
            lemma_make(PieceType::Pawn, PieceColor::White);
            lemma_put_wf(b4, spec_make(PieceType::Pawn, PieceColor::White), t + 8);
        }
    } else if spec_is_castle(mv) {
        if move_flags(mv) == 2 {
            lemma_remove_wf(b4, f + 1);
            lemma_put_wf(m_remove(b4, f + 1), mb[f + 3], f + 3);
        } else {
            lemma_remove_wf(b4, f - 1);
            lemma_put_wf(m_remove(b4, f - 1), mb[f - 4], f - 4);
        }
    }
    assert(m_wf(b5));
    assert(b5.mailbox =~= mb);
    let r = BoardModel { turn: spec_flip(b5.turn), ..b5 };
    lemma_wf_same_bitboards(r, b);
    assert(r == b);
}

/// The position a board holds: the board without its undo stack and counters.
pub open spec fn pos_of(b: BoardModel) -> BoardModel {
    BoardModel { undo: Seq::empty(), half: 0, full: 0, ..b }
}

/// On consistent boards the bitboards fix the squares.
pub proof fn lemma_wf_same_mailbox(a: BoardModel, b: BoardModel)
    requires
        m_wf(a),
        m_wf(b),
        a.color_bbs == b.color_bbs,
        a.type_bbs == b.type_bbs,
    ensures
        a.mailbox == b.mailbox,
{
    assert forall|s: int| 0 <= s < 64 implies a.mailbox[s] == b.mailbox[s] by {
        let pa = a.mailbox[s];
        let pb = b.mailbox[s];
        assert(square_ok(pa));
        assert(square_ok(pb));
        assert(bb_set(a.color_bbs[0]) == color_squares(a.mailbox, 0));
        assert(bb_set(a.color_bbs[1]) == color_squares(a.mailbox, 1));
        assert(bb_set(b.color_bbs[0]) == color_squares(b.mailbox, 0));
        assert(bb_set(b.color_bbs[1]) == color_squares(b.mailbox, 1));
        if pa == 7 {
            assert(!color_squares(a.mailbox, 0).contains(s));
            assert(!color_squares(a.mailbox, 1).contains(s));
            if pb != 7 {
                assert(color_squares(b.mailbox, color_code(spec_get_color(pb)) as int).contains(s));
            }
        } else {
            let c = color_code(spec_get_color(pa)) as int;
            let t = type_code(spec_get_type(pa)) as int;
            assert(color_squares(a.mailbox, c).contains(s));
            assert(bb_set(a.type_bbs[t]) == type_squares(a.mailbox, t));
            assert(bb_set(b.type_bbs[t]) == type_squares(b.mailbox, t));
            assert(type_squares(a.mailbox, t).contains(s));
            assert(color_squares(b.mailbox, c).contains(s));
            assert(type_squares(b.mailbox, t).contains(s));
        }
    }
    assert(a.mailbox =~= b.mailbox);
}

#[derive(Debug, PartialEq, Eq)]
pub struct Board {
    piece_bitboards_color: [Bitboard; 2],
    piece_bitboards_type: [Bitboard; 6],
    turn: PieceColor,
    en_passant_bb: Bitboard,
    castling_rights: CastlingRights,
    mailbox: [Piece; 64],
    undo_list: UndoList,
    half_move_counter: u8,
    full_move_counter: u16,
}

impl View for Board {
    type V = BoardModel;

    closed spec fn view(&self) -> BoardModel {
        BoardModel {
            color_bbs: self.piece_bitboards_color@,
            type_bbs: self.piece_bitboards_type@,
            turn: self.turn,
            en_passant: self.en_passant_bb,
            rights: self.castling_rights,
            mailbox: self.mailbox@,
            undo: self.undo_list@,
            half: self.half_move_counter,
            full: self.full_move_counter,
        }
    }
}

/// The model of an empty board, White to move, with no rights.
pub open spec fn m_empty() -> BoardModel {
    BoardModel {
        color_bbs: seq![0u64, 0u64],
        type_bbs: seq![0u64, 0u64, 0u64, 0u64, 0u64, 0u64],
        turn: PieceColor::White,
        en_passant: 0,
        rights: CastlingRights { bits: 0 },
        mailbox: Seq::new(64, |i: int| 7u8),
        undo: Seq::empty(),
        half: 0,
        full: 0,
    }
}

/// The sizes of the model's sequences.
pub open spec fn m_shaped(b: BoardModel) -> bool {
    &&& b.color_bbs.len() == 2
    &&& b.type_bbs.len() == 6
    &&& b.mailbox.len() == 64
}

impl Default for Board {
    fn default() -> (r: Self)
        ensures
            r@ == m_empty(),
    {
        Self::new()
    }
}

impl Board {
    pub proof fn lemma_shaped(&self)
        ensures
            m_shaped(self@),
    {
    }

    pub fn new() -> (r: Self)
        ensures
            r@ == m_empty(),
    {
        let b = Board {
            piece_bitboards_color: [0u64; 2],
            piece_bitboards_type: [0u64; 6],
            mailbox: [NO_PIECE; 64],
            en_passant_bb: 0,
            turn: PieceColor::White,
            castling_rights: CastlingRights::empty(),
            undo_list: UndoList::default(),
            half_move_counter: 0,
            full_move_counter: 0,
        };
        assert(b@.color_bbs =~= seq![0u64, 0u64]);
        assert(b@.type_bbs =~= seq![0u64, 0u64, 0u64, 0u64, 0u64, 0u64]);
        assert(b@.mailbox =~= Seq::new(64, |i: int| 7u8));
        b
    }

    pub fn put_piece(&mut self, piece: Piece, index: u8)
        requires
            index < 64,
            type_code(spec_get_type(piece)) < 6,
        ensures
            final(self)@ == m_put(old(self)@, piece, index as int),
    {
        let new_piece_bitboard: Bitboard = 1u64 << index;
        self.mailbox[index as usize] = piece;
        let c = color_index(piece.get_color());
        let t = type_index(piece.get_type());
        self.piece_bitboards_color[c] = self.piece_bitboards_color[c] | new_piece_bitboard;
        self.piece_bitboards_type[t] = self.piece_bitboards_type[t] | new_piece_bitboard;
        assert(self@.color_bbs =~= m_put(old(self)@, piece, index as int).color_bbs);
        assert(self@.type_bbs =~= m_put(old(self)@, piece, index as int).type_bbs);
        assert(self@.mailbox =~= m_put(old(self)@, piece, index as int).mailbox);
    }

    pub fn remove_piece(&mut self, index: u8)
        requires
            removable(old(self)@, index as int),
        ensures
            final(self)@ == m_remove(old(self)@, index as int),
    {
        let removed_piece_bitboard: Bitboard = 1u64 << index;
        let piece = self.piece_at(index);
        let c = color_index(piece.get_color());
        let t = type_index(piece.get_type());
        self.piece_bitboards_color[c] = self.piece_bitboards_color[c] & !removed_piece_bitboard;
        self.piece_bitboards_type[t] = self.piece_bitboards_type[t] & !removed_piece_bitboard;
        self.mailbox[index as usize] = NO_PIECE;
        assert(self@.color_bbs =~= m_remove(old(self)@, index as int).color_bbs);
        assert(self@.type_bbs =~= m_remove(old(self)@, index as int).type_bbs);
        assert(self@.mailbox =~= m_remove(old(self)@, index as int).mailbox);
    }

    pub fn set_turn(&mut self, turn: PieceColor)
        ensures
            final(self)@ == (BoardModel { turn, ..old(self)@ }),
    {
        self.turn = turn;
    }

    pub fn set_rights(&mut self, rights: CastlingRights)
        ensures
            final(self)@ == (BoardModel { rights, ..old(self)@ }),
    {
        self.castling_rights = rights;
    }

    pub fn get_rights(&self) -> (r: CastlingRights)
        ensures
            r == self@.rights,
    {
        self.castling_rights
    }

    pub fn set_en_passant(&mut self, new_bb: Bitboard)
        ensures
            final(self)@ == (BoardModel { en_passant: new_bb, ..old(self)@ }),
    {
        self.en_passant_bb = new_bb;
    }

    pub fn get_en_passant_bb(&self) -> (r: Bitboard)
        ensures
            r == self@.en_passant,
    {
        self.en_passant_bb
    }

    pub fn piece_at(&self, index: u8) -> (r: Piece)
        requires
            index < 64,
        ensures
            r == self@.mailbox[index as int],
    {
        self.mailbox[index as usize]
    }

    /// No piece of either colour stands on `index`.
    pub fn is_empty(&self, index: u8) -> (r: bool)
        requires
            index < 64,
        ensures
            r == !bb_set(self@.color_bbs[0] | self@.color_bbs[1]).contains(index as int),
    {
        let all = self.get_all_pieces();
        proof {
            lemma_bb_and(all, 1u64 << index);
            lemma_bb_single(index as u64);
            crate::bitboard::lemma_bb_empty(all & (1u64 << index));
            if bb_set(all).contains(index as int) {
                assert(bb_set(all).intersect(set![index as int]).contains(index as int));
            } else {
                assert(bb_set(all).intersect(set![index as int]) =~= Set::<int>::empty());
            }
        }
        self.get_all_pieces() & 1u64 << index == 0
    }

    pub fn get_turn(&self) -> (r: PieceColor)
        ensures
            r == self@.turn,
    {
        self.turn
    }

    pub fn get_bb_by_type(&self, piece_type: PieceType) -> (r: Bitboard)
        requires
            type_code(piece_type) < 6,
        ensures
            r == self@.type_bbs[type_code(piece_type) as int],
    {
        self.piece_bitboards_type[type_index(piece_type)]
    }

    pub fn get_bb_by_color(&self, piece_color: PieceColor) -> (r: Bitboard)
        ensures
            r == self@.color_bbs[color_code(piece_color) as int],
    {
        self.piece_bitboards_color[color_index(piece_color)]
    }

    pub fn get_all_pieces(&self) -> (r: Bitboard)
        ensures
            r == self@.color_bbs[0] | self@.color_bbs[1],
    {
        self.get_bb_by_color(PieceColor::White) | self.get_bb_by_color(PieceColor::Black)
    }

    pub fn set_half_move_counter(&mut self, new_count: u8)
        ensures
            final(self)@ == (BoardModel { half: new_count, ..old(self)@ }),
    {
        self.half_move_counter = new_count;
    }

    pub fn set_full_move_counter(&mut self, new_count: u16)
        ensures
            final(self)@ == (BoardModel { full: new_count, ..old(self)@ }),
    {
        self.full_move_counter = new_count;
    }

    /// The number of moves played since the board was set up, by the counter.
    pub fn half_move_counter(&self) -> (r: u8)
        ensures
            r == self@.half,
    {
        self.half_move_counter
    }

    /// The full move number, stepped after each move of Black.
    pub fn full_move_counter(&self) -> (r: u16)
        ensures
            r == self@.full,
    {
        self.full_move_counter
    }

    /// The number of moves `undo_move` can take back.
    pub fn undo_len(&self) -> (r: usize)
        ensures
            r == self@.undo.len(),
    {
        self.undo_list.len()
    }

    /// Plays a move, and records what `undo_move` needs to take it back.
    pub fn do_move(&mut self, move_to_make: Move)
        requires
            do_move_safe(old(self)@, move_to_make),
        ensures
            final(self)@ == m_do_move(old(self)@, move_to_make),
    {
        let ghost b = self@;
        let mut captured_piece = NO_PIECE;
        let moving_piece = self.piece_at(move_to_make.from_square());
        let moving_color = moving_piece.get_color();

        let mut undo_move = UndoMove {
            mv: move_to_make,
            taken_piece: captured_piece,
            castling_rights: self.get_rights(),
            en_passant_bb: self.en_passant_bb,
            half_move_counter: self.half_move_counter,
            full_move_counter: self.full_move_counter,
        };

        self.half_move_counter += 1;

        if moving_color == PieceColor::Black {
            self.full_move_counter += 1;
        }
        assert(self@ == m_step_counters(b, move_to_make));

        let piece = if move_to_make.is_promotion() {
            <Piece as PieceTrait>::make(move_to_make.promotion_type().unwrap(), moving_color)
        } else {
            moving_piece
        };
        assert(piece == placed_piece(b, move_to_make));

        if move_to_make.is_en_passant() {
            if moving_color == PieceColor::White {
                self.remove_piece(move_to_make.to_square() - 8);
            } else {
                self.remove_piece(move_to_make.to_square() + 8);
            }
        } else if move_to_make.is_castle() {
            if move_to_make.flags() == Move::FLAG_KING_CASTLE {
                self.move_piece(move_to_make.from_square() + 3, move_to_make.from_square() + 1);
            } else {
                self.move_piece(move_to_make.from_square() - 4, move_to_make.from_square() - 1);
            }
        }
        assert(self@ == m_side_effect(m_step_counters(b, move_to_make), move_to_make, moving_color));

        self.castling_rights = self.castling_rights.intersection(
            castling_rights_mask(move_to_make.from_square()),
        ).intersection(castling_rights_mask(move_to_make.to_square()));

        if move_to_make.is_double_pawn() {
            self.set_en_passant(
                1u64 << ((move_to_make.from_square() + move_to_make.to_square()) / 2),
            );
        } else {
            self.set_en_passant(0);
        }
        assert(self@ == m_do_stage1(b, move_to_make));

        if move_to_make.is_capture() && !move_to_make.is_en_passant() {
            captured_piece = self.piece_at(move_to_make.to_square());
            self.remove_piece(move_to_make.to_square());
        }
        assert(captured_piece == taken_piece(b, move_to_make));

        self.turn = self.turn.flip();
        self.remove_piece(move_to_make.from_square());
        assert(self@ == m_do_stage2(b, move_to_make));

        self.put_piece(piece, move_to_make.to_square());

        undo_move.taken_piece = captured_piece;
        assert(undo_move == undo_record(b, move_to_make));

        self.undo_list.add(undo_move);
    }

    /// Takes back the last move played, if there is one.
    pub fn undo_move(&mut self)
        requires
            undo_move_safe(old(self)@),
        ensures
            final(self)@ == m_undo_move(old(self)@),
    {
        let ghost b = self@;
        let Some(undo_move) = self.undo_list.pop() else {
            return;
        };

        self.half_move_counter = undo_move.half_move_counter;
        self.full_move_counter = undo_move.full_move_counter;

        let moving_color = self.piece_at(undo_move.mv.to_square()).get_color();

        self.move_piece(undo_move.mv.to_square(), undo_move.mv.from_square());

        if undo_move.mv.is_promotion() {
            self.remove_piece(undo_move.mv.from_square());
            self.put_piece(
                <Piece as PieceTrait>::make(PieceType::Pawn, moving_color),
                undo_move.mv.from_square(),
            );
        }

        self.set_en_passant(undo_move.en_passant_bb);
        self.castling_rights = undo_move.castling_rights;

        if undo_move.taken_piece != NO_PIECE {
            self.put_piece(undo_move.taken_piece, undo_move.mv.to_square());
        }

        if undo_move.mv.is_en_passant() {
            if moving_color == PieceColor::White {
                self.put_piece(
                    <Piece as PieceTrait>::make(PieceType::Pawn, PieceColor::Black),
                    undo_move.mv.to_square() - 8,
                );
            } else {
                self.put_piece(
                    <Piece as PieceTrait>::make(PieceType::Pawn, PieceColor::White),
                    undo_move.mv.to_square() + 8,
                );
            }
        } else if undo_move.mv.is_castle() {
            if undo_move.mv.flags() == Move::FLAG_KING_CASTLE {
                self.move_piece(undo_move.mv.from_square() + 1, undo_move.mv.from_square() + 3);
            } else {
                self.move_piece(undo_move.mv.from_square() - 1, undo_move.mv.from_square() - 4);
            }
        }

        self.set_turn(self.get_turn().flip());
    }

    fn move_piece(&mut self, from: u8, to: u8)
        requires
            removable(old(self)@, from as int),
            to < 64,
        ensures
            final(self)@ == m_move_piece(old(self)@, from as int, to as int),
    {
        let piece = self.piece_at(from);
        self.remove_piece(from);
        self.put_piece(piece, to);
    }
}

/// A copy of a board's pieces, for trying a move without touching the board.
pub struct Position {
    color: [Bitboard; 2],
    types: [Bitboard; 6],
    mailbox: [Piece; 64],
    rest: Ghost<BoardModel>,
}

impl View for Position {
    type V = BoardModel;

    closed spec fn view(&self) -> BoardModel {
        BoardModel {
            color_bbs: self.color@,
            type_bbs: self.types@,
            mailbox: self.mailbox@,
            ..self.rest@
        }
    }
}

impl Board {
    /// A copy of the pieces of this board.
    pub fn position(&self) -> (r: Position)
        ensures
            r@ == self@,
    {
        Position {
            color: self.piece_bitboards_color,
            types: self.piece_bitboards_type,
            mailbox: self.mailbox,
            rest: Ghost(self@),
        }
    }

    /// The colour bitboards, White first.
    pub fn color_bitboards(&self) -> (r: &[Bitboard; 2])
        ensures
            r@ == self@.color_bbs,
    {
        &self.piece_bitboards_color
    }

    /// The piece type bitboards, Pawn to King.
    pub fn type_bitboards(&self) -> (r: &[Bitboard; 6])
        ensures
            r@ == self@.type_bbs,
    {
        &self.piece_bitboards_type
    }
}

impl Position {
    /// The colour bitboards, White first.
    pub fn color_bitboards(&self) -> (r: &[Bitboard; 2])
        ensures
            r@ == self@.color_bbs,
    {
        &self.color
    }

    /// The piece type bitboards, Pawn to King.
    pub fn type_bitboards(&self) -> (r: &[Bitboard; 6])
        ensures
            r@ == self@.type_bbs,
    {
        &self.types
    }

    fn put_piece(&mut self, piece: Piece, index: u8)
        requires
            index < 64,
            type_code(spec_get_type(piece)) < 6,
        ensures
            final(self)@ == m_put(old(self)@, piece, index as int),
    {
        let bit: Bitboard = 1u64 << index;
        self.mailbox[index as usize] = piece;
        let c = color_index(piece.get_color());
        let t = type_index(piece.get_type());
        self.color[c] = self.color[c] | bit;
        self.types[t] = self.types[t] | bit;
        assert(self@.color_bbs =~= m_put(old(self)@, piece, index as int).color_bbs);
        assert(self@.type_bbs =~= m_put(old(self)@, piece, index as int).type_bbs);
        assert(self@.mailbox =~= m_put(old(self)@, piece, index as int).mailbox);
    }

    fn remove_piece(&mut self, index: u8)
        requires
            removable(old(self)@, index as int),
        ensures
            final(self)@ == m_remove(old(self)@, index as int),
    {
        let bit: Bitboard = 1u64 << index;
        let piece = self.mailbox[index as usize];
        let c = color_index(piece.get_color());
        let t = type_index(piece.get_type());
        self.color[c] = self.color[c] & !bit;
        self.types[t] = self.types[t] & !bit;
        self.mailbox[index as usize] = NO_PIECE;
        assert(self@.color_bbs =~= m_remove(old(self)@, index as int).color_bbs);
        assert(self@.type_bbs =~= m_remove(old(self)@, index as int).type_bbs);
        assert(self@.mailbox =~= m_remove(old(self)@, index as int).mailbox);
    }

    fn move_piece(&mut self, from: u8, to: u8)
        requires
            removable(old(self)@, from as int),
            to < 64,
        ensures
            final(self)@ == m_move_piece(old(self)@, from as int, to as int),
    {
        let piece = self.mailbox[from as usize];
        self.remove_piece(from);
        self.put_piece(piece, to);
    }

    /// Moves the pieces as `Board::do_move` would, with nothing recorded.
    pub fn apply_move(&mut self, mv: Move)
        requires
            do_move_safe(old(self)@, mv),
        ensures
            final(self)@ == m_do_move(old(self)@, mv),
    {
        let ghost b = self@;
        let moving_piece = self.mailbox[mv.from_square() as usize];
        let moving_color = moving_piece.get_color();
        proof {
            self.rest@ = m_step_counters(b, mv);
        }
        assert(self@ == m_step_counters(b, mv));
        let piece = if mv.is_promotion() {
            <Piece as PieceTrait>::make(mv.promotion_type().unwrap(), moving_color)
        } else {
            moving_piece
        };
        if mv.is_en_passant() {
            if moving_color == PieceColor::White {
                self.remove_piece(mv.to_square() - 8);
            } else {
                self.remove_piece(mv.to_square() + 8);
            }
        } else if mv.is_castle() {
            if mv.flags() == Move::FLAG_KING_CASTLE {
                self.move_piece(mv.from_square() + 3, mv.from_square() + 1);
            } else {
                self.move_piece(mv.from_square() - 4, mv.from_square() - 1);
            }
        }
        assert(self@ == m_side_effect(m_step_counters(b, mv), mv, moving_color));
        proof {
            self.rest@ = m_update_flags(self.rest@, mv);
        }
        assert(self@ == m_do_stage1(b, mv));
        if mv.is_capture() && !mv.is_en_passant() {
            self.remove_piece(mv.to_square());
        }
        proof {
            self.rest@ = BoardModel { turn: spec_flip(self.rest@.turn), ..self.rest@ };
        }
        self.remove_piece(mv.from_square());
        assert(self@ == m_do_stage2(b, mv));
        self.put_piece(piece, mv.to_square());
        proof {
            self.rest@ = BoardModel { undo: b.undo.push(undo_record(b, mv)), ..self.rest@ };
        }
    }
}

} // verus!
