use vstd::prelude::*;

verus! {

use crate::bitboard::Bitboard;
use crate::board::CastlingRights;
use crate::piece::{Piece, PieceType, type_of_code};

/// A move packed in 16 bits: origin square in bits 0..6, target square in
/// bits 6..12, flags in bits 12..16.
#[derive(Debug, Default, Clone, Copy, PartialEq, Eq, Structural)]
pub struct Move(pub u16);

/// The origin square of a packed move.
pub open spec fn move_from(m: Move) -> int {
    (m.0 % 64) as int
}

/// The target square of a packed move.
pub open spec fn move_to(m: Move) -> int {
    ((m.0 / 64) % 64) as int
}

/// The four flag bits of a packed move.
pub open spec fn move_flags(m: Move) -> int {
    (m.0 / 4096) as int
}

/// The packed move built from its parts, bit for bit as `Move::new` builds it.
pub open spec fn spec_move(from: u8, to: u8, flag: u16) -> Move {
    Move(((flag << 12u16) | (from as u16)) | ((to as u16) << 6u16))
}

pub open spec fn spec_is_capture(m: Move) -> bool {
    (move_flags(m) / 4) % 2 == 1
}

pub open spec fn spec_is_promotion(m: Move) -> bool {
    move_flags(m) >= 8
}

pub open spec fn spec_is_en_passant(m: Move) -> bool {
    move_flags(m) == 5
}

pub open spec fn spec_is_double_pawn(m: Move) -> bool {
    move_flags(m) == 1
}

pub open spec fn spec_is_castle(m: Move) -> bool {
    move_flags(m) == 2 || move_flags(m) == 3
}

/// The piece a promotion turns into: knight, bishop, rook or queen by the two low flag bits.
pub open spec fn spec_promotion_type(m: Move) -> Option<PieceType> {
    if spec_is_promotion(m) {
        Some(type_of_code((move_flags(m) % 4 + 1) as u8))
    } else {
        None
    }
}

proof fn lemma_move_fields(m: u16, from: u16, to: u16, flag: u16)
    by (bit_vector)
    ensures
        m & 0b111111u16 == m % 64,
        (m & (0b111111u16 << 6u16)) >> 6u16 == (m / 64) % 64,
        (m & (0b1111u16 << 12u16)) >> 12u16 == m / 4096,
        (from < 64 && to < 64 && flag < 16) ==> ((flag << 12u16) | from) | (to << 6u16) == flag
            * 4096 + to * 64 + from,
        m / 4096 < 16,
        (m / 4096) & 4u16 == ((m / 4096) / 4) % 2 * 4,
        (m / 4096) & 8u16 == ((m / 4096) / 8) * 8,
        (m / 4096) & !4u16 == (m / 4096) - ((m / 4096) / 4) % 2 * 4,
{
}

/// The decimal digit of `d`.
pub open spec fn digit_char(d: nat) -> char {
    (d + 48) as char
}

/// The decimal digits of `n`, most significant first.
pub open spec fn decimal(n: nat) -> Seq<char>
    decreases n,
{
    if n < 10 {
        seq![digit_char(n)]
    } else {
        decimal(n / 10).push(digit_char(n % 10))
    }
}

/// The number the decimal digits `s` write, most significant first.
pub open spec fn digits_value(s: Seq<char>) -> nat
    decreases s.len(),
{
    if s.len() == 0 {
        0
    } else {
        digits_value(s.drop_last()) * 10 + (s.last() as int - '0' as int) as nat
    }
}

/// `decimal(n)` is the usual decimal writing of `n`: one digit at least,
/// only the characters `0` to `9`, no leading zero but for zero itself
/// (written `0`), and its digits read back as `n`.
pub proof fn lemma_decimal(n: nat)
    ensures
        decimal(n).len() >= 1,
        forall|i: int| 0 <= i < decimal(n).len() ==> '0' <= #[trigger] decimal(n)[i] <= '9',
        digits_value(decimal(n)) == n,
        decimal(n).len() == 1 || decimal(n)[0] != '0',
        n == 0 ==> decimal(n) == seq!['0'],
    decreases n,
{
    if n >= 10 {
        let q = n / 10;
        let r = n % 10;
        lemma_decimal(q);
        lemma_digit_char(r);
        let d = decimal(n);
        assert(d == decimal(q).push(digit_char(r)));
        assert(d.drop_last() =~= decimal(q));
        assert(d[0] == decimal(q)[0]);
        assert(n == q * 10 + r) by (nonlinear_arith)
            requires
                q == n / 10,
                r == n % 10,
        ;
        assert(digits_value(d) == digits_value(decimal(q)) * 10 + r);
        assert forall|i: int| 0 <= i < d.len() implies '0' <= #[trigger] d[i] <= '9' by {
            if i < d.len() - 1 {
                assert(d[i] == decimal(q)[i]);
            }
        }
        if q < 10 {
            lemma_digit_char(q);
            assert(decimal(q) == seq![digit_char(q)]);
            assert(d[0] == digit_char(q));
        } else {
            lemma_decimal(q / 10);
            assert(decimal(q).len() >= 2);
        }
        assert(digits_value(d) == n);
    } else {
        lemma_digit_char(n);
        let d = decimal(n);
        assert(d == seq![digit_char(n)]);
        assert(d.drop_last() =~= Seq::<char>::empty());
        assert(digits_value(d.drop_last()) == 0);
        assert(d.last() as int - '0' as int == n);
        assert(digits_value(d) == n);
    }
}

proof fn lemma_digit_char(d: nat)
    requires
        d < 10,
    ensures
        digit_char(d) as int == d + 48,
        '0' <= digit_char(d) <= '9',
        d > 0 ==> digit_char(d) != '0',
{
}

/// How a move reads: nothing for the empty move, else its origin, target and
/// flags in decimal.
pub open spec fn move_text(m: Move) -> Seq<char> {
    if m.0 == 0 {
        Seq::empty()
    } else {
        "From: "@ + decimal(move_from(m) as nat) + " To: "@ + decimal(move_to(m) as nat)
            + " Flags: "@ + decimal(move_flags(m) as nat)
    }
}

/// Calls `String::push`, whose documentation says it appends the character
/// to the end of the string: the contract claims the string afterwards holds
/// its old characters followed by `c`. Believed, not proved.
#[verifier::external_body]
fn push_char(s: &mut String, c: char)
    ensures
        final(s)@ == old(s)@.push(c),
{
    s.push(c);
}

/// Appends the characters of `t` to `s`.
fn push_text(s: &mut String, t: &str)
    ensures
        final(s)@ == old(s)@ + t@,
{
    let n = t.unicode_len();
    let mut i: usize = 0;
    assert(t@.take(0) =~= Seq::<char>::empty());
    assert(s@ =~= old(s)@ + t@.take(0));
    while i < n
        invariant
            n == t@.len(),
            i <= n,
            s@ == old(s)@ + t@.take(i as int),
        decreases n - i,
    {
        let c = t.get_char(i);
        push_char(s, c);
        assert(t@.take(i + 1) =~= t@.take(i as int).push(c));
        assert(s@ =~= old(s)@ + t@.take(i + 1));
        i += 1;
    }
    assert(t@.take(n as int) =~= t@);
}

/// Appends the decimal digits of `n` to `s`.
fn push_decimal(s: &mut String, n: u16)
    ensures
        final(s)@ == old(s)@ + decimal(n as nat),
    decreases n,
{
    if n >= 10 {
        push_decimal(s, n / 10);
    }
    let d = (n % 10) as u8;
    push_char(s, (48u8 + d) as char);
    assert(s@ =~= old(s)@ + decimal(n as nat));
}

/// A move packed from parts in range gives those parts back.
pub proof fn lemma_spec_move(from: u8, to: u8, flag: u16)
    requires
        from < 64,
        to < 64,
        flag < 16,
    ensures
        move_from(spec_move(from, to, flag)) == from,
        move_to(spec_move(from, to, flag)) == to,
        move_flags(spec_move(from, to, flag)) == flag,
{
    lemma_move_fields(0, from as u16, to as u16, flag);
}

impl Move {
    const FROM_MASK: u16 = 0b111111;

    const TO_MASK: u16 = 0b111111 << 6;

    const FLAG_MASK: u16 = 0b1111 << 12;

    pub const FLAG_QUIET: u16 = 0b0000;

    pub const FLAG_DOUBLE_PAWN_PUSH: u16 = 0b0001;

    pub const FLAG_KING_CASTLE: u16 = 0b0010;

    pub const FLAG_QUEEN_CASTLE: u16 = 0b0011;

    pub const FLAG_CAPTURE: u16 = 0b0100;

    pub const FLAG_EN_PASSANT: u16 = 0b0101;

    pub const FLAG_PROMOTE_KNIGHT: u16 = 0b1000;

    pub const FLAG_PROMOTE_BISHOP: u16 = 0b1001;

    pub const FLAG_PROMOTE_ROOK: u16 = 0b1010;

    pub const FLAG_PROMOTE_QUEEN: u16 = 0b1011;

    pub const FLAG_PROMOTE_KNIGHT_CAPTURE: u16 = 0b1100;

    pub const FLAG_PROMOTE_BISHOP_CAPTURE: u16 = 0b1101;

    pub const FLAG_PROMOTE_ROOK_CAPTURE: u16 = 0b1110;

    pub const FLAG_PROMOTE_QUEEN_CAPTURE: u16 = 0b1111;

    /// The empty move, all bits zero.
    pub fn null() -> (r: Move)
        ensures
            r == Move(0),
    {
        Move(0)
    }

    pub fn as_bytes(self) -> (r: u16)
        ensures
            r == self.0,
    {
        self.0
    }

    pub fn from_bytes(m: u16) -> (r: Move)
        ensures
            r == Move(m),
    {
        Move(m)
    }

    /// The move as text: empty for the empty move, else its origin, target
    /// and flags.
    pub fn to_string(&self) -> (r: String)
        ensures
            r@ == move_text(*self),
    {
        let mut s = String::new();
        if self.0 == 0 {
            return s;
        }
        push_text(&mut s, "From: ");
        push_decimal(&mut s, self.from_square() as u16);
        push_text(&mut s, " To: ");
        push_decimal(&mut s, self.to_square() as u16);
        push_text(&mut s, " Flags: ");
        push_decimal(&mut s, self.flags());
        assert(s@ =~= move_text(*self));
        s
    }

    /// Packs a move. Parts in range come back unchanged from the getters.
    pub fn new(from: u8, to: u8, flag: u16) -> (r: Self)
        ensures
            r == spec_move(from, to, flag),
            from < 64 && to < 64 && flag < 16 ==> {
                &&& r.0 == flag * 4096 + to * 64 + from
                &&& move_from(r) == from
                &&& move_to(r) == to
                &&& move_flags(r) == flag
            },
    {
        proof {
            lemma_move_fields(0, from as u16, to as u16, flag);
        }
        Self(flag << 12 | (from as u16) | ((to as u16) << 6))
    }

    pub fn from_square(self) -> (r: u8)
        ensures
            r == move_from(self),
    {
        proof {
            lemma_move_fields(self.0, 0, 0, 0);
        }
        (self.0 & Move::FROM_MASK) as u8
    }

    pub fn to_square(self) -> (r: u8)
        ensures
            r == move_to(self),
    {
        proof {
            lemma_move_fields(self.0, 0, 0, 0);
        }
        ((self.0 & Move::TO_MASK) >> 6) as u8
    }

    pub fn flags(self) -> (r: u16)
        ensures
            r == move_flags(self),
    {
        proof {
            lemma_move_fields(self.0, 0, 0, 0);
        }
        (self.0 & Move::FLAG_MASK) >> 12
    }

    pub fn is_en_passant(self) -> (r: bool)
        ensures
            r == spec_is_en_passant(self),
    {
        self.flags() == Move::FLAG_EN_PASSANT
    }

    pub fn is_double_pawn(self) -> (r: bool)
        ensures
            r == spec_is_double_pawn(self),
    {
        self.flags() == Move::FLAG_DOUBLE_PAWN_PUSH
    }

    pub fn is_capture(self) -> (r: bool)
        ensures
            r == spec_is_capture(self),
    {
        proof {
            lemma_move_fields(self.0, 0, 0, 0);
        }
        (self.flags() & Move::FLAG_CAPTURE) != 0
    }

    pub fn is_castle(self) -> (r: bool)
        ensures
            r == spec_is_castle(self),
    {
        self.flags() == Move::FLAG_KING_CASTLE || self.flags() == Move::FLAG_QUEEN_CASTLE
    }

    pub fn is_promotion(self) -> (r: bool)
        ensures
            r == spec_is_promotion(self),
    {
        proof {
            lemma_move_fields(self.0, 0, 0, 0);
        }
        (self.flags() & 0b1000) != 0
    }

    pub fn promotion_type(self) -> (r: Option<PieceType>)
        ensures
            r == spec_promotion_type(self),
    {
        proof {
            lemma_move_fields(self.0, 0, 0, 0);
        }
        let kind = self.flags() & !Move::FLAG_CAPTURE;
        if kind == Move::FLAG_PROMOTE_KNIGHT {
            Some(PieceType::Knight)
        } else if kind == Move::FLAG_PROMOTE_BISHOP {
            Some(PieceType::Bishop)
        } else if kind == Move::FLAG_PROMOTE_ROOK {
            Some(PieceType::Rook)
        } else if kind == Move::FLAG_PROMOTE_QUEEN {
            Some(PieceType::Queen)
        } else {
            None
        }
    }
}

/// A list of moves in the order they were added.
#[derive(Clone, Debug)]
pub struct MoveList {
    moves: Vec<Move>,
}

impl View for MoveList {
    type V = Seq<Move>;

    closed spec fn view(&self) -> Seq<Move> {
        self.moves@
    }
}

impl Default for MoveList {
    fn default() -> (r: Self)
        ensures
            r@ == Seq::<Move>::empty(),
    {
        Self::new()
    }
}

/// Two moves join the same pair of squares.
pub open spec fn same_squares(a: Move, b: Move) -> bool {
    move_from(a) == move_from(b) && move_to(a) == move_to(b)
}

/// The first move of `s` that joins the same squares as `m`.
pub open spec fn first_same_squares(s: Seq<Move>, m: Move) -> Option<Move>
    decreases s.len(),
{
    if s.len() == 0 {
        None
    } else if same_squares(s[0], m) {
        Some(s[0])
    } else {
        first_same_squares(s.drop_first(), m)
    }
}

/// `first_same_squares` is the first move of `s` that leaves the origin of
/// `m` for its target; it is none exactly when no move of `s` joins them.
pub proof fn lemma_first_same_squares(s: Seq<Move>, m: Move)
    ensures
        first_same_squares(s, m) matches Some(x) ==> exists|i: int|
            0 <= i < s.len() && #[trigger] s[i] == x && move_from(x) == move_from(m) && move_to(x)
                == move_to(m) && forall|j: int|
                0 <= j < i ==> !(move_from(#[trigger] s[j]) == move_from(m) && move_to(s[j])
                    == move_to(m)),
        first_same_squares(s, m) is None ==> forall|i: int|
            0 <= i < s.len() ==> !(move_from(#[trigger] s[i]) == move_from(m) && move_to(s[i])
                == move_to(m)),
    decreases s.len(),
{
    if s.len() > 0 {
        let t = s.drop_first();
        lemma_first_same_squares(t, m);
        if same_squares(s[0], m) {
            assert(s[0] == s[0]);
        } else {
            if first_same_squares(t, m) is Some {
                let x = first_same_squares(t, m).unwrap();
                let i = choose|i: int|
                    0 <= i < t.len() && #[trigger] t[i] == x && move_from(x) == move_from(m)
                        && move_to(x) == move_to(m) && forall|j: int|
                        0 <= j < i ==> !(move_from(#[trigger] t[j]) == move_from(m) && move_to(t[j])
                            == move_to(m));
                assert(s[i + 1] == x);
                assert forall|j: int| 0 <= j < i + 1 implies !(move_from(#[trigger] s[j])
                    == move_from(m) && move_to(s[j]) == move_to(m)) by {
                    if j > 0 {
                        assert(s[j] == t[j - 1]);
                    }
                }
            } else {
                assert forall|i: int| 0 <= i < s.len() implies !(move_from(#[trigger] s[i])
                    == move_from(m) && move_to(s[i]) == move_to(m)) by {
                    if i > 0 {
                        assert(s[i] == t[i - 1]);
                    }
                }
            }
        }
    }
}

impl MoveList {
    pub fn new() -> (r: Self)
        ensures
            r@ == Seq::<Move>::empty(),
    {
        Self { moves: Vec::with_capacity(64) }
    }

    pub fn size(&self) -> (r: u8)
        requires
            self@.len() < 256,
        ensures
            r == self@.len(),
    {
        self.moves.len() as u8
    }

    /// The number of moves, as a `usize`.
    pub fn len(&self) -> (r: usize)
        ensures
            r == self@.len(),
    {
        self.moves.len()
    }

    pub fn move_at(&self, index: u8) -> (r: Move)
        requires
            index < self@.len(),
        ensures
            r == self@[index as int],
    {
        self.moves[index as usize]
    }

    pub fn add(&mut self, mv: Move)
        ensures
            final(self)@ == old(self)@.push(mv),
    {
        self.moves.push(mv);
    }

    pub fn as_slice(&self) -> (r: &[Move])
        ensures
            r@ == self@,
    {
        self.moves.as_slice()
    }

    /// The first move in the list with the origin and target squares of `move_to_find`.
    pub fn contains(&self, move_to_find: Move) -> (r: Option<Move>)
        ensures
            r == first_same_squares(self@, move_to_find),
            r matches Some(x) ==> self@.contains(x) && move_from(x) == move_from(move_to_find)
                && move_to(x) == move_to(move_to_find),
            r is None ==> forall|i: int|
                0 <= i < self@.len() ==> !(move_from(#[trigger] self@[i]) == move_from(move_to_find)
                    && move_to(self@[i]) == move_to(move_to_find)),
    {
        proof {
            lemma_first_same_squares(self@, move_to_find);
        }
        let n = self.moves.len();
        let mut i: usize = 0;
        assert(self@.subrange(0, n as int) =~= self@);
        while i < n
            invariant
                n == self@.len(),
                i <= n,
                first_same_squares(self@, move_to_find) == first_same_squares(
                    self@.subrange(i as int, n as int),
                    move_to_find,
                ),
            decreases n - i,
        {
            let m = self.moves[i];
            assert(self@.subrange(i as int, n as int)[0] == m);
            assert(self@.subrange(i as int, n as int).drop_first() =~= self@.subrange(
                i + 1,
                n as int,
            ));
            if m.from_square() == move_to_find.from_square() && m.to_square()
                == move_to_find.to_square() {
                return Some(m);
            }
            i += 1;
        }
        assert(self@.subrange(n as int, n as int).len() == 0);
        None
    }
}

/// What a move changed that the board cannot compute back.
#[derive(Debug, Default, Clone, Copy, PartialEq, Eq, Structural)]
pub struct UndoMove {
    pub mv: Move,
    pub taken_piece: Piece,
    pub castling_rights: CastlingRights,
    pub en_passant_bb: Bitboard,
    pub half_move_counter: u8,
    pub full_move_counter: u16,
}

/// A stack of undo records, at most 256 deep.
#[derive(Debug, PartialEq, Eq)]
pub struct UndoList {
    list: Vec<UndoMove>,
}

impl View for UndoList {
    type V = Seq<UndoMove>;

    closed spec fn view(&self) -> Seq<UndoMove> {
        self.list@
    }
}

impl Default for UndoList {
    fn default() -> (r: Self)
        ensures
            r@ == Seq::<UndoMove>::empty(),
    {
        UndoList { list: Vec::new() }
    }
}

impl UndoList {
    /// Takes the newest record off the stack, if there is one.
    pub fn pop(&mut self) -> (r: Option<UndoMove>)
        ensures
            old(self)@.len() == 0 ==> r is None && final(self)@ == old(self)@,
            old(self)@.len() > 0 ==> r == Some(old(self)@.last()) && final(self)@
                == old(self)@.drop_last(),
    {
        self.list.pop()
    }

    /// Pushes a record; the stack holds 256 at most.
    pub fn add(&mut self, undo_move: UndoMove)
        requires
            old(self)@.len() < 256,
        ensures
            final(self)@ == old(self)@.push(undo_move),
    {
        self.list.push(undo_move);
    }

    pub fn len(&self) -> (r: usize)
        ensures
            r == self@.len(),
    {
        self.list.len()
    }
}

} // verus!
