use vstd::prelude::*;

verus! {

use vstd::std_specs::bits::{u64_trailing_zeros, axiom_u64_trailing_zeros};

/// A set of squares, one bit per square (bit 0 is a1, bit 63 is h8).
pub type Bitboard = u64;

pub const A_FILE: Bitboard = 0x0101010101010101;

pub const B_FILE: Bitboard = A_FILE << 1;

pub const C_FILE: Bitboard = A_FILE << 2;

pub const D_FILE: Bitboard = A_FILE << 3;

pub const E_FILE: Bitboard = A_FILE << 4;

pub const F_FILE: Bitboard = A_FILE << 5;

pub const G_FILE: Bitboard = A_FILE << 6;

pub const H_FILE: Bitboard = A_FILE << 7;

pub const RANK_1: Bitboard = 0xFF;

pub const RANK_2: Bitboard = RANK_1 << 8;

pub const RANK_3: Bitboard = RANK_1 << (8 * 2);

pub const RANK_4: Bitboard = RANK_1 << (8 * 3);

pub const RANK_5: Bitboard = RANK_1 << (8 * 4);

pub const RANK_6: Bitboard = RANK_1 << (8 * 5);

pub const RANK_7: Bitboard = RANK_1 << (8 * 6);

pub const RANK_8: Bitboard = RANK_1 << (8 * 7);

/// Square `s` is in bitboard `b`.
pub open spec fn has_bit(b: u64, s: int) -> bool {
    0 <= s < 64 && (b >> (s as u64)) & 1 == 1
}

/// The squares of a bitboard.
pub open spec fn bb_set(b: u64) -> Set<int> {
    Set::new(|s: int| has_bit(b, s))
}

/// All squares of the board.
pub open spec fn board_squares() -> Set<int> {
    Set::new(|s: int| 0 <= s < 64)
}

/// The squares of `b` moved up by `k` places, those that leave the board dropped.
pub open spec fn shifted_up(a: Set<int>, k: int) -> Set<int> {
    Set::new(|s: int| k <= s < 64 && a.contains(s - k))
}

/// The squares of `b` moved down by `k` places, those that leave the board dropped.
pub open spec fn shifted_down(a: Set<int>, k: int) -> Set<int> {
    Set::new(|s: int| 0 <= s && s + k < 64 && a.contains(s + k))
}

proof fn lemma_bit_ops(a: u64, b: u64, s: u64, k: u64)
    by (bit_vector)
    requires
        s < 64,
        k < 64,
    ensures
        (((a & b) >> s) & 1 == 1) == (((a >> s) & 1 == 1) && ((b >> s) & 1 == 1)),
        (((a | b) >> s) & 1 == 1) == (((a >> s) & 1 == 1) || ((b >> s) & 1 == 1)),
        (((a ^ b) >> s) & 1 == 1) == (((a >> s) & 1 == 1) != ((b >> s) & 1 == 1)),
        ((!a >> s) & 1 == 1) == !((a >> s) & 1 == 1),
        (((a << k) >> s) & 1 == 1) == (s >= k && ((a >> (s - k) as u64) & 1 == 1)),
        (((a >> k) >> s) & 1 == 1) == (s + k < 64 && ((a >> (s + k) as u64) & 1 == 1)),
        (((1u64 << k) >> s) & 1 == 1) == (s == k),
        ((0u64 >> s) & 1 == 1) == false,
        a ^ b == 0 ==> a == b,
{
}

pub proof fn lemma_bb_and(a: u64, b: u64)
    ensures
        bb_set(a & b) == bb_set(a).intersect(bb_set(b)),
{
    assert forall|s: int| bb_set(a & b).contains(s) == bb_set(a).intersect(bb_set(b)).contains(s) by {
        if 0 <= s < 64 {
            lemma_bit_ops(a, b, s as u64, 0);
        }
    }
    assert(bb_set(a & b) =~= bb_set(a).intersect(bb_set(b)));
}

pub proof fn lemma_bb_or(a: u64, b: u64)
    ensures
        bb_set(a | b) == bb_set(a).union(bb_set(b)),
{
    assert forall|s: int| bb_set(a | b).contains(s) == bb_set(a).union(bb_set(b)).contains(s) by {
        if 0 <= s < 64 {
            lemma_bit_ops(a, b, s as u64, 0);
        }
    }
    assert(bb_set(a | b) =~= bb_set(a).union(bb_set(b)));
}

pub proof fn lemma_bb_not(a: u64)
    ensures
        bb_set(!a) == board_squares().difference(bb_set(a)),
{
    assert forall|s: int| bb_set(!a).contains(s) == board_squares().difference(bb_set(a)).contains(s) by {
        if 0 <= s < 64 {
            lemma_bit_ops(a, 0, s as u64, 0);
        }
    }
    assert(bb_set(!a) =~= board_squares().difference(bb_set(a)));
}

pub proof fn lemma_bb_shl(a: u64, k: u64)
    requires
        k < 64,
    ensures
        bb_set(a << k) == shifted_up(bb_set(a), k as int),
{
    assert forall|s: int| bb_set(a << k).contains(s) == shifted_up(bb_set(a), k as int).contains(s) by {
        if 0 <= s < 64 {
            lemma_bit_ops(a, 0, s as u64, k);
        }
    }
    assert(bb_set(a << k) =~= shifted_up(bb_set(a), k as int));
}

pub proof fn lemma_bb_shr(a: u64, k: u64)
    requires
        k < 64,
    ensures
        bb_set(a >> k) == shifted_down(bb_set(a), k as int),
{
    assert forall|s: int| bb_set(a >> k).contains(s) == shifted_down(bb_set(a), k as int).contains(s) by {
        if 0 <= s < 64 {
            lemma_bit_ops(a, 0, s as u64, k);
        }
    }
    assert(bb_set(a >> k) =~= shifted_down(bb_set(a), k as int));
}

pub proof fn lemma_bb_single(k: u64)
    requires
        k < 64,
    ensures
        bb_set(1u64 << k) == set![k as int],
{
    assert forall|s: int| bb_set(1u64 << k).contains(s) == set![k as int].contains(s) by {
        if 0 <= s < 64 {
            lemma_bit_ops(0, 0, s as u64, k);
        }
    }
    assert(bb_set(1u64 << k) =~= set![k as int]);
}

pub proof fn lemma_bb_zero()
    ensures
        bb_set(0) == Set::<int>::empty(),
{
    assert forall|s: int| !bb_set(0).contains(s) by {
        if 0 <= s < 64 {
            lemma_bit_ops(0, 0, s as u64, 0);
        }
    }
    assert(bb_set(0) =~= Set::<int>::empty());
}

/// A nonzero bitboard holds its lowest square, the count of trailing zeros.
pub proof fn lemma_bb_lowest(a: u64)
    requires
        a != 0,
    ensures
        u64_trailing_zeros(a) < 64,
        bb_set(a).contains(u64_trailing_zeros(a) as int),
        forall|s: int| #[trigger] bb_set(a).contains(s) ==> u64_trailing_zeros(a) <= s,
{
    axiom_u64_trailing_zeros(a);
    let t = u64_trailing_zeros(a) as u64;
    assert forall|s: int| #[trigger] bb_set(a).contains(s) implies t <= s by {
        if s < t {
            assert((a >> (s as u64)) & 1u64 == 0u64);
        }
    }
}

/// A bitboard is zero exactly when it holds no square.
pub proof fn lemma_bb_empty(a: u64)
    ensures
        (a == 0) == (bb_set(a) == Set::<int>::empty()),
{
    lemma_bb_zero();
    if a != 0 {
        lemma_bb_lowest(a);
    }
}

/// Two bitboards with the same squares are equal.
pub proof fn lemma_bb_ext(a: u64, b: u64)
    requires
        bb_set(a) == bb_set(b),
    ensures
        a == b,
{
    assert forall|s: int| !bb_set(a ^ b).contains(s) by {
        if 0 <= s < 64 {
            lemma_bit_ops(a, b, s as u64, 0);
            assert(bb_set(a).contains(s) == bb_set(b).contains(s));
            assert(bb_set(a).contains(s) == has_bit(a, s));
            assert(bb_set(b).contains(s) == has_bit(b, s));
            assert(!has_bit(a ^ b, s));
        }
    }
    assert(bb_set(a ^ b) =~= Set::<int>::empty());
    lemma_bb_empty(a ^ b);
    lemma_bit_ops(a, b, 0, 0);
}

proof fn lemma_shift_step(b: u64, t: u64)
    by (bit_vector)
    requires
        t < 63,
        (b >> t) << t == b,
        (b >> t) & 1 == 0,
    ensures
        (b >> (t + 1) as u64) << (t + 1) as u64 == b,
{
}

proof fn lemma_clear_lowest_bits(b: u64, t: u64, s: u64)
    by (bit_vector)
    requires
        t < 64,
        s < 64,
        (b >> t) << t == b,
        (b >> t) & 1 == 1,
    ensures
        (((b & ((b - 1) as u64)) >> s) & 1 == 1) == (((b >> s) & 1 == 1) && s != t),
        b & ((b - 1) as u64) < b,
{
}

proof fn lemma_low_zero(b: u64, t: u64)
    requires
        t < 64,
        forall|j: u64| j < t ==> #[trigger] ((b >> j) & 1) == 0,
    ensures
        (b >> t) << t == b,
    decreases t,
{
    if t == 0 {
        lemma_clear_lowest_bits_zero(b);
    } else {
        lemma_low_zero(b, (t - 1) as u64);
        assert(((b >> (t - 1) as u64) & 1) == 0);
        lemma_shift_step(b, (t - 1) as u64);
    }
}

proof fn lemma_clear_lowest_bits_zero(b: u64)
    by (bit_vector)
    ensures
        (b >> 0u64) << 0u64 == b,
{
}

/// Clearing the lowest bit removes exactly the lowest square.
pub proof fn lemma_bb_pop(a: u64)
    requires
        a != 0,
    ensures
        u64_trailing_zeros(a) < 64,
        bb_set(a & ((a - 1) as u64)) == bb_set(a).remove(u64_trailing_zeros(a) as int),
        a & ((a - 1) as u64) < a,
{
    axiom_u64_trailing_zeros(a);
    let t = u64_trailing_zeros(a) as u64;
    lemma_low_zero(a, t);
    lemma_clear_lowest_bits(a, t, 0);
    assert forall|s: int| bb_set(a & ((a - 1) as u64)).contains(s) == bb_set(a).remove(t as int).contains(s) by {
        if 0 <= s < 64 {
            lemma_clear_lowest_bits(a, t, s as u64);
        }
    }
    assert(bb_set(a & ((a - 1) as u64)) =~= bb_set(a).remove(t as int));
}

/// The squares of a bitboard in increasing order.
pub open spec fn bits_of(b: u64) -> Seq<u8>
    decreases b,
{
    if b == 0 {
        Seq::empty()
    } else {
        proof {
            lemma_bb_pop(b);
        }
        seq![u64_trailing_zeros(b) as u8] + bits_of(b & ((b - 1) as u64))
    }
}

/// `bits_of` lists each square of the bitboard once, in increasing order.
pub proof fn lemma_bits_of(b: u64)
    ensures
        forall|i: int| 0 <= i < bits_of(b).len() ==> bb_set(b).contains(#[trigger] bits_of(b)[i] as int),
        forall|s: int| bb_set(b).contains(s) ==> exists|i: int| 0 <= i < bits_of(b).len() && #[trigger] bits_of(b)[i] == s,
        forall|i: int, j: int| 0 <= i < j < bits_of(b).len() ==> #[trigger] bits_of(b)[i] < #[trigger] bits_of(b)[j],
        forall|i: int| 0 <= i < bits_of(b).len() ==> #[trigger] bits_of(b)[i] < 64,
    decreases b,
{
    if b == 0 {
        lemma_bb_zero();
    } else {
        lemma_bb_pop(b);
        lemma_bb_lowest(b);
        let rest = b & ((b - 1) as u64);
        lemma_bits_of(rest);
        let t = u64_trailing_zeros(b) as u8;
        assert(bits_of(b) == seq![t] + bits_of(rest));
        assert forall|s: int| bb_set(b).contains(s) implies exists|i: int| 0 <= i < bits_of(b).len() && #[trigger] bits_of(b)[i] == s by {
            if s == t {
                assert(bits_of(b)[0] == s);
            } else {
                assert(bb_set(rest).contains(s));
                let i = choose|i: int| 0 <= i < bits_of(rest).len() && #[trigger] bits_of(rest)[i] == s;
                assert(bits_of(b)[i + 1] == s);
            }
        }
        assert forall|i: int, j: int| 0 <= i < j < bits_of(b).len() implies #[trigger] bits_of(b)[i] < #[trigger] bits_of(b)[j] by {
            if i == 0 {
                assert(bb_set(rest).contains(bits_of(rest)[j - 1] as int));
            } else {
                assert(bits_of(b)[i] == bits_of(rest)[i - 1]);
                assert(bits_of(b)[j] == bits_of(rest)[j - 1]);
            }
        }
        assert forall|i: int| 0 <= i < bits_of(b).len() implies bb_set(b).contains(#[trigger] bits_of(b)[i] as int) by {
            if i > 0 {
                assert(bits_of(b)[i] == bits_of(rest)[i - 1]);
            }
        }
    }
}

pub trait BitboardExt: Sized {
    /// The bitboard holds a square to take.
    spec fn nonempty(&self) -> bool;

    fn pop_lsb(&mut self) -> u8
        requires
            old(self).nonempty(),
    ;
}

impl BitboardExt for Bitboard {
    open spec fn nonempty(&self) -> bool {
        *self != 0
    }

    /// Removes the lowest square of the bitboard and returns it.
    fn pop_lsb(&mut self) -> (r: u8)
        ensures
            r == bits_of(*old(self))[0],
            r < 64,
            bits_of(*final(self)) == bits_of(*old(self)).drop_first(),
            bb_set(*final(self)) == bb_set(*old(self)).remove(r as int),
            bb_set(*old(self)).contains(r as int),
    {
        proof {
            lemma_bb_pop(*self);
            lemma_bb_lowest(*self);
        }
        let bits = self.trailing_zeros() as u8;
        *self &= *self - 1u64;
        bits
    }
}

} // verus!
