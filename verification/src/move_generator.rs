use vstd::prelude::*;

verus! {

use crate::bitboard::{
    Bitboard, BitboardExt, bits_of, bb_set, lemma_bb_or, lemma_bb_and, lemma_bb_single,
    lemma_bb_empty, A_FILE, H_FILE, RANK_2, RANK_3, RANK_6, RANK_7,
};
use crate::attack_tables::AttackTables;
use crate::board::{
    Board, BoardModel, CastlingRights, m_do_move, m_wf, move_sound, lemma_do_undo, pos_of,
};
use crate::moves::{Move, MoveList, spec_move};
use crate::piece::{PieceColor, PieceType, color_code, color_index, spec_flip};
use crate::squares::Squares;
use crate::king_safety::{lemma_unseen_move_safe, safe_king};

/// The single square one step `(dx, dy)` away from file `x`, rank `y`, or
/// nothing when that step leaves the board.
pub open spec fn spec_step_bit(x: int, y: int, dx: int, dy: int) -> u64 {
    if 0 <= x + dx < 8 && 0 <= y + dy < 8 {
        1u64 << (((y + dy) * 8 + x + dx) as u64)
    } else {
        0
    }
}

fn step_bit(x: i32, y: i32, dx: i32, dy: i32) -> (r: u64)
    requires
        0 <= x < 8,
        0 <= y < 8,
        -2 <= dx <= 2,
        -2 <= dy <= 2,
    ensures
        r == spec_step_bit(x as int, y as int, dx as int, dy as int),
{
    let curr_x = x + dx;
    let curr_y = y + dy;
    if (curr_x < 8 && curr_x >= 0) && (curr_y < 8 && curr_y >= 0) {
        let curr_idx = curr_y * 8 + curr_x;
        1u64 << (curr_idx as u64)
    } else {
        0
    }
}

/// The squares a knight on `sq` attacks.
pub open spec fn spec_knight_attacks(sq: int) -> u64 {
    let x = sq % 8;
    let y = sq / 8;
    spec_step_bit(x, y, 1, 2) | spec_step_bit(x, y, -1, 2) | spec_step_bit(x, y, 1, -2)
        | spec_step_bit(x, y, -1, -2) | spec_step_bit(x, y, 2, 1) | spec_step_bit(x, y, -2, 1)
        | spec_step_bit(x, y, 2, -1) | spec_step_bit(x, y, -2, -1)
}

/// The squares a king on `sq` attacks.
pub open spec fn spec_king_attacks(sq: int) -> u64 {
    let x = sq % 8;
    let y = sq / 8;
    spec_step_bit(x, y, 1, 1) | spec_step_bit(x, y, 1, -1) | spec_step_bit(x, y, 1, 0)
        | spec_step_bit(x, y, -1, 1) | spec_step_bit(x, y, -1, -1) | spec_step_bit(x, y, -1, 0)
        | spec_step_bit(x, y, 0, 1) | spec_step_bit(x, y, 0, -1)
}

/// The squares a knight on `sq` attacks.
pub fn knight_attacks(sq: u8) -> (r: Bitboard)
    requires
        sq < 64,
    ensures
        r == spec_knight_attacks(sq as int),
{
    let x = (sq % 8) as i32;
    let y = (sq / 8) as i32;
    step_bit(x, y, 1, 2) | step_bit(x, y, -1, 2) | step_bit(x, y, 1, -2) | step_bit(x, y, -1, -2)
        | step_bit(x, y, 2, 1) | step_bit(x, y, -2, 1) | step_bit(x, y, 2, -1) | step_bit(
        x,
        y,
        -2,
        -1,
    )
}

/// The squares a king on `sq` attacks.
pub fn king_attacks(sq: u8) -> (r: Bitboard)
    requires
        sq < 64,
    ensures
        r == spec_king_attacks(sq as int),
{
    let x = (sq % 8) as i32;
    let y = (sq / 8) as i32;
    step_bit(x, y, 1, 1) | step_bit(x, y, 1, -1) | step_bit(x, y, 1, 0) | step_bit(x, y, -1, 1)
        | step_bit(x, y, -1, -1) | step_bit(x, y, -1, 0) | step_bit(x, y, 0, 1) | step_bit(
        x,
        y,
        0,
        -1,
    )
}

/// The squares a slider on file `x`, rank `y` reaches in direction `(dx, dy)`
/// within `n` steps: every square up to and including the first one that
/// holds a blocker, and none past the board's edge.
pub open spec fn spec_ray(x: int, y: int, dx: int, dy: int, blocker: u64, n: nat) -> u64
    decreases n,
{
    if n == 0 {
        0
    } else {
        let nx = x + dx;
        let ny = y + dy;
        if 0 <= nx < 8 && 0 <= ny < 8 {
            let bit = 1u64 << ((nx + ny * 8) as u64);
            if bit & blocker != 0 {
                bit
            } else {
                bit | spec_ray(nx, ny, dx, dy, blocker, (n - 1) as nat)
            }
        } else {
            0
        }
    }
}

/// The squares of a blocker mask on file `x`, rank `y` in direction
/// `(dx, dy)` within `n` steps, for a slider that started on `sx`, `sy`:
/// the squares it passes, up to but not including the board's edge in the
/// direction it moves.
pub open spec fn spec_mask_ray(sx: int, sy: int, x: int, y: int, dx: int, dy: int, n: nat) -> u64
    decreases n,
{
    if n == 0 {
        0
    } else {
        let nx = x + dx;
        let ny = y + dy;
        let hit_x_edge = sx != nx && (nx < 1 || nx >= 7);
        let hit_y_edge = sy != ny && (ny < 1 || ny >= 7);
        if 0 <= nx < 8 && 0 <= ny < 8 && !hit_x_edge && !hit_y_edge {
            (1u64 << ((nx + ny * 8) as u64)) | spec_mask_ray(sx, sy, nx, ny, dx, dy, (n - 1) as nat)
        } else {
            0
        }
    }
}

proof fn lemma_or_assoc(a: u64, b: u64, c: u64)
    by (bit_vector)
    ensures
        (a | b) | c == a | (b | c),
        a | 0 == a,
        0 | a == a,
{
}

/// The squares a slider on `(sx, sy)` reaches in direction `(dx, dy)`.
fn ray_attacks(sx: i32, sy: i32, dx: i32, dy: i32, blocker: Bitboard) -> (r: Bitboard)
    requires
        0 <= sx < 8,
        0 <= sy < 8,
        -1 <= dx <= 1,
        -1 <= dy <= 1,
        dx != 0 || dy != 0,
    ensures
        r == spec_ray(sx as int, sy as int, dx as int, dy as int, blocker, 8),
{
    let mut attacks: Bitboard = 0;
    let mut x = sx + dx;
    let mut y = sy + dy;
    let ghost mut k: int = 1;
    proof {
        lemma_or_assoc(spec_ray(sx as int, sy as int, dx as int, dy as int, blocker, 8), 0, 0);
        lemma_or_assoc(0, 0, 0);
    }
    while x >= 0 && x < 8 && y >= 0 && y < 8
        invariant_except_break
            1 <= k <= 8,
            dx == 1 ==> x == sx + k,
            dx == -1 ==> x == sx - k,
            dx == 0 ==> x == sx,
            dy == 1 ==> y == sy + k,
            dy == -1 ==> y == sy - k,
            dy == 0 ==> y == sy,
            attacks | 0u64 == attacks,
            -1 <= dx <= 1,
            -1 <= dy <= 1,
            dx != 0 || dy != 0,
            0 <= sx < 8,
            0 <= sy < 8,
            attacks | spec_ray(x - dx, y - dy, dx as int, dy as int, blocker, (9 - k) as nat)
                == spec_ray(sx as int, sy as int, dx as int, dy as int, blocker, 8),
        ensures
            attacks == spec_ray(sx as int, sy as int, dx as int, dy as int, blocker, 8),
        decreases 9 - k,
    {
        assert(k <= 7);
        let curr_idx = (x + (y * 8)) as u8;
        let bit = 1u64 << curr_idx;
        let ghost rest = spec_ray(x as int, y as int, dx as int, dy as int, blocker, (8 - k) as nat);
        assert(spec_ray(x - dx, y - dy, dx as int, dy as int, blocker, (9 - k) as nat) == if bit
            & blocker != 0 {
            bit
        } else {
            bit | rest
        });
        let ghost a0 = attacks;
        attacks = attacks | bit;
        if bit & blocker != 0 {
            proof {
                lemma_or_assoc(attacks, 0, 0);
            }
            break;
        }
        proof {
            lemma_or_assoc(a0, bit, rest);
            lemma_or_assoc(attacks, 0, 0);
        }
        x += dx;
        y += dy;
        proof {
            k = k + 1;
        }
    }
    attacks
}

/// The blocker mask of a slider on `(sx, sy)` in direction `(dx, dy)`.
fn mask_ray(sx: i32, sy: i32, dx: i32, dy: i32) -> (r: Bitboard)
    requires
        0 <= sx < 8,
        0 <= sy < 8,
        -1 <= dx <= 1,
        -1 <= dy <= 1,
        dx != 0 || dy != 0,
    ensures
        r == spec_mask_ray(sx as int, sy as int, sx as int, sy as int, dx as int, dy as int, 8),
{
    let mut mask: Bitboard = 0;
    let mut x = sx + dx;
    let mut y = sy + dy;
    let ghost mut k: int = 1;
    proof {
        lemma_or_assoc(spec_mask_ray(sx as int, sy as int, sx as int, sy as int, dx as int, dy as int, 8), 0, 0);
        lemma_or_assoc(0, 0, 0);
    }
    while x >= 0 && x < 8 && y >= 0 && y < 8
        invariant_except_break
            1 <= k <= 8,
            dx == 1 ==> x == sx + k,
            dx == -1 ==> x == sx - k,
            dx == 0 ==> x == sx,
            dy == 1 ==> y == sy + k,
            dy == -1 ==> y == sy - k,
            dy == 0 ==> y == sy,
            mask | 0u64 == mask,
            -1 <= dx <= 1,
            -1 <= dy <= 1,
            dx != 0 || dy != 0,
            0 <= sx < 8,
            0 <= sy < 8,
            mask | spec_mask_ray(sx as int, sy as int, x - dx, y - dy, dx as int, dy as int, (9 - k) as nat)
                == spec_mask_ray(sx as int, sy as int, sx as int, sy as int, dx as int, dy as int, 8),
        ensures
            mask == spec_mask_ray(sx as int, sy as int, sx as int, sy as int, dx as int, dy as int, 8),
        decreases 9 - k,
    {
        assert(k <= 7);
        let hit_x_edge = sx != x && (x < 1 || x >= 7);
        let hit_y_edge = sy != y && (y < 1 || y >= 7);
        if hit_x_edge || hit_y_edge {
            break;
        }
        let curr_idx = (x + (y * 8)) as u8;
        let bit = 1u64 << curr_idx;
        let ghost rest = spec_mask_ray(sx as int, sy as int, x as int, y as int, dx as int, dy as int, (8 - k) as nat);
        let ghost a0 = mask;
        mask = mask | bit;
        proof {
            lemma_or_assoc(a0, bit, rest);
            lemma_or_assoc(mask, 0, 0);
        }
        x += dx;
        y += dy;
        proof {
            k = k + 1;
        }
    }
    mask
}

proof fn lemma_ray_masked(
    sx: int,
    sy: int,
    x: int,
    y: int,
    dx: int,
    dy: int,
    occ: u64,
    m: u64,
    n: nat,
)
    requires
        0 <= sx < 8,
        0 <= sy < 8,
        0 <= x < 8,
        0 <= y < 8,
        -1 <= dx <= 1,
        -1 <= dy <= 1,
        dx == 1 ==> x >= sx,
        dx == -1 ==> x <= sx,
        dx == 0 ==> x == sx,
        dy == 1 ==> y >= sy,
        dy == -1 ==> y <= sy,
        dy == 0 ==> y == sy,
        bb_set(spec_mask_ray(sx, sy, x, y, dx, dy, n)).subset_of(bb_set(m)),
    ensures
        spec_ray(x, y, dx, dy, occ, n) == spec_ray(x, y, dx, dy, occ & m, n),
    decreases n,
{
    if n > 0 {
        let nx = x + dx;
        let ny = y + dy;
        if 0 <= nx < 8 && 0 <= ny < 8 {
            let sq = nx + ny * 8;
            let bit = 1u64 << (sq as u64);
            let hit_x_edge = sx != nx && (nx < 1 || nx >= 7);
            let hit_y_edge = sy != ny && (ny < 1 || ny >= 7);
            lemma_bb_single(sq as u64);
            lemma_bb_and(bit, occ);
            lemma_bb_and(occ, m);
            lemma_bb_and(bit, occ & m);
            lemma_bb_empty(bit & occ);
            lemma_bb_empty(bit & (occ & m));
            if !hit_x_edge && !hit_y_edge {
                let rest = spec_mask_ray(sx, sy, nx, ny, dx, dy, (n - 1) as nat);
                lemma_bb_or(bit, rest);
                assert(bb_set(m).contains(sq));
                assert(bb_set(bit).intersect(bb_set(occ)) =~= bb_set(bit).intersect(
                    bb_set(occ).intersect(bb_set(m)),
                ));
                lemma_ray_masked(sx, sy, nx, ny, dx, dy, occ, m, (n - 1) as nat);
            } else {
                assert(!(0 <= nx + dx < 8 && 0 <= ny + dy < 8));
                assert(spec_ray(nx, ny, dx, dy, occ, (n - 1) as nat) == 0);
                assert(spec_ray(nx, ny, dx, dy, occ & m, (n - 1) as nat) == 0);
                lemma_or_assoc(bit, 0, 0);
            }
        }
    }
}

proof fn lemma_mask_in(a: u64, b: u64, c: u64, d: u64)
    ensures
        bb_set(a).subset_of(bb_set((((0u64 | a) | b) | c) | d)),
        bb_set(b).subset_of(bb_set((((0u64 | a) | b) | c) | d)),
        bb_set(c).subset_of(bb_set((((0u64 | a) | b) | c) | d)),
        bb_set(d).subset_of(bb_set((((0u64 | a) | b) | c) | d)),
{
    lemma_bb_or(0u64, a);
    lemma_bb_or(0u64 | a, b);
    lemma_bb_or((0u64 | a) | b, c);
    lemma_bb_or(((0u64 | a) | b) | c, d);
}

/// The attacks of a rook or bishop depend only on the blockers inside its
/// blocker mask: the squares past the last one before an edge never stop a ray.
pub proof fn lemma_attacks_masked(index: int, occ: u64, piece_type: PieceType)
    requires
        0 <= index < 64,
        is_slider(piece_type),
    ensures
        spec_sliding_attacks(index, occ, piece_type) == spec_sliding_attacks(
            index,
            occ & spec_blocker_mask(index, piece_type),
            piece_type,
        ),
{
    let x = index % 8;
    let y = index / 8;
    let m = spec_blocker_mask(index, piece_type);
    if piece_type == PieceType::Rook {
        lemma_mask_in(
            spec_mask_ray(x, y, x, y, 0, -1, 8),
            spec_mask_ray(x, y, x, y, 0, 1, 8),
            spec_mask_ray(x, y, x, y, -1, 0, 8),
            spec_mask_ray(x, y, x, y, 1, 0, 8),
        );
        lemma_ray_masked(x, y, x, y, 0, -1, occ, m, 8);
        lemma_ray_masked(x, y, x, y, 0, 1, occ, m, 8);
        lemma_ray_masked(x, y, x, y, -1, 0, occ, m, 8);
        lemma_ray_masked(x, y, x, y, 1, 0, occ, m, 8);
    } else {
        lemma_mask_in(
            spec_mask_ray(x, y, x, y, -1, -1, 8),
            spec_mask_ray(x, y, x, y, 1, 1, 8),
            spec_mask_ray(x, y, x, y, -1, 1, 8),
            spec_mask_ray(x, y, x, y, 1, -1, 8),
        );
        lemma_ray_masked(x, y, x, y, 1, 1, occ, m, 8);
        lemma_ray_masked(x, y, x, y, -1, -1, occ, m, 8);
        lemma_ray_masked(x, y, x, y, 1, -1, occ, m, 8);
        lemma_ray_masked(x, y, x, y, -1, 1, occ, m, 8);
    }
}

/// The squares a rook on `index` sees past the pieces in `blocker`.
pub open spec fn spec_rook_attacks(index: int, blocker: u64) -> u64 {
    let x = index % 8;
    let y = index / 8;
    (((0u64 | spec_ray(x, y, 0, -1, blocker, 8)) | spec_ray(x, y, 0, 1, blocker, 8)) | spec_ray(
        x,
        y,
        -1,
        0,
        blocker,
        8,
    )) | spec_ray(x, y, 1, 0, blocker, 8)
}

/// The squares a bishop on `index` sees past the pieces in `blocker`.
pub open spec fn spec_bishop_attacks(index: int, blocker: u64) -> u64 {
    let x = index % 8;
    let y = index / 8;
    (((0u64 | spec_ray(x, y, 1, 1, blocker, 8)) | spec_ray(x, y, -1, -1, blocker, 8)) | spec_ray(
        x,
        y,
        1,
        -1,
        blocker,
        8,
    )) | spec_ray(x, y, -1, 1, blocker, 8)
}

/// The sliding piece types.
pub open spec fn is_slider(piece_type: PieceType) -> bool {
    piece_type == PieceType::Rook || piece_type == PieceType::Bishop
}

/// The squares a rook or bishop on `index` sees past the pieces in `blocker`.
pub open spec fn spec_sliding_attacks(index: int, blocker: u64, piece_type: PieceType) -> u64 {
    if piece_type == PieceType::Rook {
        spec_rook_attacks(index, blocker)
    } else {
        spec_bishop_attacks(index, blocker)
    }
}

/// The squares a rook or bishop on `index` attacks, walking each of its four
/// directions up to the first blocker.
pub fn generate_sliding_attacks(index: u8, blocker: Bitboard, piece_type: PieceType) -> (r: Bitboard)
    requires
        index < 64,
        is_slider(piece_type),
    ensures
        r == spec_sliding_attacks(index as int, blocker, piece_type),
{
    let start_x = (index % 8) as i32;
    let start_y = (index / 8) as i32;
    let mut attacks: Bitboard = 0;
    if piece_type == PieceType::Rook {
        attacks = attacks | ray_attacks(start_x, start_y, 0, -1, blocker);
        attacks = attacks | ray_attacks(start_x, start_y, 0, 1, blocker);
        attacks = attacks | ray_attacks(start_x, start_y, -1, 0, blocker);
        attacks = attacks | ray_attacks(start_x, start_y, 1, 0, blocker);
    } else {
        attacks = attacks | ray_attacks(start_x, start_y, 1, 1, blocker);
        attacks = attacks | ray_attacks(start_x, start_y, -1, -1, blocker);
        attacks = attacks | ray_attacks(start_x, start_y, 1, -1, blocker);
        attacks = attacks | ray_attacks(start_x, start_y, -1, 1, blocker);
    }
    attacks
}

/// The squares whose occupancy decides a rook's or bishop's attacks from
/// `index`: its rays, without the last square before each edge.
pub open spec fn spec_blocker_mask(index: int, piece_type: PieceType) -> u64 {
    let x = index % 8;
    let y = index / 8;
    if piece_type == PieceType::Rook {
        (((0u64 | spec_mask_ray(x, y, x, y, 0, -1, 8)) | spec_mask_ray(x, y, x, y, 0, 1, 8))
            | spec_mask_ray(x, y, x, y, -1, 0, 8)) | spec_mask_ray(x, y, x, y, 1, 0, 8)
    } else {
        (((0u64 | spec_mask_ray(x, y, x, y, -1, -1, 8)) | spec_mask_ray(x, y, x, y, 1, 1, 8))
            | spec_mask_ray(x, y, x, y, -1, 1, 8)) | spec_mask_ray(x, y, x, y, 1, -1, 8)
    }
}

/// The blocker mask of a rook or bishop on `index`: the squares between it
/// and the edge along its lines, edges left out. An index past the board has
/// no such squares.
pub fn get_blocker_mask(index: u8, piece_type: PieceType) -> (r: Bitboard)
    requires
        is_slider(piece_type),
    ensures
        r == if index < 64 {
            spec_blocker_mask(index as int, piece_type)
        } else {
            0
        },
{
    if index >= 64 {
        return 0;
    }
    let start_x = (index % 8) as i32;
    let start_y = (index / 8) as i32;
    let mut mask: Bitboard = 0;
    if piece_type == PieceType::Rook {
        mask = mask | mask_ray(start_x, start_y, 0, -1);
        mask = mask | mask_ray(start_x, start_y, 0, 1);
        mask = mask | mask_ray(start_x, start_y, -1, 0);
        mask = mask | mask_ray(start_x, start_y, 1, 0);
    } else {
        mask = mask | mask_ray(start_x, start_y, -1, -1);
        mask = mask | mask_ray(start_x, start_y, 1, 1);
        mask = mask | mask_ray(start_x, start_y, -1, 1);
        mask = mask | mask_ray(start_x, start_y, 1, -1);
    }
    mask
}

/// The number of squares in a bitboard.
pub fn count_ones(b: Bitboard) -> (r: u32)
    ensures
        r == bits_of(b).len(),
        r <= 64,
{
    let mut rest = b;
    let mut count: u32 = 0;
    proof {
        crate::bitboard::lemma_bits_of(b);
        lemma_bits_len(b);
    }
    while rest != 0
        invariant
            count + bits_of(rest).len() == bits_of(b).len(),
            bits_of(b).len() <= 64,
        decreases bits_of(rest).len(),
    {
        let _ = rest.pop_lsb();
        count += 1;
    }
    count
}

/// A bitboard holds at most 64 squares.
pub proof fn lemma_bits_len(b: u64)
    ensures
        bits_of(b).len() <= 64,
{
    crate::bitboard::lemma_bits_of(b);
    let s = bits_of(b);
    assert forall|i: int| 0 <= i < s.len() implies s[i] >= i by {
        lemma_bits_ascending(s, i);
    }
    if s.len() > 64 {
        assert(s[64] >= 64);
        assert(s[64] < 64);
    }
}

proof fn lemma_bits_ascending(s: Seq<u8>, i: int)
    requires
        0 <= i < s.len(),
        forall|a: int, b: int| 0 <= a < b < s.len() ==> #[trigger] s[a] < #[trigger] s[b],
    ensures
        s[i] >= i,
    decreases i,
{
    if i > 0 {
        lemma_bits_ascending(s, i - 1);
        assert(s[i - 1] < s[i]);
    }
}

/// The shift of the magic index of a rook or bishop on `index`: 64 less the
/// size of its blocker mask.
pub fn calc_shift(index: u8, piece_type: PieceType) -> (r: i32)
    requires
        is_slider(piece_type),
    ensures
        r == 64 - bits_of(if index < 64 {
            spec_blocker_mask(index as int, piece_type)
        } else {
            0
        }).len(),
{
    (64 - count_ones(get_blocker_mask(index, piece_type))) as i32
}

/// The parameters of a magic lookup for one square.
#[derive(Clone, Copy)]
pub struct MagicInfo {
    pub mask: Bitboard,
    pub magic: u64,
    pub offset: u64,
    pub shift: i32,
}

impl MagicInfo {
    pub fn new() -> (r: Self)
        ensures
            r.mask == 0,
            r.magic == 0,
            r.offset == 0,
            r.shift == 0,
    {
        MagicInfo { mask: 0, magic: 0, offset: 0, shift: 0 }
    }
}

/// The squares a rook on `index` attacks when the pieces are `blocker`.
pub fn rook_lookup(index: u8, blocker: Bitboard) -> (r: Bitboard)
    requires
        index < 64,
    ensures
        r == spec_rook_attacks(index as int, blocker),
{
    generate_sliding_attacks(index, blocker, PieceType::Rook)
}

/// The squares a bishop on `index` attacks when the pieces are `blocker`.
pub fn bishop_lookup(index: u8, blocker: Bitboard) -> (r: Bitboard)
    requires
        index < 64,
    ensures
        r == spec_bishop_attacks(index as int, blocker),
{
    generate_sliding_attacks(index, blocker, PieceType::Bishop)
}

/// Moves to each square of `tos`, each from `offset` squares away.
pub open spec fn emit_list(tos: Seq<u8>, offset: int, flag: u16) -> Seq<Move>
    decreases tos.len(),
{
    if tos.len() == 0 {
        Seq::empty()
    } else {
        seq![spec_move((tos[0] + offset) as u8, tos[0], flag)] + emit_list(
            tos.drop_first(),
            offset,
            flag,
        )
    }
}

/// The four promotions to each square of `tos`, from `offset` squares away,
/// queen first and knight last.
pub open spec fn promotion_list(tos: Seq<u8>, offset: int, base_flag: u16) -> Seq<Move>
    decreases tos.len(),
{
    if tos.len() == 0 {
        Seq::empty()
    } else {
        let from = (tos[0] + offset) as u8;
        seq![
            spec_move(from, tos[0], (base_flag + 3) as u16),
            spec_move(from, tos[0], (base_flag + 2) as u16),
            spec_move(from, tos[0], (base_flag + 1) as u16),
            spec_move(from, tos[0], base_flag),
        ] + promotion_list(tos.drop_first(), offset, base_flag)
    }
}

/// Moves from `from` to each square of `tos`.
pub open spec fn piece_list(from: u8, tos: Seq<u8>, flag: u16) -> Seq<Move>
    decreases tos.len(),
{
    if tos.len() == 0 {
        Seq::empty()
    } else {
        seq![spec_move(from, tos[0], flag)] + piece_list(from, tos.drop_first(), flag)
    }
}

/// Adds a move to each square of `bb`, from `offset` squares away.
fn emit(move_list: &mut MoveList, bb: Bitboard, offset: i32, flag: u16)
    requires
        -16 <= offset <= 16,
    ensures
        final(move_list)@ == old(move_list)@ + emit_list(bits_of(bb), offset as int, flag),
{
    let mut b = bb;
    assert(old(move_list)@ + emit_list(bits_of(bb), offset as int, flag) =~= old(move_list)@
        + emit_list(bits_of(b), offset as int, flag));
    while b != 0
        invariant
            -16 <= offset <= 16,
            move_list@ + emit_list(bits_of(b), offset as int, flag) == old(move_list)@
                + emit_list(bits_of(bb), offset as int, flag),
        decreases bits_of(b).len(),
    {
        let ghost b0 = b;
        let ghost before = move_list@;
        proof {
            crate::bitboard::lemma_bb_pop(b);
        }
        let to = b.pop_lsb();
        let from = (to as i32 + offset) as u8;
        let mv = Move::new(from, to, flag);
        move_list.add(mv);
        assert(bits_of(b0) == seq![to] + bits_of(b)) by {
            assert(bits_of(b0).drop_first() =~= bits_of(b));
            assert(seq![to] + bits_of(b0).drop_first() =~= bits_of(b0));
        }
        assert(emit_list(bits_of(b0), offset as int, flag) == seq![mv] + emit_list(
            bits_of(b),
            offset as int,
            flag,
        ));
        assert(move_list@ + emit_list(bits_of(b), offset as int, flag) =~= before + emit_list(
            bits_of(b0),
            offset as int,
            flag,
        ));
    }
    assert(bits_of(b).len() == 0);
    assert(move_list@ + emit_list(bits_of(b), offset as int, flag) =~= move_list@);
}

/// Adds the four promotions to each square of `bb`, from `offset` squares away.
fn emit_promotions(move_list: &mut MoveList, bb: Bitboard, offset: i32, base_flag: u16)
    requires
        -16 <= offset <= 16,
        base_flag <= 12,
    ensures
        final(move_list)@ == old(move_list)@ + promotion_list(bits_of(bb), offset as int, base_flag),
{
    let mut b = bb;
    assert(old(move_list)@ + promotion_list(bits_of(bb), offset as int, base_flag) =~= old(
        move_list,
    )@ + promotion_list(bits_of(b), offset as int, base_flag));
    while b != 0
        invariant
            -16 <= offset <= 16,
            base_flag <= 12,
            move_list@ + promotion_list(bits_of(b), offset as int, base_flag) == old(move_list)@
                + promotion_list(bits_of(bb), offset as int, base_flag),
        decreases bits_of(b).len(),
    {
        let ghost b0 = b;
        let ghost before = move_list@;
        proof {
            crate::bitboard::lemma_bb_pop(b);
        }
        let to = b.pop_lsb();
        let from = (to as i32 + offset) as u8;
        assert(bits_of(b0) == seq![to] + bits_of(b)) by {
            assert(bits_of(b0).drop_first() =~= bits_of(b));
            assert(seq![to] + bits_of(b0).drop_first() =~= bits_of(b0));
        }
        let mut i: u16 = 4;
        while i > 0
            invariant
                0 <= i <= 4,
                base_flag <= 12,
                move_list@ == before + Seq::new(
                    (4 - i) as nat,
                    |j: int| spec_move(from, to, (base_flag + 3 - j) as u16),
                ),
            decreases i,
        {
            i -= 1;
            let mv = Move::new(from, to, base_flag + i);
            let ghost prev = move_list@;
            move_list.add(mv);
            assert(move_list@ =~= before + Seq::new(
                (4 - i) as nat,
                |j: int| spec_move(from, to, (base_flag + 3 - j) as u16),
            ));
        }
        assert(Seq::new(4, |j: int| spec_move(from, to, (base_flag + 3 - j) as u16)) =~= seq![
            spec_move(from, to, (base_flag + 3) as u16),
            spec_move(from, to, (base_flag + 2) as u16),
            spec_move(from, to, (base_flag + 1) as u16),
            spec_move(from, to, base_flag),
        ]);
        assert(move_list@ + promotion_list(bits_of(b), offset as int, base_flag) =~= before
            + promotion_list(bits_of(b0), offset as int, base_flag));
    }
    assert(move_list@ + promotion_list(bits_of(b), offset as int, base_flag) =~= move_list@);
}

/// The captures, en passant captures and promotions of white pawns.
pub open spec fn white_pawn_tacticals(pawns: u64, enemies: u64, all_pieces: u64, en_passant_bb: u64) -> Seq<Move> {
    let np = pawns & !RANK_7;
    let pp = pawns & RANK_7;
    emit_list(bits_of(((np & !A_FILE) << 7u64) & enemies), -7, Move::FLAG_CAPTURE)
        + emit_list(bits_of(((np & !H_FILE) << 9u64) & enemies), -9, Move::FLAG_CAPTURE)
        + emit_list(bits_of(((np & !A_FILE) << 7u64) & en_passant_bb), -7, Move::FLAG_EN_PASSANT)
        + emit_list(bits_of(((np & !H_FILE) << 9u64) & en_passant_bb), -9, Move::FLAG_EN_PASSANT)
        + promotion_list(bits_of(((pp & !A_FILE) << 7u64) & enemies), -7, Move::FLAG_PROMOTE_KNIGHT_CAPTURE)
        + promotion_list(bits_of(((pp & !H_FILE) << 9u64) & enemies), -9, Move::FLAG_PROMOTE_KNIGHT_CAPTURE)
        + promotion_list(bits_of((pp << 8u64) & !all_pieces), -8, Move::FLAG_PROMOTE_KNIGHT)
}

/// The captures, en passant captures and promotions of black pawns.
pub open spec fn black_pawn_tacticals(pawns: u64, enemies: u64, all_pieces: u64, en_passant_bb: u64) -> Seq<Move> {
    let np = pawns & !RANK_2;
    let pp = pawns & RANK_2;
    emit_list(bits_of(((np & !H_FILE) >> 7u64) & enemies), 7, Move::FLAG_CAPTURE)
        + emit_list(bits_of(((np & !A_FILE) >> 9u64) & enemies), 9, Move::FLAG_CAPTURE)
        + emit_list(bits_of(((np & !H_FILE) >> 7u64) & en_passant_bb), 7, Move::FLAG_EN_PASSANT)
        + emit_list(bits_of(((np & !A_FILE) >> 9u64) & en_passant_bb), 9, Move::FLAG_EN_PASSANT)
        + promotion_list(bits_of(((pp & !H_FILE) >> 7u64) & enemies), 7, Move::FLAG_PROMOTE_KNIGHT_CAPTURE)
        + promotion_list(bits_of(((pp & !A_FILE) >> 9u64) & enemies), 9, Move::FLAG_PROMOTE_KNIGHT_CAPTURE)
        + promotion_list(bits_of((pp >> 8u64) & !all_pieces), 8, Move::FLAG_PROMOTE_KNIGHT)
}

/// The single and double pushes of pawns of `color`.
pub open spec fn pawn_pushes(pawns: u64, color: PieceColor, all_pieces: u64) -> Seq<Move> {
    if color == PieceColor::White {
        let single = ((pawns & !RANK_7) << 8u64) & !all_pieces;
        let double = ((single & RANK_3) << 8u64) & !all_pieces;
        emit_list(bits_of(single), -8, Move::FLAG_QUIET) + emit_list(
            bits_of(double),
            -16,
            Move::FLAG_DOUBLE_PAWN_PUSH,
        )
    } else {
        let single = ((pawns & !RANK_2) >> 8u64) & !all_pieces;
        let double = ((single & RANK_6) >> 8u64) & !all_pieces;
        emit_list(bits_of(single), 8, Move::FLAG_QUIET) + emit_list(
            bits_of(double),
            16,
            Move::FLAG_DOUBLE_PAWN_PUSH,
        )
    }
}

/// The moves `gen_pawn_moves` adds: captures, en passant captures and
/// promotions when `tacticals`, single and double pushes when `quiets`.
pub open spec fn spec_pawn_moves(
    tacticals: bool,
    quiets: bool,
    pawns: u64,
    color: PieceColor,
    enemies: u64,
    all_pieces: u64,
    en_passant_bb: u64,
) -> Seq<Move> {
    (if !tacticals {
        Seq::<Move>::empty()
    } else if color == PieceColor::White {
        white_pawn_tacticals(pawns, enemies, all_pieces, en_passant_bb)
    } else {
        black_pawn_tacticals(pawns, enemies, all_pieces, en_passant_bb)
    }) + (if quiets {
        pawn_pushes(pawns, color, all_pieces)
    } else {
        Seq::<Move>::empty()
    })
}

/// Adds the pawn moves of `pawns`: captures of `enemies`, en passant captures
/// onto `en_passant_bb` and promotions when `TACTICALS`, pushes onto squares
/// outside `all_pieces` when `QUIETS`.
#[verifier::spinoff_prover]
#[verifier::rlimit(40)]
pub fn gen_pawn_moves<const TACTICALS: bool, const QUIETS: bool>(
    pawns: Bitboard,
    color: PieceColor,
    enemies: Bitboard,
    all_pieces: Bitboard,
    move_list: &mut MoveList,
    en_passant_bb: Bitboard,
)
    ensures
        final(move_list)@ == old(move_list)@ + spec_pawn_moves(
            TACTICALS,
            QUIETS,
            pawns,
            color,
            enemies,
            all_pieces,
            en_passant_bb,
        ),
{
    let ghost start = move_list@;
    if TACTICALS {
        if color == PieceColor::White {
            let pawns_no_promotion = pawns & !RANK_7;
            let pawns_promotion = pawns & RANK_7;

            let moved_pawns_right = ((pawns_no_promotion & !H_FILE) << 9) & enemies;
            let moved_pawns_left = ((pawns_no_promotion & !A_FILE) << 7) & enemies;

            emit(move_list, moved_pawns_left, -7, Move::FLAG_CAPTURE);
            emit(move_list, moved_pawns_right, -9, Move::FLAG_CAPTURE);

            let moved_pawns_right = ((pawns_no_promotion & !H_FILE) << 9) & en_passant_bb;
            let moved_pawns_left = ((pawns_no_promotion & !A_FILE) << 7) & en_passant_bb;

            emit(move_list, moved_pawns_left, -7, Move::FLAG_EN_PASSANT);
            emit(move_list, moved_pawns_right, -9, Move::FLAG_EN_PASSANT);

            let moved_pawns_right = ((pawns_promotion & !H_FILE) << 9) & enemies;
            let moved_pawns_left = ((pawns_promotion & !A_FILE) << 7) & enemies;

            emit_promotions(move_list, moved_pawns_left, -7, Move::FLAG_PROMOTE_KNIGHT_CAPTURE);
            emit_promotions(move_list, moved_pawns_right, -9, Move::FLAG_PROMOTE_KNIGHT_CAPTURE);

            let pawns_promoted = (pawns_promotion << 8) & !all_pieces;

            emit_promotions(move_list, pawns_promoted, -8, Move::FLAG_PROMOTE_KNIGHT);
            assert(move_list@ =~= start + white_pawn_tacticals(pawns, enemies, all_pieces, en_passant_bb));
        } else {
            let pawns_no_promotion = pawns & !RANK_2;
            let pawns_promotion = pawns & RANK_2;

            let moved_pawns_right = ((pawns_no_promotion & !H_FILE) >> 7) & enemies;
            let moved_pawns_left = ((pawns_no_promotion & !A_FILE) >> 9) & enemies;

            emit(move_list, moved_pawns_right, 7, Move::FLAG_CAPTURE);
            emit(move_list, moved_pawns_left, 9, Move::FLAG_CAPTURE);

            let moved_pawns_right = ((pawns_no_promotion & !H_FILE) >> 7) & en_passant_bb;
            let moved_pawns_left = ((pawns_no_promotion & !A_FILE) >> 9) & en_passant_bb;

            emit(move_list, moved_pawns_right, 7, Move::FLAG_EN_PASSANT);
            emit(move_list, moved_pawns_left, 9, Move::FLAG_EN_PASSANT);

            let moved_pawns_right = ((pawns_promotion & !H_FILE) >> 7) & enemies;
            let moved_pawns_left = ((pawns_promotion & !A_FILE) >> 9) & enemies;

            emit_promotions(move_list, moved_pawns_right, 7, Move::FLAG_PROMOTE_KNIGHT_CAPTURE);
            emit_promotions(move_list, moved_pawns_left, 9, Move::FLAG_PROMOTE_KNIGHT_CAPTURE);

            let pawns_promoted = (pawns_promotion >> 8) & !all_pieces;

            emit_promotions(move_list, pawns_promoted, 8, Move::FLAG_PROMOTE_KNIGHT);
            assert(move_list@ =~= start + black_pawn_tacticals(pawns, enemies, all_pieces, en_passant_bb));
        }
    }
    let ghost mid = move_list@;
    if QUIETS {
        if color == PieceColor::White {
            let safe_pawns = pawns & !RANK_7;

            let moved_pawns_single = (safe_pawns << 8) & !all_pieces;
            let moved_pawns_double = ((moved_pawns_single & RANK_3) << 8) & !all_pieces;

            emit(move_list, moved_pawns_single, -8, Move::FLAG_QUIET);
            emit(move_list, moved_pawns_double, -16, Move::FLAG_DOUBLE_PAWN_PUSH);
            assert(move_list@ =~= mid + pawn_pushes(pawns, color, all_pieces));
        } else {
            let safe_pawns = pawns & !RANK_2;

            let moved_pawns_single = (safe_pawns >> 8) & !all_pieces;
            let moved_pawns_double = ((moved_pawns_single & RANK_6) >> 8) & !all_pieces;

            emit(move_list, moved_pawns_single, 8, Move::FLAG_QUIET);
            emit(move_list, moved_pawns_double, 16, Move::FLAG_DOUBLE_PAWN_PUSH);
            assert(move_list@ =~= mid + pawn_pushes(pawns, color, all_pieces));
        }
    }
    assert(move_list@ =~= start + spec_pawn_moves(
        TACTICALS,
        QUIETS,
        pawns,
        color,
        enemies,
        all_pieces,
        en_passant_bb,
    ));
}

/// Adds the moves of a piece on `index` with attack set `attacks`: captures
/// of `enemies` when `CAPTURES`, moves to empty squares when `QUIETS`.
pub fn generate_piece_moves<const CAPTURES: bool, const QUIETS: bool>(
    index: u8,
    attacks: Bitboard,
    enemies: Bitboard,
    all_pieces: Bitboard,
    move_list: &mut MoveList,
)
    ensures
        final(move_list)@ == old(move_list)@ + spec_piece_moves(
            CAPTURES,
            QUIETS,
            index,
            attacks,
            enemies,
            all_pieces,
        ),
{
    let ghost start = move_list@;
    if CAPTURES {
        let mut bb = attacks & enemies;
        add_piece_moves(move_list, index, bb, Move::FLAG_CAPTURE);
    }
    if QUIETS {
        let mut bb = attacks & !all_pieces;
        add_piece_moves(move_list, index, bb, Move::FLAG_QUIET);
    }
    assert(move_list@ =~= start + spec_piece_moves(
        CAPTURES,
        QUIETS,
        index,
        attacks,
        enemies,
        all_pieces,
    ));
}

/// The moves `generate_piece_moves` adds.
pub open spec fn spec_piece_moves(
    captures: bool,
    quiets: bool,
    index: u8,
    attacks: u64,
    enemies: u64,
    all_pieces: u64,
) -> Seq<Move> {
    (if captures {
        piece_list(index, bits_of(attacks & enemies), Move::FLAG_CAPTURE)
    } else {
        Seq::empty()
    }) + (if quiets {
        piece_list(index, bits_of(attacks & !all_pieces), Move::FLAG_QUIET)
    } else {
        Seq::empty()
    })
}

/// Adds a move from `index` to each square of `bb`.
fn add_piece_moves(move_list: &mut MoveList, index: u8, bb: Bitboard, flag: u16)
    ensures
        final(move_list)@ == old(move_list)@ + piece_list(index, bits_of(bb), flag),
{
    let mut b = bb;
    while b != 0
        invariant
            move_list@ + piece_list(index, bits_of(b), flag) == old(move_list)@ + piece_list(
                index,
                bits_of(bb),
                flag,
            ),
        decreases bits_of(b).len(),
    {
        let ghost b0 = b;
        let ghost before = move_list@;
        proof {
            crate::bitboard::lemma_bb_pop(b);
        }
        let to = b.pop_lsb();
        move_list.add(Move::new(index, to, flag));
        assert(bits_of(b0) == seq![to] + bits_of(b)) by {
            assert(bits_of(b0).drop_first() =~= bits_of(b));
            assert(seq![to] + bits_of(b0).drop_first() =~= bits_of(b0));
        }
        assert(move_list@ + piece_list(index, bits_of(b), flag) =~= before + piece_list(
            index,
            bits_of(b0),
            flag,
        ));
    }
    assert(move_list@ + piece_list(index, bits_of(b), flag) =~= move_list@);
}

/// The squares a white pawn on each square of `pawns` attacks, or a black one.
pub open spec fn spec_pawn_attacks(pawns: u64, color: PieceColor) -> u64 {
    if color == PieceColor::White {
        ((pawns & !A_FILE) << 7u64) | ((pawns & !H_FILE) << 9u64)
    } else {
        ((pawns & !A_FILE) >> 9u64) | ((pawns & !H_FILE) >> 7u64)
    }
}

/// On the board with colour bitboards `color_bbs` and piece type bitboards
/// `type_bbs`, a piece of `attacker_color` attacks `square`: a knight, the
/// king, a rook or queen along a line, a bishop or queen along a diagonal, or a pawn.
pub open spec fn attacked_on(color_bbs: Seq<u64>, type_bbs: Seq<u64>, square: int, attacker_color: PieceColor) -> bool {
    let all = color_bbs[0] | color_bbs[1];
    let theirs = color_bbs[color_code(attacker_color) as int];
    ||| spec_knight_attacks(square) & (type_bbs[1] & theirs) != 0
    ||| spec_king_attacks(square) & (type_bbs[5] & theirs) != 0
    ||| spec_rook_attacks(square, all) & ((type_bbs[3] | type_bbs[4]) & theirs) != 0
    ||| spec_bishop_attacks(square, all) & ((type_bbs[2] | type_bbs[4]) & theirs) != 0
    ||| spec_pawn_attacks(type_bbs[0] & theirs, attacker_color) & (1u64 << (square as u64)) != 0
}

/// A piece of `attacker_color` attacks `square` on `b`.
pub open spec fn spec_is_square_attacked(b: BoardModel, square: int, attacker_color: PieceColor) -> bool {
    attacked_on(b.color_bbs, b.type_bbs, square, attacker_color)
}

/// Some piece of `attacker_color` attacks `square`.
pub fn is_square_attacked(board: &Board, square: u8, attacker_color: PieceColor) -> (r: bool)
    requires
        square < 64,
    ensures
        r == spec_is_square_attacked(board@, square as int, attacker_color),
{
    let tables = AttackTables::new();
    square_attacked(&tables, board, square, attacker_color)
}

/// Some piece of `attacker_color` attacks `square`, with attacks read from `tables`.
pub fn square_attacked(tables: &AttackTables, board: &Board, square: u8, attacker_color: PieceColor) -> (r: bool)
    requires
        tables.wf(),
        square < 64,
    ensures
        r == spec_is_square_attacked(board@, square as int, attacker_color),
{
    square_attacked_on(tables, board.color_bitboards(), board.type_bitboards(), square, attacker_color)
}

/// Some piece of `attacker_color` attacks `square` on the board with colour
/// bitboards `color` and piece type bitboards `types`.
pub fn square_attacked_on(
    tables: &AttackTables,
    color: &[Bitboard; 2],
    types: &[Bitboard; 6],
    square: u8,
    attacker_color: PieceColor,
) -> (r: bool)
    requires
        tables.wf(),
        square < 64,
    ensures
        r == attacked_on(color@, types@, square as int, attacker_color),
{
    let all_pieces = color[0] | color[1];
    let theirs = color[color_index(attacker_color)];
    let sq_bb = 1u64 << square;

    let enemy_knights = types[1] & theirs;
    if (tables.knight(square) & enemy_knights) != 0 {
        return true;
    }
    let enemy_king = types[5] & theirs;
    if (tables.king(square) & enemy_king) != 0 {
        return true;
    }
    let enemy_rooks_queens = (types[3] | types[4]) & theirs;
    if (tables.rook(square, all_pieces) & enemy_rooks_queens) != 0 {
        return true;
    }
    let enemy_bishops_queens = (types[2] | types[4]) & theirs;
    if (tables.bishop(square, all_pieces) & enemy_bishops_queens) != 0 {
        return true;
    }
    let enemy_pawns = types[0] & theirs;
    if attacker_color == PieceColor::White {
        let attacks_left = (enemy_pawns & !A_FILE) << 7;
        let attacks_right = (enemy_pawns & !H_FILE) << 9;
        if ((attacks_left | attacks_right) & sq_bb) != 0 {
            return true;
        }
    } else {
        let attacks_right = (enemy_pawns & !H_FILE) >> 7;
        let attacks_left = (enemy_pawns & !A_FILE) >> 9;
        if ((attacks_left | attacks_right) & sq_bb) != 0 {
            return true;
        }
    }
    false
}

/// On the board with colour bitboards `color_bbs` and piece type bitboards
/// `type_bbs`, `color` has no king, or its lowest king is attacked.
pub open spec fn in_check_on(color_bbs: Seq<u64>, type_bbs: Seq<u64>, color: PieceColor) -> bool {
    let king_bb = type_bbs[5] & color_bbs[color_code(color) as int];
    if king_bb == 0 {
        true
    } else {
        attacked_on(color_bbs, type_bbs, bits_of(king_bb)[0] as int, spec_flip(color))
    }
}

/// `color` has no king on `b`, or its lowest king is attacked.
pub open spec fn spec_is_in_check(b: BoardModel, color: PieceColor) -> bool {
    in_check_on(b.color_bbs, b.type_bbs, color)
}

/// `color` has no king on the board, or its king is attacked.
pub fn is_in_check(board: &Board, color: PieceColor) -> (r: bool)
    ensures
        r == spec_is_in_check(board@, color),
{
    let tables = AttackTables::new();
    in_check(&tables, board, color)
}

/// `color` has no king on the board, or its king is attacked, with attacks read from `tables`.
pub fn in_check(tables: &AttackTables, board: &Board, color: PieceColor) -> (r: bool)
    requires
        tables.wf(),
    ensures
        r == spec_is_in_check(board@, color),
{
    check_on(tables, board.color_bitboards(), board.type_bitboards(), color)
}

/// `color` has no king, or its king is attacked, on the board with colour
/// bitboards `color_bbs` and piece type bitboards `types`.
pub fn check_on(tables: &AttackTables, color_bbs: &[Bitboard; 2], types: &[Bitboard; 6], color: PieceColor) -> (r: bool)
    requires
        tables.wf(),
    ensures
        r == in_check_on(color_bbs@, types@, color),
{
    let mut king_bb = types[5] & color_bbs[color_index(color)];
    if king_bb == 0 {
        return true;
    }
    let king_sq = king_bb.pop_lsb();
    square_attacked_on(tables, color_bbs, types, king_sq, color.flip())
}

pub const WHITE_KING_EMPTY: Bitboard = 0x60;

pub const WHITE_QUEEN_EMPTY: Bitboard = 0x0E;

pub const BLACK_KING_EMPTY: Bitboard = 0x60 << (8 * 7);

pub const BLACK_QUEEN_EMPTY: Bitboard = 0x0E << (8 * 7);

/// The castles `generate_castles` adds: king side first, then queen side,
/// each when the right is held, the squares between king and rook are empty,
/// and neither the king's square nor the two it crosses is attacked.
pub open spec fn spec_castles(b: BoardModel, color: PieceColor, rights: u8, all_pieces: u64) -> Seq<Move> {
    if color == PieceColor::White {
        (if rights & 0b1000 != 0 && all_pieces & WHITE_KING_EMPTY == 0
            && !spec_is_square_attacked(b, 4, PieceColor::Black)
            && !spec_is_square_attacked(b, 5, PieceColor::Black)
            && !spec_is_square_attacked(b, 6, PieceColor::Black) {
            seq![spec_move(4, 6, Move::FLAG_KING_CASTLE)]
        } else {
            Seq::empty()
        }) + (if rights & 0b0100 != 0 && all_pieces & WHITE_QUEEN_EMPTY == 0
            && !spec_is_square_attacked(b, 4, PieceColor::Black)
            && !spec_is_square_attacked(b, 3, PieceColor::Black)
            && !spec_is_square_attacked(b, 2, PieceColor::Black) {
            seq![spec_move(4, 2, Move::FLAG_QUEEN_CASTLE)]
        } else {
            Seq::empty()
        })
    } else {
        (if rights & 0b0010 != 0 && all_pieces & BLACK_KING_EMPTY == 0
            && !spec_is_square_attacked(b, 60, PieceColor::White)
            && !spec_is_square_attacked(b, 61, PieceColor::White)
            && !spec_is_square_attacked(b, 62, PieceColor::White) {
            seq![spec_move(60, 62, Move::FLAG_KING_CASTLE)]
        } else {
            Seq::empty()
        }) + (if rights & 0b0001 != 0 && all_pieces & BLACK_QUEEN_EMPTY == 0
            && !spec_is_square_attacked(b, 60, PieceColor::White)
            && !spec_is_square_attacked(b, 59, PieceColor::White)
            && !spec_is_square_attacked(b, 58, PieceColor::White) {
            seq![spec_move(60, 58, Move::FLAG_QUEEN_CASTLE)]
        } else {
            Seq::empty()
        })
    }
}

/// Adds the castles open to `color`.
pub fn generate_castles(
    board: &Board,
    color: PieceColor,
    castling_rights: CastlingRights,
    all_pieces: Bitboard,
    move_list: &mut MoveList,
)
    ensures
        final(move_list)@ == old(move_list)@ + spec_castles(
            board@,
            color,
            castling_rights.bits,
            all_pieces,
        ),
{
    let tables = AttackTables::new();
    castles(&tables, board, color, castling_rights, all_pieces, move_list);
}

/// Adds the castles open to `color`, with attacks read from `tables`.
fn castles(
    tables: &AttackTables,
    board: &Board,
    color: PieceColor,
    castling_rights: CastlingRights,
    all_pieces: Bitboard,
    move_list: &mut MoveList,
)
    requires
        tables.wf(),
    ensures
        final(move_list)@ == old(move_list)@ + spec_castles(
            board@,
            color,
            castling_rights.bits,
            all_pieces,
        ),
{
    let ghost start = move_list@;
    match color {
        PieceColor::White => {
            if !castling_rights.intersection(CastlingRights::white_king()).is_empty()
                && (all_pieces & WHITE_KING_EMPTY) == 0
                && !square_attacked(tables, board, Squares::E1, PieceColor::Black)
                && !square_attacked(tables, board, Squares::F1, PieceColor::Black)
                && !square_attacked(tables, board, Squares::G1, PieceColor::Black) {
                move_list.add(Move::new(Squares::E1, Squares::G1, Move::FLAG_KING_CASTLE));
            }
            let ghost mid = move_list@;
            if !castling_rights.intersection(CastlingRights::white_queen()).is_empty()
                && (all_pieces & WHITE_QUEEN_EMPTY) == 0
                && !square_attacked(tables, board, Squares::E1, PieceColor::Black)
                && !square_attacked(tables, board, Squares::D1, PieceColor::Black)
                && !square_attacked(tables, board, Squares::C1, PieceColor::Black) {
                move_list.add(Move::new(Squares::E1, Squares::C1, Move::FLAG_QUEEN_CASTLE));
            }
        },
        PieceColor::Black => {
            if !castling_rights.intersection(CastlingRights::black_king()).is_empty()
                && (all_pieces & BLACK_KING_EMPTY) == 0
                && !square_attacked(tables, board, Squares::E8, PieceColor::White)
                && !square_attacked(tables, board, Squares::F8, PieceColor::White)
                && !square_attacked(tables, board, Squares::G8, PieceColor::White) {
                move_list.add(Move::new(Squares::E8, Squares::G8, Move::FLAG_KING_CASTLE));
            }
            if !castling_rights.intersection(CastlingRights::black_queen()).is_empty()
                && (all_pieces & BLACK_QUEEN_EMPTY) == 0
                && !square_attacked(tables, board, Squares::E8, PieceColor::White)
                && !square_attacked(tables, board, Squares::D8, PieceColor::White)
                && !square_attacked(tables, board, Squares::C8, PieceColor::White) {
                move_list.add(Move::new(Squares::E8, Squares::C8, Move::FLAG_QUEEN_CASTLE));
            }
        },
    }
    assert(move_list@ =~= start + spec_castles(board@, color, castling_rights.bits, all_pieces));
}

/// The attack set a piece of the given kind on `from` moves along: rook 0,
/// bishop 1, queen 2, knight 3, king 4; knights and kings leave out their own
/// side's squares.
pub open spec fn kind_attacks(kind: int, from: int, all_pieces: u64, friendlies: u64) -> u64 {
    if kind == 0 {
        spec_rook_attacks(from, all_pieces)
    } else if kind == 1 {
        spec_bishop_attacks(from, all_pieces)
    } else if kind == 2 {
        spec_rook_attacks(from, all_pieces) | spec_bishop_attacks(from, all_pieces)
    } else if kind == 3 {
        spec_knight_attacks(from) & !friendlies
    } else {
        spec_king_attacks(from) & !friendlies
    }
}

/// The moves of the pieces on the squares `froms`, in that order.
pub open spec fn kind_moves(
    captures: bool,
    quiets: bool,
    froms: Seq<u8>,
    kind: int,
    all_pieces: u64,
    friendlies: u64,
    enemies: u64,
) -> Seq<Move>
    decreases froms.len(),
{
    if froms.len() == 0 {
        Seq::empty()
    } else {
        spec_piece_moves(
            captures,
            quiets,
            froms[0],
            kind_attacks(kind, froms[0] as int, all_pieces, friendlies),
            enemies,
            all_pieces,
        ) + kind_moves(captures, quiets, froms.drop_first(), kind, all_pieces, friendlies, enemies)
    }
}

/// Adds the moves of every piece of one kind on the squares of `pieces`.
fn gen_move_loop<const CAPTURES: bool, const QUIETS: bool>(
    tables: &AttackTables,
    pieces: Bitboard,
    kind: u8,
    all_pieces: Bitboard,
    friendlies: Bitboard,
    enemies: Bitboard,
    move_list: &mut MoveList,
)
    requires
        kind < 5,
        tables.wf(),
    ensures
        final(move_list)@ == old(move_list)@ + kind_moves(
            CAPTURES,
            QUIETS,
            bits_of(pieces),
            kind as int,
            all_pieces,
            friendlies,
            enemies,
        ),
{
    let mut pieces_left = pieces;
    while pieces_left != 0
        invariant
            kind < 5,
            tables.wf(),
            move_list@ + kind_moves(
                CAPTURES,
                QUIETS,
                bits_of(pieces_left),
                kind as int,
                all_pieces,
                friendlies,
                enemies,
            ) == old(move_list)@ + kind_moves(
                CAPTURES,
                QUIETS,
                bits_of(pieces),
                kind as int,
                all_pieces,
                friendlies,
                enemies,
            ),
        decreases bits_of(pieces_left).len(),
    {
        let ghost p0 = pieces_left;
        let ghost before = move_list@;
        proof {
            crate::bitboard::lemma_bb_pop(pieces_left);
        }
        let from = pieces_left.pop_lsb();
        let attacks = if kind == 0 {
            tables.rook(from, all_pieces)
        } else if kind == 1 {
            tables.bishop(from, all_pieces)
        } else if kind == 2 {
            tables.rook(from, all_pieces) | tables.bishop(from, all_pieces)
        } else if kind == 3 {
            tables.knight(from) & !friendlies
        } else {
            tables.king(from) & !friendlies
        };
        generate_piece_moves::<CAPTURES, QUIETS>(from, attacks, enemies, all_pieces, move_list);
        assert(bits_of(p0) == seq![from] + bits_of(pieces_left)) by {
            assert(bits_of(p0).drop_first() =~= bits_of(pieces_left));
            assert(seq![from] + bits_of(p0).drop_first() =~= bits_of(p0));
        }
        assert(move_list@ + kind_moves(
            CAPTURES,
            QUIETS,
            bits_of(pieces_left),
            kind as int,
            all_pieces,
            friendlies,
            enemies,
        ) =~= before + kind_moves(
            CAPTURES,
            QUIETS,
            bits_of(p0),
            kind as int,
            all_pieces,
            friendlies,
            enemies,
        ));
    }
    assert(move_list@ + kind_moves(
        CAPTURES,
        QUIETS,
        bits_of(pieces_left),
        kind as int,
        all_pieces,
        friendlies,
        enemies,
    ) =~= move_list@);
}

/// The moves `generate_moves` lists for `turn`: pawn moves, castles, then the
/// moves of rooks, bishops, queens, knights and the king, each piece kind in
/// square order.
#[verifier::opaque]
pub open spec fn spec_generate_moves(captures: bool, quiets: bool, b: BoardModel, turn: PieceColor) -> Seq<Move> {
    let friendlies = b.color_bbs[color_code(turn) as int];
    let enemies = b.color_bbs[color_code(spec_flip(turn)) as int];
    let all = b.color_bbs[0] | b.color_bbs[1];
    spec_pawn_moves(captures, quiets, b.type_bbs[0] & friendlies, turn, enemies, all, b.en_passant)
        + spec_castles(b, turn, b.rights.bits, all)
        + kind_moves(captures, quiets, bits_of(b.type_bbs[3] & friendlies), 0, all, friendlies, enemies)
        + kind_moves(captures, quiets, bits_of(b.type_bbs[2] & friendlies), 1, all, friendlies, enemies)
        + kind_moves(captures, quiets, bits_of(b.type_bbs[4] & friendlies), 2, all, friendlies, enemies)
        + kind_moves(captures, quiets, bits_of(b.type_bbs[1] & friendlies), 3, all, friendlies, enemies)
        + kind_moves(captures, quiets, bits_of(b.type_bbs[5] & friendlies), 4, all, friendlies, enemies)
}

/// The pseudo-legal moves of `turn`: captures when `CAPTURES`, quiet moves
/// when `QUIETS`, and castles in either case.
pub fn generate_moves<const CAPTURES: bool, const QUIETS: bool>(board: &Board, turn: PieceColor) -> (r: MoveList)
    ensures
        r@ == spec_generate_moves(CAPTURES, QUIETS, board@, turn),
{
    let tables = AttackTables::new();
    moves_with::<CAPTURES, QUIETS>(&tables, board, turn)
}

/// The pseudo-legal moves of `turn`, with attacks read from `tables`.
pub fn moves_with<const CAPTURES: bool, const QUIETS: bool>(tables: &AttackTables, board: &Board, turn: PieceColor) -> (r: MoveList)
    requires
        tables.wf(),
    ensures
        r@ == spec_generate_moves(CAPTURES, QUIETS, board@, turn),
{
    let mut ml = MoveList::new();
    let friendlies = board.get_bb_by_color(turn);
    let enemies = board.get_bb_by_color(turn.flip());
    let all_pieces = board.get_all_pieces();
    let pieces = board.get_bb_by_type(PieceType::Pawn) & friendlies;
    gen_pawn_moves::<CAPTURES, QUIETS>(
        pieces,
        turn,
        enemies,
        all_pieces,
        &mut ml,
        board.get_en_passant_bb(),
    );
    castles(tables, board, turn, board.get_rights(), all_pieces, &mut ml);
    let pieces = board.get_bb_by_type(PieceType::Rook) & friendlies;
    gen_move_loop::<CAPTURES, QUIETS>(tables, pieces, 0, all_pieces, friendlies, enemies, &mut ml);
    let pieces = board.get_bb_by_type(PieceType::Bishop) & friendlies;
    gen_move_loop::<CAPTURES, QUIETS>(tables, pieces, 1, all_pieces, friendlies, enemies, &mut ml);
    let pieces = board.get_bb_by_type(PieceType::Queen) & friendlies;
    gen_move_loop::<CAPTURES, QUIETS>(tables, pieces, 2, all_pieces, friendlies, enemies, &mut ml);
    let pieces = board.get_bb_by_type(PieceType::Knight) & friendlies;
    gen_move_loop::<CAPTURES, QUIETS>(tables, pieces, 3, all_pieces, friendlies, enemies, &mut ml);
    let pieces = board.get_bb_by_type(PieceType::King) & friendlies;
    gen_move_loop::<CAPTURES, QUIETS>(tables, pieces, 4, all_pieces, friendlies, enemies, &mut ml);
    proof {
        reveal(spec_generate_moves);
    }
    assert(ml@ =~= spec_generate_moves(CAPTURES, QUIETS, board@, turn));
    ml
}

/// After `m`, the side that played it is not in check.
#[verifier::opaque]
pub open spec fn leaves_king_safe(b: BoardModel, color: PieceColor) -> spec_fn(Move) -> bool {
    |m: Move| !spec_is_in_check(m_do_move(b, m), color)
}

/// The legal moves of the side to move: the pseudo-legal moves, in their
/// order, that do not leave its own king in check.
pub open spec fn spec_legal_moves(b: BoardModel) -> Seq<Move> {
    spec_generate_moves(true, true, b, b.turn).filter(leaves_king_safe(b, b.turn))
}

/// The board is consistent and each of its pseudo-legal moves fits it.
pub open spec fn moves_fit(b: BoardModel) -> bool {
    &&& m_wf(b)
    &&& forall|i: int|
        0 <= i < spec_generate_moves(true, true, b, b.turn).len() ==> move_sound(
            b,
            #[trigger] spec_generate_moves(true, true, b, b.turn)[i],
        )
}

/// The legal moves of the side to move. The board is left as it was.
/// Each pseudo-legal move is played and taken back to test it, so every one
/// must fit the board (`moves_fit`): one that does not, such as an en passant
/// capture onto an occupied square, would not be taken back exactly, and the
/// later moves would be tested on another board than the one given.
pub fn generate_legal_moves(board: &mut Board) -> (r: MoveList)
    requires
        moves_fit(old(board)@),
    ensures
        r@ == spec_legal_moves(old(board)@),
        final(board)@ == old(board)@,
{
    let tables = AttackTables::new();
    legal_moves_with(&tables, board)
}

/// `generate_legal_moves`, with attacks read from `tables`.
pub fn legal_moves_with(tables: &AttackTables, board: &mut Board) -> (r: MoveList)
    requires
        tables.wf(),
        moves_fit(old(board)@),
    ensures
        r@ == spec_legal_moves(old(board)@),
        final(board)@ == old(board)@,
{
    let ghost b = board@;
    let my_color = board.get_turn();
    let ml = moves_with::<true, true>(tables, board, my_color);
    let mut ml_final = MoveList::new();
    let n = ml.len();
    let mut i: usize = 0;
    let ghost pred = leaves_king_safe(b, b.turn);
    assert(ml@.take(0) =~= Seq::<Move>::empty());
    while i < n
        invariant
            n == ml@.len(),
            i <= n,
            board@ == b,
            my_color == b.turn,
            moves_fit(b),
            ml@ == spec_generate_moves(true, true, b, b.turn),
            pred == leaves_king_safe(b, b.turn),
            ml_final@ == ml@.take(i as int).filter(pred),
            tables.wf(),
        decreases n - i,
    {
        let candidate_move = ml.as_slice()[i];
        proof {
            lemma_do_undo(b, candidate_move);
        }
        board.do_move(candidate_move);
        let in_check = in_check(tables, board, my_color);
        proof {
            reveal(leaves_king_safe);
        }
        let ghost before = ml_final@;
        if !in_check {
            ml_final.add(candidate_move);
        }
        board.undo_move();
        proof {
            assert(ml@.take(i + 1) =~= ml@.take(i as int).push(candidate_move));
            ml@.take(i as int).lemma_filter_push(candidate_move, pred);
        }
        i += 1;
    }
    assert(ml@.take(n as int) =~= ml@);
    ml_final
}

/// The board after `m`.
#[verifier::opaque]
pub open spec fn child(b: BoardModel, m: Move) -> BoardModel {
    m_do_move(b, m)
}

/// The number of leaf nodes `depth` legal moves deep.
pub open spec fn spec_perft(depth: nat, b: BoardModel) -> nat
    decreases depth, 1nat, 0nat,
{
    if depth == 0 {
        1
    } else {
        perft_sum(spec_generate_moves(true, true, b, b.turn), b, depth)
    }
}

/// The leaf counts below each legal move of `s`, added up.
pub open spec fn perft_sum(s: Seq<Move>, b: BoardModel, depth: nat) -> nat
    decreases depth, 0nat, s.len(),
{
    if s.len() == 0 || depth == 0 {
        0
    } else {
        perft_sum(s.drop_last(), b, depth) + if leaves_king_safe(b, b.turn)(s.last()) {
            spec_perft((depth - 1) as nat, child(b, s.last()))
        } else {
            0
        }
    }
}

/// Every position `perft` reaches from `b` within `depth` moves is one it
/// can walk: consistent, with moves that fit it, and a leaf count that fits in a `u64`.
pub open spec fn perft_ok(depth: nat, b: BoardModel) -> bool
    decreases depth, 1nat, 0nat,
{
    depth == 0 || (moves_fit(b) && spec_perft(depth, b) <= u64::MAX && perft_ok_all(
        spec_generate_moves(true, true, b, b.turn),
        b,
        depth,
    ))
}

/// `perft_ok` holds one move deeper after each legal move of `s`.
pub open spec fn perft_ok_all(s: Seq<Move>, b: BoardModel, depth: nat) -> bool
    decreases depth, 0nat, s.len(),
{
    if s.len() == 0 || depth == 0 {
        true
    } else {
        perft_ok_all(s.drop_last(), b, depth) && (leaves_king_safe(b, b.turn)(s.last())
            ==> perft_ok((depth - 1) as nat, child(b, s.last())))
    }
}

proof fn lemma_perft_ok_all(s: Seq<Move>, b: BoardModel, depth: nat, i: int)
    requires
        depth > 0,
        perft_ok_all(s, b, depth),
        0 <= i < s.len(),
        leaves_king_safe(b, b.turn)(s[i]),
    ensures
        perft_ok((depth - 1) as nat, child(b, s[i])),
    decreases s.len(),
{
    if i < s.len() - 1 {
        lemma_perft_ok_all(s.drop_last(), b, depth, i);
    }
}

proof fn lemma_perft_sum_prefix(s: Seq<Move>, b: BoardModel, depth: nat, i: int)
    requires
        0 <= i <= s.len(),
    ensures
        perft_sum(s.take(i), b, depth) <= perft_sum(s, b, depth),
    decreases s.len() - i,
{
    if i < s.len() {
        lemma_perft_sum_prefix(s, b, depth, i + 1);
        assert(s.take(i + 1).drop_last() =~= s.take(i));
    } else {
        assert(s.take(i) =~= s);
    }
}

/// One more move of the list added to the running leaf count.
proof fn lemma_perft_step(s: Seq<Move>, b: BoardModel, depth: nat, m: int)
    requires
        depth > 0,
        0 <= m < s.len(),
        perft_sum(s, b, depth) <= u64::MAX,
    ensures
        perft_sum(s.take(m + 1), b, depth) == perft_sum(s.take(m), b, depth) + if leaves_king_safe(
            b,
            b.turn,
        )(s[m]) {
            spec_perft((depth - 1) as nat, child(b, s[m]))
        } else {
            0
        },
        perft_sum(s.take(m + 1), b, depth) <= u64::MAX,
        spec_perft(0, child(b, s[m])) == 1,
{
    assert(s.take(m + 1).drop_last() =~= s.take(m));
    assert(s.take(m + 1).last() == s[m]);
    lemma_perft_sum_prefix(s, b, depth, m + 1);
}

proof fn lemma_attacked_pos(b: BoardModel, sq: int, c: PieceColor)
    ensures
        spec_is_square_attacked(b, sq, c) == spec_is_square_attacked(pos_of(b), sq, c),
{
}

proof fn lemma_gen_pos(b: BoardModel, t: PieceColor)
    ensures
        spec_generate_moves(true, true, b, t) == spec_generate_moves(true, true, pos_of(b), t),
{
    reveal(spec_generate_moves);
    lemma_attacked_pos(b, 2, PieceColor::Black);
    lemma_attacked_pos(b, 3, PieceColor::Black);
    lemma_attacked_pos(b, 4, PieceColor::Black);
    lemma_attacked_pos(b, 5, PieceColor::Black);
    lemma_attacked_pos(b, 6, PieceColor::Black);
    lemma_attacked_pos(b, 58, PieceColor::White);
    lemma_attacked_pos(b, 59, PieceColor::White);
    lemma_attacked_pos(b, 60, PieceColor::White);
    lemma_attacked_pos(b, 61, PieceColor::White);
    lemma_attacked_pos(b, 62, PieceColor::White);
    assert(spec_castles(b, t, b.rights.bits, b.color_bbs[0] | b.color_bbs[1]) == spec_castles(
        pos_of(b),
        t,
        b.rights.bits,
        b.color_bbs[0] | b.color_bbs[1],
    ));
}

proof fn lemma_do_pos(b: BoardModel, m: Move)
    ensures
        pos_of(m_do_move(b, m)) == pos_of(m_do_move(pos_of(b), m)),
{
    let x = m_do_move(b, m);
    let y = m_do_move(pos_of(b), m);
    assert(x.mailbox == y.mailbox);
    assert(x.color_bbs == y.color_bbs);
    assert(x.type_bbs == y.type_bbs);
    assert(pos_of(x) =~= pos_of(y));
}

proof fn lemma_legal_pos(b: BoardModel, m: Move)
    ensures
        leaves_king_safe(b, b.turn)(m) == leaves_king_safe(pos_of(b), pos_of(b).turn)(m),
        pos_of(child(b, m)) == pos_of(child(pos_of(b), m)),
{
    reveal(leaves_king_safe);
    reveal(child);
    lemma_do_pos(b, m);
    let x = m_do_move(b, m);
    let y = m_do_move(pos_of(b), m);
    lemma_attacked_pos(x, 0, PieceColor::White);
    assert(spec_is_in_check(x, b.turn) == spec_is_in_check(pos_of(x), b.turn));
    assert(spec_is_in_check(y, b.turn) == spec_is_in_check(pos_of(y), b.turn));
}

/// The leaf count of a board depends only on its position: not on its undo
/// stack or its counters.
pub proof fn lemma_perft_pos(depth: nat, b: BoardModel)
    ensures
        spec_perft(depth, b) == spec_perft(depth, pos_of(b)),
    decreases depth, 1nat, 0nat,
{
    if depth > 0 {
        lemma_gen_pos(b, b.turn);
        let s = spec_generate_moves(true, true, b, b.turn);
        lemma_perft_sum_pos(s, b, depth);
    }
}

proof fn lemma_perft_sum_pos(s: Seq<Move>, b: BoardModel, depth: nat)
    requires
        depth > 0,
    ensures
        perft_sum(s, b, depth) == perft_sum(s, pos_of(b), depth),
    decreases depth, 0nat, s.len(),
{
    if s.len() > 0 {
        lemma_perft_sum_pos(s.drop_last(), b, depth);
        lemma_legal_pos(b, s.last());
        lemma_perft_pos((depth - 1) as nat, child(b, s.last()));
        lemma_perft_pos((depth - 1) as nat, child(pos_of(b), s.last()));
    }
}

/// The squares a pawn of the side to move could take en passant onto.
pub open spec fn ep_reach(b: BoardModel) -> u64 {
    let pawns = b.type_bbs[0] & b.color_bbs[color_code(b.turn) as int];
    if b.turn == PieceColor::White {
        let np = pawns & !RANK_7;
        ((np & !A_FILE) << 7u64) | ((np & !H_FILE) << 9u64)
    } else {
        let np = pawns & !RANK_2;
        ((np & !H_FILE) >> 7u64) | ((np & !A_FILE) >> 9u64)
    }
}

/// The board with only the part of its en passant square that a pawn of the
/// side to move could take onto.
pub open spec fn usable_ep(b: BoardModel) -> BoardModel {
    BoardModel { en_passant: b.en_passant & ep_reach(b), ..b }
}

/// What a position is remembered by: its pieces, side to move, castling
/// rights and usable en passant square.
pub open spec fn key_of(b: BoardModel) -> BoardModel {
    pos_of(usable_ep(b))
}

proof fn lemma_ep_mask(x: u64, y: u64, e: u64)
    by (bit_vector)
    ensures
        x & (e & (x | y)) == x & e,
        y & (e & (x | y)) == y & e,
{
}

proof fn lemma_gen_ep(b: BoardModel)
    ensures
        spec_generate_moves(true, true, b, b.turn) == spec_generate_moves(
            true,
            true,
            usable_ep(b),
            b.turn,
        ),
{
    reveal(spec_generate_moves);
    let pawns = b.type_bbs[0] & b.color_bbs[color_code(b.turn) as int];
    if b.turn == PieceColor::White {
        let np = pawns & !RANK_7;
        lemma_ep_mask((np & !A_FILE) << 7u64, (np & !H_FILE) << 9u64, b.en_passant);
    } else {
        let np = pawns & !RANK_2;
        lemma_ep_mask((np & !H_FILE) >> 7u64, (np & !A_FILE) >> 9u64, b.en_passant);
    }
    let c = usable_ep(b);
    assert(spec_castles(b, b.turn, b.rights.bits, b.color_bbs[0] | b.color_bbs[1]) == spec_castles(
        c,
        b.turn,
        b.rights.bits,
        b.color_bbs[0] | b.color_bbs[1],
    ));
}

proof fn lemma_legal_ep(b: BoardModel, m: Move)
    ensures
        leaves_king_safe(b, b.turn)(m) == leaves_king_safe(usable_ep(b), b.turn)(m),
        pos_of(child(b, m)) == pos_of(child(usable_ep(b), m)),
{
    reveal(leaves_king_safe);
    reveal(child);
    let x = m_do_move(b, m);
    let y = m_do_move(usable_ep(b), m);
    assert(x.mailbox == y.mailbox);
    assert(x.color_bbs == y.color_bbs);
    assert(x.type_bbs == y.type_bbs);
    assert(pos_of(x) =~= pos_of(y));
}

/// The leaf count of a board does not depend on an en passant square that
/// no pawn of the side to move could take onto.
pub proof fn lemma_perft_ep(depth: nat, b: BoardModel)
    ensures
        spec_perft(depth, b) == spec_perft(depth, usable_ep(b)),
    decreases depth, 1nat, 0nat,
{
    if depth > 0 {
        lemma_gen_ep(b);
        let s = spec_generate_moves(true, true, b, b.turn);
        lemma_perft_sum_ep(s, b, depth);
    }
}

proof fn lemma_perft_sum_ep(s: Seq<Move>, b: BoardModel, depth: nat)
    requires
        depth > 0,
    ensures
        perft_sum(s, b, depth) == perft_sum(s, usable_ep(b), depth),
    decreases depth, 0nat, s.len(),
{
    if s.len() > 0 {
        lemma_perft_sum_ep(s.drop_last(), b, depth);
        lemma_legal_ep(b, s.last());
        lemma_perft_pos((depth - 1) as nat, child(b, s.last()));
        lemma_perft_pos((depth - 1) as nat, child(usable_ep(b), s.last()));
    }
}

/// Boards with the same key have the same leaf counts.
pub proof fn lemma_perft_key(depth: nat, b: BoardModel)
    ensures
        spec_perft(depth, b) == spec_perft(depth, key_of(b)),
{
    lemma_perft_ep(depth, b);
    lemma_perft_pos(depth, usable_ep(b));
}

/// One move deep, the leaf count is the number of legal moves.
pub proof fn lemma_perft_one(b: BoardModel)
    ensures
        spec_perft(1, b) == spec_legal_moves(b).len(),
{
    lemma_perft_sum_one(spec_generate_moves(true, true, b, b.turn), b);
}

proof fn lemma_perft_sum_one(s: Seq<Move>, b: BoardModel)
    ensures
        perft_sum(s, b, 1) == s.filter(leaves_king_safe(b, b.turn)).len(),
    decreases s.len(),
{
    if s.len() > 0 {
        lemma_perft_sum_one(s.drop_last(), b);
        s.drop_last().lemma_filter_push(s.last(), leaves_king_safe(b, b.turn));
        assert(s.drop_last().push(s.last()) =~= s);
        assert(spec_perft(0, child(b, s.last())) == 1);
    } else {
        assert(s.filter(leaves_king_safe(b, b.turn)) =~= Seq::<Move>::empty()) by {
            reveal(Seq::filter);
        }
    }
}

/// One remembered leaf count: the position it belongs to, its depth and the count.
#[derive(Clone, Copy)]
pub struct CacheEntry {
    pub valid: bool,
    pub color: [u64; 2],
    pub types: [u64; 6],
    pub en_passant: u64,
    pub rights: u8,
    pub turn: PieceColor,
    pub depth: u32,
    pub count: u64,
}

/// The entry is filled and holds the position of `b`.
pub open spec fn entry_matches(e: CacheEntry, b: BoardModel) -> bool {
    &&& e.valid
    &&& e.color@ == b.color_bbs
    &&& e.types@ == b.type_bbs
    &&& e.en_passant == b.en_passant & ep_reach(b)
    &&& e.rights == b.rights.bits
    &&& e.turn == b.turn
}

/// `x * y` modulo `2^64`.
pub open spec fn mix(x: u64, y: u64) -> u64 {
    vstd::wrapping::u64_specs::wrapping_mul(x, y)
}

/// The hash `PerftCache` files a position and a depth under: the bitboards,
/// the usable en passant square, the rights and the depth stirred in turn by
/// multiplication, the side to move folded in, and the bits mixed at the end.
pub open spec fn key_hash(b: BoardModel, depth: u32) -> u64 {
    let h0 = mix(b.color_bbs[0], 0x9E3779B97F4A7C15);
    let h1 = mix(h0 ^ b.color_bbs[1], 0xC2B2AE3D27D4EB4F);
    let h2 = mix(h1 ^ b.type_bbs[0], 0x165667B19E3779F9);
    let h3 = mix(h2 ^ b.type_bbs[1], 0x9E3779B97F4A7C15);
    let h4 = mix(h3 ^ b.type_bbs[2], 0xC2B2AE3D27D4EB4F);
    let h5 = mix(h4 ^ b.type_bbs[3], 0x165667B19E3779F9);
    let h6 = mix(h5 ^ b.type_bbs[4], 0x9E3779B97F4A7C15);
    let h7 = mix(h6 ^ b.type_bbs[5], 0xC2B2AE3D27D4EB4F);
    let h8 = mix(
        ((h7 ^ (b.en_passant & ep_reach(b))) ^ (b.rights.bits as u64)) ^ ((depth as u64) << 8u64),
        0x165667B19E3779F9,
    );
    let h9 = if b.turn == PieceColor::Black {
        h8 ^ 0x5555555555555555
    } else {
        h8
    };
    let h10 = mix(h9 ^ (h9 >> 32u64), 0xD6E8FEB86659FD93);
    h10 ^ (h10 >> 29u64)
}

/// Leaf counts already known, each stored with the whole position it was
/// counted on, so a hit is never a different position.
pub struct PerftCache {
    slots: Vec<CacheEntry>,
}

proof fn lemma_match_same_key(e: CacheEntry, a: BoardModel, b: BoardModel)
    requires
        m_wf(a),
        m_wf(b),
        entry_matches(e, a),
        entry_matches(e, b),
    ensures
        key_of(a) == key_of(b),
{
    crate::board::lemma_wf_same_mailbox(a, b);
    assert(a.rights == b.rights);
    assert(key_of(a) =~= key_of(b));
}

/// The part of the en passant square that a pawn of the side to move could take onto.
fn key_en_passant(board: &Board) -> (r: u64)
    ensures
        r == board@.en_passant & ep_reach(board@),
{
    let turn = board.get_turn();
    let pawns = board.get_bb_by_type(PieceType::Pawn) & board.get_bb_by_color(turn);
    let reach = if turn == PieceColor::White {
        let np = pawns & !RANK_7;
        ((np & !A_FILE) << 7u64) | ((np & !H_FILE) << 9u64)
    } else {
        let np = pawns & !RANK_2;
        ((np & !H_FILE) >> 7u64) | ((np & !A_FILE) >> 9u64)
    };
    board.get_en_passant_bb() & reach
}

impl PerftCache {
    /// The entries, one per slot.
    pub closed spec fn entries(&self) -> Seq<CacheEntry> {
        self.slots@
    }

    /// The slot a position and a depth are filed under in a cache of `n` slots.
    pub open spec fn slot_of(b: BoardModel, depth: u32, n: nat) -> int {
        (key_hash(b, depth) % (n as u64)) as int
    }

    /// Every filled entry holds the leaf count of each consistent board with its position.
    pub closed spec fn inv(&self) -> bool {
        &&& self.slots@.len() > 0
        &&& forall|j: int, b: BoardModel|
            0 <= j < self.slots@.len() && m_wf(b) && #[trigger] entry_matches(self.slots@[j], b)
                ==> spec_perft(self.slots@[j].depth as nat, b) == self.slots@[j].count
    }

    /// An empty cache of `2^bits` slots.
    pub fn new(bits: u32) -> (r: Self)
        requires
            1 <= bits <= 26,
        ensures
            r.inv(),
    {
        let size: u64 = 1u64 << (bits as u64);
        proof {
            lemma_size(bits as u64);
        }
        let empty = CacheEntry {
            valid: false,
            color: [0u64; 2],
            types: [0u64; 6],
            en_passant: 0,
            rights: 0,
            turn: PieceColor::White,
            depth: 0,
            count: 0,
        };
        let slots: Vec<CacheEntry> = vec![empty; size as usize];
        assert forall|j: int| 0 <= j < slots@.len() implies !(#[trigger] slots@[j]).valid by {
            assert(cloned(empty, slots@[j]));
        }
        PerftCache { slots }
    }

    /// The slot of a position and depth.
    fn slot(&self, board: &Board, depth: u32) -> (r: usize)
        requires
            self.inv(),
        ensures
            r < self.slots@.len(),
            r == Self::slot_of(board@, depth, self.slots@.len()),
    {
        proof {
            board.lemma_shaped();
        }
        let mut h: u64 = board.get_bb_by_color(PieceColor::White).wrapping_mul(0x9E3779B97F4A7C15);
        h = (h ^ board.get_bb_by_color(PieceColor::Black)).wrapping_mul(0xC2B2AE3D27D4EB4F);
        h = (h ^ board.get_bb_by_type(PieceType::Pawn)).wrapping_mul(0x165667B19E3779F9);
        h = (h ^ board.get_bb_by_type(PieceType::Knight)).wrapping_mul(0x9E3779B97F4A7C15);
        h = (h ^ board.get_bb_by_type(PieceType::Bishop)).wrapping_mul(0xC2B2AE3D27D4EB4F);
        h = (h ^ board.get_bb_by_type(PieceType::Rook)).wrapping_mul(0x165667B19E3779F9);
        h = (h ^ board.get_bb_by_type(PieceType::Queen)).wrapping_mul(0x9E3779B97F4A7C15);
        h = (h ^ board.get_bb_by_type(PieceType::King)).wrapping_mul(0xC2B2AE3D27D4EB4F);
        h = (h ^ key_en_passant(board) ^ (board.get_rights().bits() as u64) ^ ((depth as u64)
            << 8u64)).wrapping_mul(0x165667B19E3779F9);
        if board.get_turn() == PieceColor::Black {
            h = h ^ 0x5555555555555555;
        }
        h = (h ^ (h >> 32u64)).wrapping_mul(0xD6E8FEB86659FD93);
        h = h ^ (h >> 29u64);
        (h % (self.slots.len() as u64)) as usize
    }

    /// The remembered leaf count of `board` at `depth`, if there is one.
    pub fn lookup(&self, board: &Board, depth: u32) -> (r: Option<u64>)
        requires
            self.inv(),
            m_wf(board@),
        ensures
            r matches Some(c) ==> c == spec_perft(depth as nat, board@),
            ({
                let e = self.entries()[Self::slot_of(board@, depth, self.entries().len())];
                r == if e.depth == depth && entry_matches(e, board@) {
                    Some(e.count)
                } else {
                    None::<u64>
                }
            }),
    {
        let j = self.slot(board, depth);
        let e = self.slots[j];
        if e.valid && e.depth == depth && e.turn == board.get_turn()
            && e.color[0] == board.get_bb_by_color(PieceColor::White)
            && e.color[1] == board.get_bb_by_color(PieceColor::Black)
            && e.types[0] == board.get_bb_by_type(PieceType::Pawn)
            && e.types[1] == board.get_bb_by_type(PieceType::Knight)
            && e.types[2] == board.get_bb_by_type(PieceType::Bishop)
            && e.types[3] == board.get_bb_by_type(PieceType::Rook)
            && e.types[4] == board.get_bb_by_type(PieceType::Queen)
            && e.types[5] == board.get_bb_by_type(PieceType::King)
            && e.en_passant == key_en_passant(board)
            && e.rights == board.get_rights().bits() {
            proof {
                board.lemma_shaped();
                assert(e.color@ =~= board@.color_bbs);
                assert(e.types@ =~= board@.type_bbs);
                assert(entry_matches(self.slots@[j as int], board@));
            }
            Some(e.count)
        } else {
            None
        }
    }

    /// Remembers that `board` has `count` leaves at `depth`.
    pub fn store(&mut self, board: &Board, depth: u32, count: u64)
        requires
            old(self).inv(),
            m_wf(board@),
            count == spec_perft(depth as nat, board@),
        ensures
            final(self).inv(),
            ({
                let j = Self::slot_of(board@, depth, old(self).entries().len());
                let e = final(self).entries()[j];
                &&& final(self).entries().len() == old(self).entries().len()
                &&& entry_matches(e, board@)
                &&& e.depth == depth
                &&& e.count == count
                &&& forall|i: int|
                    0 <= i < old(self).entries().len() && i != j ==> #[trigger] final(self).entries()[i]
                        == old(self).entries()[i]
            }),
    {
        let j = self.slot(board, depth);
        let e = CacheEntry {
            valid: true,
            color: [board.get_bb_by_color(PieceColor::White), board.get_bb_by_color(PieceColor::Black)],
            types: [
                board.get_bb_by_type(PieceType::Pawn),
                board.get_bb_by_type(PieceType::Knight),
                board.get_bb_by_type(PieceType::Bishop),
                board.get_bb_by_type(PieceType::Rook),
                board.get_bb_by_type(PieceType::Queen),
                board.get_bb_by_type(PieceType::King),
            ],
            en_passant: key_en_passant(board),
            rights: board.get_rights().bits(),
            turn: board.get_turn(),
            depth,
            count,
        };
        proof {
            board.lemma_shaped();
            assert(e.color@ =~= board@.color_bbs);
            assert(e.types@ =~= board@.type_bbs);
            assert(entry_matches(e, board@));
        }
        let ghost before = self.slots@;
        self.slots.set(j, e);
        assert forall|i: int, b: BoardModel|
            0 <= i < self.slots@.len() && m_wf(b) && #[trigger] entry_matches(self.slots@[i], b)
                implies spec_perft(self.slots@[i].depth as nat, b) == self.slots@[i].count by {
            if i == j {
                lemma_match_same_key(e, b, board@);
                lemma_perft_key(depth as nat, b);
                lemma_perft_key(depth as nat, board@);
            } else {
                assert(self.slots@[i] == before[i]);
            }
        }
    }
}

proof fn lemma_size(bits: u64)
    by (bit_vector)
    requires
        1 <= bits <= 26,
    ensures
        2 <= 1u64 << bits <= 0x4000000,
{
}

/// Counts the leaf nodes of the legal move tree `depth` moves deep. The board
/// is left as it was.
pub fn perft(depth: u32, board: &mut Board) -> (r: u64)
    requires
        perft_ok(depth as nat, old(board)@),
    ensures
        r == spec_perft(depth as nat, old(board)@),
        final(board)@ == old(board)@,
{
    let tables = AttackTables::new();
    let mut cache = PerftCache::new(if depth >= 5 {
        21
    } else {
        12
    });
    perft_with(&tables, &mut cache, depth, board)
}

/// `perft`, with attacks read from `tables` and the leaf counts of positions
/// two or more moves above the leaves remembered in `cache`.
pub fn perft_with(tables: &AttackTables, cache: &mut PerftCache, depth: u32, board: &mut Board) -> (r: u64)
    requires
        tables.wf(),
        old(cache).inv(),
        perft_ok(depth as nat, old(board)@),
    ensures
        r == spec_perft(depth as nat, old(board)@),
        final(board)@ == old(board)@,
        final(cache).inv(),
    decreases depth,
{
    if depth == 0 {
        return 1;
    }
    if depth >= 2 {
        match cache.lookup(board, depth) {
            Some(count) => {
                return count;
            },
            None => {},
        }
    }
    let ghost b = board@;
    let turn = board.get_turn();
    let ml = moves_with::<true, true>(tables, board, turn);
    let ghost s = ml@;
    let n = ml.len();
    let mut nodes: u64 = 0;
    let mut m: usize = 0;
    assert(ml@.take(0) =~= Seq::<Move>::empty());
    assert(moves_fit(b));
    assert(perft_ok_all(s, b, depth as nat));
    assert(perft_sum(s, b, depth as nat) <= u64::MAX);
    let mine = board.get_bb_by_color(turn);
    let kings = board.get_bb_by_type(PieceType::King);
    let mut own_kings = kings & mine;
    let mut unseen_safe = false;
    let mut seen: u64 = 0;
    let ghost mut k: int = 0;
    if depth == 1 && own_kings != 0 {
        let king_sq = own_kings.pop_lsb();
        if !square_attacked(tables, board, king_sq, turn.flip()) {
            let all_pieces = board.get_all_pieces();
            seen = tables.rook(king_sq, all_pieces) | tables.bishop(king_sq, all_pieces);
            unseen_safe = true;
            proof {
                k = king_sq as int;
            }
        }
    }
    while m < n
        invariant
            depth > 0,
            mine == b.color_bbs[color_code(b.turn) as int],
            kings == b.type_bbs[5],
            unseen_safe ==> safe_king(b, k, seen),
            n == s.len(),
            ml@ == s,
            m <= n,
            board@ == b,
            turn == b.turn,
            moves_fit(b),
            s == spec_generate_moves(true, true, b, b.turn),
            perft_ok_all(s, b, depth as nat),
            perft_sum(s, b, depth as nat) <= u64::MAX,
            nodes == perft_sum(s.take(m as int), b, depth as nat),
            tables.wf(),
            cache.inv(),
        decreases n - m,
    {
        let candidate_move = ml.as_slice()[m];
        proof {
            lemma_do_undo(b, candidate_move);
            lemma_perft_step(s, b, depth as nat, m as int);
            reveal(child);
            reveal(leaves_king_safe);
        }
        if depth == 1 {
            let from_bit = 1u64 << candidate_move.from_square();
            let to_bit = 1u64 << candidate_move.to_square();
            if unseen_safe && !candidate_move.is_en_passant() && !candidate_move.is_castle()
                && from_bit & mine != 0 && from_bit & kings == 0 && to_bit & mine == 0
                && from_bit & seen == 0 {
                proof {
                    lemma_unseen_move_safe(b, candidate_move, k, seen);
                }
                nodes += 1;
            } else {
                let mut after = board.position();
                after.apply_move(candidate_move);
                if !check_on(tables, after.color_bitboards(), after.type_bitboards(), turn) {
                    nodes += 1;
                }
            }
        } else {
            board.do_move(candidate_move);
            if !in_check(tables, board, turn) {
                proof {
                    lemma_perft_ok_all(s, b, depth as nat, m as int);
                }
                nodes += perft_with(tables, cache, depth - 1, board);
            }
            board.undo_move();
        }
        m += 1;
    }
    assert(s.take(n as int) =~= s);
    if depth >= 2 {
        cache.store(board, depth, nodes);
    }
    nodes
}

} // verus!
