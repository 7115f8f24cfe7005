use vstd::prelude::*;

verus! {

use crate::bitboard::Bitboard;
use crate::move_generator::{
    MagicInfo, calc_shift, count_ones, get_blocker_mask, generate_sliding_attacks, is_slider,
    king_attacks, knight_attacks, lemma_attacks_masked, spec_bishop_attacks, spec_blocker_mask,
    spec_king_attacks, spec_knight_attacks, spec_rook_attacks, spec_sliding_attacks,
};
use crate::piece::PieceType;

/// Multipliers that hash a rook's masked blockers into its table slot.
pub const ROOK_MAGICS: [u64; 64] = [
    4935945329314512900, 1170936040690548800, 2954396541018767624, 936784113040410660,
    720611640449457200, 9367496072596852737, 864699941756338697, 36028938753036928,
    90212732187443360, 844699877277954, 2533347949543489, 3769654175621711872,
    608127237073404928, 162411074455864320, 4785285057609732, 1191624317134177536,
    1765552341242626048, 10380867784713179138, 282575564177424, 290511863047848032,
    53876204044556, 8800925126720, 576465150487465985, 36039792173880068,
    9376564795077066784, 9183126483914752, 326863920513941520, 153131185572151424,
    11540495521056768, 9228440003776088080, 10016287119264317540, 576742596647747844,
    36030171421089794, 281749871403648, 1443544555507945472, 292736278166774016,
    5766437127571130368, 18177128386265600, 112598791139365392, 83457331676841216,
    4611756389598265348, 4620693356463308800, 4613480425699999808, 580546436595720,
    9226842095686287488, 43347322776191012, 17696456704010, 145245487530901505,
    222435744227197184, 649714808358306304, 2310504939052368768, 4972256603371733248,
    2308095378254266624, 562995251937408, 576463260850594816, 176489889008128,
    5802924477880729859, 594625036585992226, 18023332042522885, 1153203014549377025,
    9314007014520922370, 759138047119065217, 72339071230410757, 290486595541557378,
];

/// Multipliers that hash a bishop's masked blockers into its table slot.
pub const BISHOP_MAGICS: [u64; 64] = [
    45071610159833120, 577604253527377920, 1158552112276310211, 1200668846067712,
    298385603536486432, 1172347685743657508, 4611905930702880768, 72200535113155584,
    667113304195597312, 18049875543343168, 2738224861687087109, 69845394250530848,
    4415764856841, 577591256549965824, 288241923240501248, 10142447225085987,
    1135529827763233, 18718154740007968, 7516648808768602176, 4910049502365876228,
    1230609173723545744, 14160584999853688832, 6830312295236608, 562960163805224,
    37172291328587904, 9225799759133149824, 9847419669605255200, 9302189986860367876,
    73466070581657600, 2598578084546379920, 2308097439712741384, 594758824816182272,
    1335345052452921890, 1585633274373120, 10699493712599044, 4616262187974393984,
    38282813035819024, 141841295609860, 15277063195720713216, 10982595632048906753,
    1450445021827318272, 1200735553389698, 4629719143128498432, 36171742189715968,
    144185625842553088, 83606933039227136, 4649975416788877380, 9243647105388515456,
    2306150907400159232, 291409254940672, 108931918737702976, 324613244035792960,
    324259448132796483, 360340755606340096, 2319358274934521856, 2260600403009536,
    74769005355008, 19796596101122, 81681623888170000, 37225074277242890,
    596766812488606212, 90641543988512, 1243582972852568580, 18015807294423104,
];

/// One precomputed slider attack set: the attacks of a piece on `square`
/// when the pieces in its blocker mask are `blocker`.
#[derive(Clone, Copy)]
pub struct SlideEntry {
    pub square: u8,
    pub blocker: u64,
    pub attacks: u64,
}

/// Precomputed attacks: knight and king sets per square, and magic-indexed
/// tables of rook and bishop sets.
pub struct AttackTables {
    knight: [u64; 64],
    king: [u64; 64],
    rook_info: [MagicInfo; 64],
    bishop_info: [MagicInfo; 64],
    rook_entries: Vec<SlideEntry>,
    bishop_entries: Vec<SlideEntry>,
}

/// Every entry that names a square holds the attacks for its blocker.
pub open spec fn entries_ok(entries: Seq<SlideEntry>, piece_type: PieceType) -> bool {
    forall|j: int|
        0 <= j < entries.len() && (#[trigger] entries[j]).square < 64 ==> entries[j].attacks
            == spec_sliding_attacks(entries[j].square as int, entries[j].blocker, piece_type)
}

/// The magic parameters of each square carry its blocker mask.
pub open spec fn infos_ok(infos: Seq<MagicInfo>, piece_type: PieceType) -> bool {
    &&& infos.len() == 64
    &&& forall|i: int|
        0 <= i < 64 ==> (#[trigger] infos[i]).mask == spec_blocker_mask(i, piece_type)
            && 0 <= infos[i].shift < 64
}

impl AttackTables {
    /// Every table entry is right.
    pub closed spec fn wf(&self) -> bool {
        &&& forall|i: int| 0 <= i < 64 ==> #[trigger] self.knight[i] == spec_knight_attacks(i)
        &&& forall|i: int| 0 <= i < 64 ==> #[trigger] self.king[i] == spec_king_attacks(i)
        &&& infos_ok(self.rook_info@, PieceType::Rook)
        &&& infos_ok(self.bishop_info@, PieceType::Bishop)
        &&& entries_ok(self.rook_entries@, PieceType::Rook)
        &&& entries_ok(self.bishop_entries@, PieceType::Bishop)
    }

    /// Builds the tables.
    pub fn new() -> (r: Self)
        ensures
            r.wf(),
    {
        let mut knight = [0u64; 64];
        let mut king = [0u64; 64];
        let mut sq: u8 = 0;
        while sq < 64
            invariant
                sq <= 64,
                forall|i: int| 0 <= i < sq ==> #[trigger] knight[i] == spec_knight_attacks(i),
                forall|i: int| 0 <= i < sq ==> #[trigger] king[i] == spec_king_attacks(i),
            decreases 64 - sq,
        {
            knight[sq as usize] = knight_attacks(sq);
            king[sq as usize] = king_attacks(sq);
            sq += 1;
        }
        let (rook_info, rook_entries) = Self::build_slider(PieceType::Rook);
        let (bishop_info, bishop_entries) = Self::build_slider(PieceType::Bishop);
        AttackTables { knight, king, rook_info, bishop_info, rook_entries, bishop_entries }
    }

    /// The magic multiplier of a rook on `sq`, or of a bishop for any other piece type.
    fn magic_of(piece_type: PieceType, sq: u8) -> (r: u64)
        requires
            sq < 64,
        ensures
            r == if piece_type == PieceType::Rook {
                ROOK_MAGICS[sq as int]
            } else {
                BISHOP_MAGICS[sq as int]
            },
    {
        if piece_type == PieceType::Rook {
            ROOK_MAGICS[sq as usize]
        } else {
            BISHOP_MAGICS[sq as usize]
        }
    }

    /// The table slot of masked blockers `b` for a slider on `sq`.
    fn slot(info: &MagicInfo, b: u64) -> (r: u64)
        requires
            0 <= info.shift < 64,
        ensures
            r == vstd::wrapping::u64_specs::wrapping_add(
                vstd::wrapping::u64_specs::wrapping_mul(b, info.magic) >> (info.shift as u64),
                info.offset,
            ),
    {
        (b.wrapping_mul(info.magic) >> (info.shift as u64)).wrapping_add(info.offset)
    }

    fn build_slider(piece_type: PieceType) -> (r: ([MagicInfo; 64], Vec<SlideEntry>))
        requires
            is_slider(piece_type),
        ensures
            infos_ok(r.0@, piece_type),
            entries_ok(r.1@, piece_type),
    {
        let mut infos = [MagicInfo::new(); 64];
        let mut total: u64 = 0;
        let mut sq: u8 = 0;
        while sq < 64
            invariant
                sq <= 64,
                total <= sq * 4096,
                is_slider(piece_type),
                forall|i: int|
                    0 <= i < sq ==> (#[trigger] infos[i]).mask == spec_blocker_mask(i, piece_type)
                        && 0 <= infos[i].shift < 64,
            decreases 64 - sq,
        {
            let mask = get_blocker_mask(sq, piece_type);
            let n = count_ones(mask);
            let shift = calc_shift(sq, piece_type);
            let width: u64 = if n <= 12 {
                1u64 << (n as u64)
            } else {
                4096
            };
            infos[sq as usize] = MagicInfo {
                mask,
                magic: Self::magic_of(piece_type, sq),
                offset: total,
                shift: if 0 <= shift && shift < 64 {
                    shift
                } else {
                    0
                },
            };
            proof {
                if n <= 12 {
                    lemma_pow_width(n as u64);
                }
            }
            total = total + width;
            sq += 1;
        }
        let mut entries: Vec<SlideEntry> = Vec::new();
        let mut k: u64 = 0;
        while k < total
            invariant
                k <= total,
                total <= 64 * 4096,
                entries@.len() == k,
                forall|j: int| 0 <= j < k ==> (#[trigger] entries@[j]).square == 64,
            decreases total - k,
        {
            entries.push(SlideEntry { square: 64, blocker: 0, attacks: 0 });
            k += 1;
        }
        assert(entries_ok(entries@, piece_type));
        let mut sq: u8 = 0;
        while sq < 64
            invariant
                sq <= 64,
                is_slider(piece_type),
                entries_ok(entries@, piece_type),
                forall|i: int|
                    0 <= i < 64 ==> (#[trigger] infos[i]).mask == spec_blocker_mask(i, piece_type)
                        && 0 <= infos[i].shift < 64,
            decreases 64 - sq,
        {
            let info = infos[sq as usize];
            let mask = info.mask;
            let count = count_ones(mask);
            let subsets: u64 = if count <= 12 {
                1u64 << (count as u64)
            } else {
                0
            };
            let mut sub: u64 = 0;
            let mut k: u64 = 0;
            while k < subsets
                invariant
                    sq < 64,
                    is_slider(piece_type),
                    0 <= info.shift < 64,
                    entries_ok(entries@, piece_type),
                decreases subsets - k,
            {
                let idx = Self::slot(&info, sub);
                if idx < entries.len() as u64 {
                    let attacks = generate_sliding_attacks(sq, sub, piece_type);
                    let ghost before = entries@;
                    entries.set(idx as usize, SlideEntry { square: sq, blocker: sub, attacks });
                    assert forall|j: int|
                        0 <= j < entries@.len() && (#[trigger] entries@[j]).square < 64 implies entries@[j].attacks
                            == spec_sliding_attacks(entries@[j].square as int, entries@[j].blocker, piece_type) by {
                        if j != idx {
                            assert(entries@[j] == before[j]);
                        }
                    }
                }
                sub = sub.wrapping_sub(mask) & mask;
                k += 1;
            }
            sq += 1;
        }
        (infos, entries)
    }

    /// The squares a knight on `sq` attacks.
    pub fn knight(&self, sq: u8) -> (r: Bitboard)
        requires
            self.wf(),
            sq < 64,
        ensures
            r == spec_knight_attacks(sq as int),
    {
        self.knight[sq as usize]
    }

    /// The squares a king on `sq` attacks.
    pub fn king(&self, sq: u8) -> (r: Bitboard)
        requires
            self.wf(),
            sq < 64,
        ensures
            r == spec_king_attacks(sq as int),
    {
        self.king[sq as usize]
    }

    /// The squares a rook or bishop on `sq` attacks past the pieces `occ`:
    /// the table entry of its masked blockers, or a walk along its rays when
    /// the slot holds another entry.
    fn slider(&self, sq: u8, occ: u64, piece_type: PieceType) -> (r: Bitboard)
        requires
            self.wf(),
            sq < 64,
            is_slider(piece_type),
        ensures
            r == spec_sliding_attacks(sq as int, occ, piece_type),
    {
        let info = if piece_type == PieceType::Rook {
            &self.rook_info[sq as usize]
        } else {
            &self.bishop_info[sq as usize]
        };
        let entries = if piece_type == PieceType::Rook {
            &self.rook_entries
        } else {
            &self.bishop_entries
        };
        let b = occ & info.mask;
        let idx = Self::slot(info, b);
        if idx < entries.len() as u64 {
            let e = entries[idx as usize];
            if e.square == sq && e.blocker == b {
                proof {
                    lemma_attacks_masked(sq as int, occ, piece_type);
                }
                return e.attacks;
            }
        }
        generate_sliding_attacks(sq, occ, piece_type)
    }

    /// The squares a rook on `sq` attacks past the pieces `occ`.
    pub fn rook(&self, sq: u8, occ: u64) -> (r: Bitboard)
        requires
            self.wf(),
            sq < 64,
        ensures
            r == spec_rook_attacks(sq as int, occ),
    {
        self.slider(sq, occ, PieceType::Rook)
    }

    /// The squares a bishop on `sq` attacks past the pieces `occ`.
    pub fn bishop(&self, sq: u8, occ: u64) -> (r: Bitboard)
        requires
            self.wf(),
            sq < 64,
        ensures
            r == spec_bishop_attacks(sq as int, occ),
    {
        self.slider(sq, occ, PieceType::Bishop)
    }
}

proof fn lemma_pow_width(n: u64)
    by (bit_vector)
    requires
        n <= 12,
    ensures
        1u64 << n <= 4096,
{
}

} // verus!
