use vstd::prelude::*;

verus! {

use crate::board::{Board, BoardModel, CastlingRights, lemma_empty_wf, lemma_put_wf, m_empty, m_put, m_wf};
use crate::piece::{PieceColor, PieceType, make_piece, spec_make};

pub const START_POS: &'static str = "rnbqkbnr/pppppppp/8/8/8/8/PPPPPPPP/RNBQKBNR w KQkq - 0 1";

#[derive(Debug, Clone, Copy, PartialEq, Eq, Structural)]
pub enum FenError {
    InvalidPartCount,
    InvalidPiecePlacement,
    InvalidTurn,
    InvalidRights,
    InvalidEnPassant,
    InvalidHalfMoveClock,
    InvalidFullMoveClock,
    OutOfBounds,
}

/// The characters Unicode calls white space.
pub open spec fn is_white_space(c: char) -> bool {
    ||| '\u{9}' <= c <= '\u{d}'
    ||| c == ' '
    ||| c == '\u{85}'
    ||| c == '\u{a0}'
    ||| c == '\u{1680}'
    ||| '\u{2000}' <= c <= '\u{200a}'
    ||| c == '\u{2028}'
    ||| c == '\u{2029}'
    ||| c == '\u{202f}'
    ||| c == '\u{205f}'
    ||| c == '\u{3000}'
}

fn is_white_space_char(c: char) -> (r: bool)
    ensures
        r == is_white_space(c),
{
    ('\u{9}' <= c && c <= '\u{d}') || c == ' ' || c == '\u{85}' || c == '\u{a0}' || c == '\u{1680}'
        || ('\u{2000}' <= c && c <= '\u{200a}') || c == '\u{2028}' || c == '\u{2029}' || c
        == '\u{202f}' || c == '\u{205f}' || c == '\u{3000}'
}

/// The words of `s` from position `i` on, given the word `cur` in progress
/// and the words `acc` already complete: maximal runs of characters other
/// than white space, in order.
pub open spec fn split_from(s: Seq<char>, i: int, cur: Seq<char>, acc: Seq<Seq<char>>) -> Seq<Seq<char>>
    decreases s.len() - i,
{
    if i >= s.len() {
        if cur.len() > 0 {
            acc.push(cur)
        } else {
            acc
        }
    } else if is_white_space(s[i]) {
        split_from(s, i + 1, Seq::empty(), if cur.len() > 0 {
            acc.push(cur)
        } else {
            acc
        })
    } else {
        split_from(s, i + 1, cur.push(s[i]), acc)
    }
}

/// The words of `s`, as `str::split_whitespace` cuts them.
pub open spec fn split_white_space(s: Seq<char>) -> Seq<Seq<char>> {
    split_from(s, 0, Seq::empty(), Seq::empty())
}

/// The characters of a string, in order.
fn collect_chars(s: &str) -> (r: Vec<char>)
    ensures
        r@ == s@,
{
    let mut chars: Vec<char> = Vec::new();
    for c in it: s.chars()
        invariant
            chars@ == it.seq().take(it.index() as int),
    {
        chars.push(c);
        assert(chars@ =~= it.seq().take(it.index() + 1));
    }
    chars
}

/// The views of a list of words.
pub open spec fn words_view(v: Seq<Vec<char>>) -> Seq<Seq<char>> {
    v.map_values(|w: Vec<char>| w@)
}

/// The words of `s`, separated by white space.
fn split_words(s: &str) -> (r: Vec<Vec<char>>)
    ensures
        words_view(r@) == split_white_space(s@),
{
    let chars = collect_chars(s);
    let mut words: Vec<Vec<char>> = Vec::new();
    let mut cur: Vec<char> = Vec::new();
    let n = chars.len();
    let mut i: usize = 0;
    assert(words_view(words@) =~= Seq::<Seq<char>>::empty());
    assert(cur@ =~= Seq::<char>::empty());
    while i < n
        invariant
            n == chars@.len(),
            chars@ == s@,
            i <= n,
            split_from(chars@, i as int, cur@, words_view(words@)) == split_white_space(s@),
        decreases n - i,
    {
        let c = chars[i];
        let ghost w0 = words_view(words@);
        let ghost cur0 = cur@;
        if is_white_space_char(c) {
            if cur.len() > 0 {
                let done = cur;
                cur = Vec::new();
                words.push(done);
                assert(words_view(words@) =~= w0.push(done@));
            } else {
                assert(cur@ =~= Seq::<char>::empty());
            }
            assert(cur@ =~= Seq::<char>::empty());
        } else {
            cur.push(c);
        }
        assert(split_from(chars@, i as int, cur0, w0) == split_from(chars@, i + 1, cur@, words_view(words@)));
        i += 1;
    }
    if cur.len() > 0 {
        let ghost w = words_view(words@);
        words.push(cur);
        assert(words_view(words@) =~= w.push(cur@));
    }
    words
}

/// The piece a placement letter stands for.
pub open spec fn piece_of_char(c: char) -> Option<u8> {
    if c == 'p' {
        Some(spec_make(PieceType::Pawn, PieceColor::Black))
    } else if c == 'n' {
        Some(spec_make(PieceType::Knight, PieceColor::Black))
    } else if c == 'b' {
        Some(spec_make(PieceType::Bishop, PieceColor::Black))
    } else if c == 'r' {
        Some(spec_make(PieceType::Rook, PieceColor::Black))
    } else if c == 'q' {
        Some(spec_make(PieceType::Queen, PieceColor::Black))
    } else if c == 'k' {
        Some(spec_make(PieceType::King, PieceColor::Black))
    } else if c == 'P' {
        Some(spec_make(PieceType::Pawn, PieceColor::White))
    } else if c == 'N' {
        Some(spec_make(PieceType::Knight, PieceColor::White))
    } else if c == 'B' {
        Some(spec_make(PieceType::Bishop, PieceColor::White))
    } else if c == 'R' {
        Some(spec_make(PieceType::Rook, PieceColor::White))
    } else if c == 'Q' {
        Some(spec_make(PieceType::Queen, PieceColor::White))
    } else if c == 'K' {
        Some(spec_make(PieceType::King, PieceColor::White))
    } else {
        None
    }
}

/// The outcome of reading the placement `s` from position `i`, at file
/// `col` and rank `row`, onto `b`: `None` where the reading would overflow
/// a counter or put a piece off the board, else the board or the error.
pub open spec fn spec_placement(b: BoardModel, s: Seq<char>, i: int, col: int, row: int) -> Option<Result<BoardModel, FenError>>
    decreases s.len() - i,
{
    if i >= s.len() || i < 0 {
        Some(Ok(b))
    } else {
        let c = s[i];
        let index = col + row * 8;
        if index > 255 {
            None
        } else if piece_of_char(c) is Some {
            if index >= 64 {
                None
            } else if col > 8 || row > 7 {
                Some(Err(FenError::OutOfBounds))
            } else {
                spec_placement(m_put(b, piece_of_char(c).unwrap(), index), s, i + 1, col + 1, row)
            }
        } else if c == '/' {
            if row == 0 {
                Some(Err(FenError::OutOfBounds))
            } else {
                spec_placement(b, s, i + 1, 0, row - 1)
            }
        } else if '0' <= c <= '9' {
            let d = c as int - '0' as int;
            if col + d > 255 {
                None
            } else {
                spec_placement(b, s, i + 1, col + d, row)
            }
        } else {
            Some(Err(FenError::InvalidPiecePlacement))
        }
    }
}

/// The board as the reading of the placement `s` from position `i` leaves
/// it: the pieces placed up to the end or up to the first error. A piece
/// whose square lies past the eighth file is placed before the error.
pub open spec fn placement_board(b: BoardModel, s: Seq<char>, i: int, col: int, row: int) -> BoardModel
    decreases s.len() - i,
{
    if i >= s.len() || i < 0 {
        b
    } else {
        let c = s[i];
        let index = col + row * 8;
        if index > 255 {
            b
        } else if piece_of_char(c) is Some {
            if index >= 64 {
                b
            } else if col > 8 || row > 7 {
                m_put(b, piece_of_char(c).unwrap(), index)
            } else {
                placement_board(m_put(b, piece_of_char(c).unwrap(), index), s, i + 1, col + 1, row)
            }
        } else if c == '/' {
            if row == 0 {
                b
            } else {
                placement_board(b, s, i + 1, 0, row - 1)
            }
        } else if '0' <= c <= '9' {
            let d = c as int - '0' as int;
            if col + d > 255 {
                b
            } else {
                placement_board(b, s, i + 1, col + d, row)
            }
        } else {
            b
        }
    }
}

fn piece_for_char(c: char) -> (r: Option<u8>)
    ensures
        r == piece_of_char(c),
{
    match c {
        'p' => Some(make_piece(PieceType::Pawn, PieceColor::Black)),
        'n' => Some(make_piece(PieceType::Knight, PieceColor::Black)),
        'b' => Some(make_piece(PieceType::Bishop, PieceColor::Black)),
        'r' => Some(make_piece(PieceType::Rook, PieceColor::Black)),
        'q' => Some(make_piece(PieceType::Queen, PieceColor::Black)),
        'k' => Some(make_piece(PieceType::King, PieceColor::Black)),
        'P' => Some(make_piece(PieceType::Pawn, PieceColor::White)),
        'N' => Some(make_piece(PieceType::Knight, PieceColor::White)),
        'B' => Some(make_piece(PieceType::Bishop, PieceColor::White)),
        'R' => Some(make_piece(PieceType::Rook, PieceColor::White)),
        'Q' => Some(make_piece(PieceType::Queen, PieceColor::White)),
        'K' => Some(make_piece(PieceType::King, PieceColor::White)),
        _ => None,
    }
}

fn handle_piece_placement(board: &mut Board, fen_part: &Vec<char>) -> (r: Result<(), FenError>)
    requires
        spec_placement(old(board)@, fen_part@, 0, 0, 7) is Some,
    ensures
        match spec_placement(old(board)@, fen_part@, 0, 0, 7).unwrap() {
            Ok(m) => r is Ok && final(board)@ == m,
            Err(e) => r == Err::<(), FenError>(e),
        },
        final(board)@ == placement_board(old(board)@, fen_part@, 0, 0, 7),
{
    let mut col: u8 = 0;
    let mut row: u8 = 7;
    let n = fen_part.len();
    let mut i: usize = 0;
    let ghost target = spec_placement(old(board)@, fen_part@, 0, 0, 7);
    while i < n
        invariant
            n == fen_part@.len(),
            i <= n,
            row <= 7,
            spec_placement(board@, fen_part@, i as int, col as int, row as int) == target,
            target == spec_placement(old(board)@, fen_part@, 0, 0, 7),
            target is Some,
            placement_board(board@, fen_part@, i as int, col as int, row as int)
                == placement_board(old(board)@, fen_part@, 0, 0, 7),
        decreases n - i,
    {
        let c = fen_part[i];
        let index = col + row * 8;
        let piece = piece_for_char(c);
        assert(spec_placement(board@, fen_part@, i as int, col as int, row as int) == if piece_of_char(c) is Some {
            if index >= 64 {
                None
            } else if col > 8 || row > 7 {
                Some(Err(FenError::OutOfBounds))
            } else {
                spec_placement(m_put(board@, piece_of_char(c).unwrap(), index as int), fen_part@, i + 1, col + 1, row as int)
            }
        } else if c == '/' {
            if row == 0 {
                Some(Err(FenError::OutOfBounds))
            } else {
                spec_placement(board@, fen_part@, i + 1, 0, row - 1)
            }
        } else if '0' <= c <= '9' {
            let d = c as int - '0' as int;
            if col + d > 255 {
                None
            } else {
                spec_placement(board@, fen_part@, i + 1, col + d, row as int)
            }
        } else {
            Some(Err(FenError::InvalidPiecePlacement))
        });
        match piece {
            Some(p) => {
                proof {
                    crate::board::lemma_make(PieceType::Pawn, PieceColor::White);
                }
                assert(crate::piece::type_code(crate::piece::spec_get_type(p)) < 6);
                board.put_piece(p, index);
            },
            None => {
                if c == '/' {
                    if row == 0 {
                        return Err(FenError::OutOfBounds);
                    }
                    col = 0;
                    row -= 1;
                    i += 1;
                    continue ;
                } else if '0' <= c && c <= '9' {
                    let d = (c as u32 - '0' as u32) as u8;
                    col += d;
                    i += 1;
                    continue ;
                } else {
                    return Err(FenError::InvalidPiecePlacement);
                }
            },
        }
        if col > 8 || row > 7 {
            return Err(FenError::OutOfBounds);
        }
        col += 1;
        i += 1;
    }
    Ok(())
}

/// The outcome of reading the side to move.
pub open spec fn spec_turn(b: BoardModel, s: Seq<char>) -> Result<BoardModel, FenError> {
    if s.len() != 1 {
        Err(FenError::InvalidTurn)
    } else if s[0] == 'w' {
        Ok(BoardModel { turn: PieceColor::White, ..b })
    } else if s[0] == 'b' {
        Ok(BoardModel { turn: PieceColor::Black, ..b })
    } else {
        Err(FenError::InvalidTurn)
    }
}

fn handle_turn(board: &mut Board, fen_part: &Vec<char>) -> (r: Result<(), FenError>)
    ensures
        match spec_turn(old(board)@, fen_part@) {
            Ok(m) => r is Ok && final(board)@ == m,
            Err(e) => r == Err::<(), FenError>(e) && final(board)@ == old(board)@,
        },
{
    if fen_part.len() != 1 {
        return Err(FenError::InvalidTurn);
    }
    let c = fen_part[0];
    if c == 'w' {
        board.set_turn(PieceColor::White);
    } else if c == 'b' {
        board.set_turn(PieceColor::Black);
    } else {
        return Err(FenError::InvalidTurn);
    }
    Ok(())
}

/// The castling bit a letter stands for.
pub open spec fn right_of_char(c: char) -> Option<u8> {
    if c == 'K' {
        Some(0b1000u8)
    } else if c == 'Q' {
        Some(0b0100u8)
    } else if c == 'k' {
        Some(0b0010u8)
    } else if c == 'q' {
        Some(0b0001u8)
    } else {
        None
    }
}

/// The rights the letters `s[..i]` grant, or `None` when one of them is not a castling letter.
pub open spec fn rights_upto(s: Seq<char>, i: int) -> Option<u8>
    decreases i,
{
    if i <= 0 {
        Some(0u8)
    } else {
        match rights_upto(s, i - 1) {
            Some(acc) => match right_of_char(s[i - 1]) {
                Some(bit) => Some(acc | bit),
                None => None,
            },
            None => None,
        }
    }
}

/// The outcome of reading the castling rights.
pub open spec fn spec_rights(b: BoardModel, s: Seq<char>) -> Result<BoardModel, FenError> {
    if s.len() > 4 {
        Err(FenError::InvalidRights)
    } else if s =~= seq!['-'] {
        Ok(BoardModel { rights: CastlingRights { bits: 0 }, ..b })
    } else {
        match rights_upto(s, s.len() as int) {
            Some(bits) => Ok(BoardModel { rights: CastlingRights { bits }, ..b }),
            None => Err(FenError::InvalidRights),
        }
    }
}

fn handle_rights(board: &mut Board, fen_part: &Vec<char>) -> (r: Result<(), FenError>)
    ensures
        match spec_rights(old(board)@, fen_part@) {
            Ok(m) => r is Ok && final(board)@ == m,
            Err(e) => r == Err::<(), FenError>(e) && final(board)@ == old(board)@,
        },
{
    if fen_part.len() > 4 {
        return Err(FenError::InvalidRights);
    }
    if fen_part.len() == 1 && fen_part[0] == '-' {
        assert(fen_part@ =~= seq!['-']);
        board.set_rights(CastlingRights::empty());
        return Ok(());
    }
    assert(!(fen_part@ =~= seq!['-']));
    let mut rights = CastlingRights::empty();
    let n = fen_part.len();
    let mut i: usize = 0;
    while i < n
        invariant
            n == fen_part@.len(),
            i <= n,
            rights_upto(fen_part@, i as int) == Some(rights.bits),
            n <= 4,
            !(fen_part@ =~= seq!['-']),
            board@ == old(board)@,
        decreases n - i,
    {
        let c = fen_part[i];
        if c == 'K' {
            rights.insert(CastlingRights::white_king());
        } else if c == 'Q' {
            rights.insert(CastlingRights::white_queen());
        } else if c == 'k' {
            rights.insert(CastlingRights::black_king());
        } else if c == 'q' {
            rights.insert(CastlingRights::black_queen());
        } else {
            proof {
                assert(right_of_char(fen_part@[i as int]) is None);
                assert(rights_upto(fen_part@, i as int + 1) is None);
                lemma_rights_none(fen_part@, i as int + 1, n as int);
            }
            return Err(FenError::InvalidRights);
        }
        i += 1;
    }
    board.set_rights(rights);
    Ok(())
}

/// The castling bits of the four rights: White king side `0b1000`, White
/// queen side `0b0100`, Black king side `0b0010`, Black queen side `0b0001`,
/// the bits the castle generation tests.
pub open spec fn rights_bits(wk: bool, wq: bool, bk: bool, bq: bool) -> u8 {
    (if wk { 0b1000u8 } else { 0u8 }) | (if wq { 0b0100u8 } else { 0u8 }) | (if bk { 0b0010u8 } else {
        0u8
    }) | (if bq { 0b0001u8 } else { 0u8 })
}

/// The rights a castling field names: `K` White king side, `Q` White queen
/// side, `k` Black king side, `q` Black queen side.
pub open spec fn named_rights(s: Seq<char>) -> u8 {
    rights_bits(s.contains('K'), s.contains('Q'), s.contains('k'), s.contains('q'))
}

/// A castling letter: `K`, `Q`, `k` or `q`.
pub open spec fn is_castle_letter(c: char) -> bool {
    c == 'K' || c == 'Q' || c == 'k' || c == 'q'
}

proof fn lemma_rights_bits_add(wk: bool, wq: bool, bk: bool, bq: bool)
    by (bit_vector)
    ensures
        rights_bits(wk, wq, bk, bq) | 0b1000u8 == rights_bits(true, wq, bk, bq),
        rights_bits(wk, wq, bk, bq) | 0b0100u8 == rights_bits(wk, true, bk, bq),
        rights_bits(wk, wq, bk, bq) | 0b0010u8 == rights_bits(wk, wq, true, bq),
        rights_bits(wk, wq, bk, bq) | 0b0001u8 == rights_bits(wk, wq, bk, true),
        rights_bits(false, false, false, false) == 0u8,
{
}

proof fn lemma_contains_push(t: Seq<char>, x: char, c: char)
    ensures
        t.push(x).contains(c) == (t.contains(c) || x == c),
{
    if t.contains(c) {
        let i = choose|i: int| 0 <= i < t.len() && t[i] == c;
        assert(t.push(x)[i] == c);
    }
    if x == c {
        assert(t.push(x)[t.len() as int] == c);
    }
    if t.push(x).contains(c) {
        let i = choose|i: int| 0 <= i < t.len() + 1 && t.push(x)[i] == c;
        if i < t.len() {
            assert(t[i] == c);
        }
    }
}

proof fn lemma_rights_upto_named(s: Seq<char>, i: int)
    requires
        0 <= i <= s.len(),
        forall|j: int| 0 <= j < i ==> is_castle_letter(#[trigger] s[j]),
    ensures
        rights_upto(s, i) == Some(named_rights(s.take(i))),
    decreases i,
{
    if i == 0 {
        assert(s.take(0) =~= Seq::<char>::empty());
        lemma_rights_bits_add(false, false, false, false);
    } else {
        lemma_rights_upto_named(s, i - 1);
        let t = s.take(i - 1);
        let x = s[i - 1];
        assert(s.take(i) =~= t.push(x));
        lemma_contains_push(t, x, 'K');
        lemma_contains_push(t, x, 'Q');
        lemma_contains_push(t, x, 'k');
        lemma_contains_push(t, x, 'q');
        lemma_rights_bits_add(t.contains('K'), t.contains('Q'), t.contains('k'), t.contains('q'));
        assert(is_castle_letter(s[i - 1]));
    }
}

/// Reading a castling field of one to four castling letters grants exactly
/// the rights its letters name, each letter its own right, and changes
/// nothing else; `-` grants none.
pub proof fn lemma_rights_named(b: BoardModel, s: Seq<char>)
    requires
        1 <= s.len() <= 4,
        forall|j: int| 0 <= j < s.len() ==> is_castle_letter(#[trigger] s[j]),
    ensures
        spec_rights(b, s) == Ok::<BoardModel, FenError>(
            BoardModel { rights: CastlingRights { bits: named_rights(s) }, ..b },
        ),
        spec_rights(b, seq!['-']) == Ok::<BoardModel, FenError>(
            BoardModel { rights: CastlingRights { bits: 0 }, ..b },
        ),
{
    lemma_rights_upto_named(s, s.len() as int);
    assert(s.take(s.len() as int) =~= s);
    assert(!is_castle_letter('-'));
    assert(!(s =~= seq!['-'])) by {
        if s =~= seq!['-'] {
            assert(is_castle_letter(s[0]));
        }
    }
}

proof fn lemma_rights_none(s: Seq<char>, i: int, j: int)
    requires
        0 < i <= j,
        rights_upto(s, i) is None,
    ensures
        rights_upto(s, j) is None,
    decreases j - i,
{
    if i < j {
        lemma_rights_none(s, i, j - 1);
    }
}

/// The square a file letter `a`..`h` and a rank digit `1`..`8` name,
/// counted from a1 up along the ranks.
pub open spec fn square_of(file: char, rank: char) -> int {
    (file as int - 'a' as int) + 8 * (rank as int - '1' as int)
}

/// The outcome of reading the en passant square: `-` for none, or a file
/// letter and a rank digit, which set the bit of that square.
pub open spec fn spec_en_passant(b: BoardModel, s: Seq<char>) -> Result<BoardModel, FenError> {
    if s =~= seq!['-'] {
        Ok(BoardModel { en_passant: 0, ..b })
    } else if !(s.len() == 2 && s[0] < '\u{80}' && s[1] < '\u{80}') {
        Err(FenError::InvalidEnPassant)
    } else if !('a' <= s[0] <= 'h') || !('1' <= s[1] <= '8') {
        Err(FenError::InvalidEnPassant)
    } else {
        Ok(BoardModel { en_passant: (1u64 << (square_of(s[0], s[1]) as u64)), ..b })
    }
}

fn handle_en_passant(board: &mut Board, fen_part: &Vec<char>) -> (r: Result<(), FenError>)
    ensures
        match spec_en_passant(old(board)@, fen_part@) {
            Ok(m) => r is Ok && final(board)@ == m,
            Err(e) => r == Err::<(), FenError>(e) && final(board)@ == old(board)@,
        },
{
    if fen_part.len() == 1 && fen_part[0] == '-' {
        assert(fen_part@ =~= seq!['-']);
        board.set_en_passant(0);
        return Ok(());
    }
    assert(!(fen_part@ =~= seq!['-']));
    if !(fen_part.len() == 2 && fen_part[0] < '\u{80}' && fen_part[1] < '\u{80}') {
        return Err(FenError::InvalidEnPassant);
    }
    let file_char = fen_part[0];
    let rank_char = fen_part[1];
    if !('a' <= file_char && file_char <= 'h') || !('1' <= rank_char && rank_char <= '8') {
        return Err(FenError::InvalidEnPassant);
    }
    let file = (file_char as u32 - 'a' as u32) as u8;
    let rank = (rank_char as u32 - '1' as u32) as u8;
    let index = file + (rank * 8);
    assert(index as int == square_of(file_char, rank_char));
    board.set_en_passant(1u64 << index);
    Ok(())
}

fn handle_half_move_clock(board: &mut Board, fen_part: &Vec<char>) -> (r: Result<(), FenError>)
    ensures
        r is Ok,
        final(board)@ == old(board)@,
{
    Ok(())
}

fn handle_full_move_clock(board: &mut Board, fen_part: &Vec<char>) -> (r: Result<(), FenError>)
    ensures
        r is Ok,
        final(board)@ == old(board)@,
{
    Ok(())
}

/// The outcome of reading a FEN record: `None` where the reading would
/// panic, else the board or the first error met. The half-move and
/// full-move clocks are read but not used.
pub open spec fn spec_load_fen(s: Seq<char>) -> Option<Result<BoardModel, FenError>> {
    let parts = split_white_space(s);
    if parts.len() > 6 {
        Some(Err(FenError::InvalidPartCount))
    } else if parts.len() == 0 {
        None
    } else {
        match spec_placement(m_empty(), parts[0], 0, 0, 7) {
            None => None,
            Some(Err(e)) => Some(Err(e)),
            Some(Ok(b1)) => {
                let r2 = if parts.len() >= 2 {
                    spec_turn(b1, parts[1])
                } else {
                    Ok(b1)
                };
                match r2 {
                    Err(e) => Some(Err(e)),
                    Ok(b2) => {
                        let r3 = if parts.len() >= 3 {
                            spec_rights(b2, parts[2])
                        } else {
                            Ok(b2)
                        };
                        match r3 {
                            Err(e) => Some(Err(e)),
                            Ok(b3) => if parts.len() >= 4 {
                                Some(spec_en_passant(b3, parts[3]))
                            } else {
                                Some(Ok(b3))
                            },
                        }
                    },
                }
            },
        }
    }
}

/// The reading of the placement `s` from position `i` runs to its end or to
/// an error without overflowing a counter or putting a piece off the board.
pub open spec fn placement_runs(s: Seq<char>, i: int, col: int, row: int) -> bool
    decreases s.len() - i,
{
    if i >= s.len() || i < 0 {
        true
    } else {
        let c = s[i];
        let index = col + row * 8;
        if index > 255 {
            false
        } else if piece_of_char(c) is Some {
            if index >= 64 {
                false
            } else if col > 8 || row > 7 {
                true
            } else {
                placement_runs(s, i + 1, col + 1, row)
            }
        } else if c == '/' {
            row == 0 || placement_runs(s, i + 1, 0, row - 1)
        } else if '0' <= c <= '9' {
            let d = c as int - '0' as int;
            col + d <= 255 && placement_runs(s, i + 1, col + d, row)
        } else {
            true
        }
    }
}

proof fn lemma_placement_runs(b: BoardModel, s: Seq<char>, i: int, col: int, row: int)
    ensures
        (spec_placement(b, s, i, col, row) is Some) == placement_runs(s, i, col, row),
    decreases s.len() - i,
{
    if 0 <= i < s.len() {
        let c = s[i];
        let index = col + row * 8;
        if piece_of_char(c) is Some {
            lemma_placement_runs(m_put(b, piece_of_char(c).unwrap(), index), s, i + 1, col + 1, row);
        } else if c == '/' {
            lemma_placement_runs(b, s, i + 1, 0, row - 1);
        } else if '0' <= c <= '9' {
            lemma_placement_runs(b, s, i + 1, col + (c as int - '0' as int), row);
        }
    }
}

/// Whether the placement `s` can be read without overflowing a counter or
/// putting a piece off the board.
fn placement_can_run(s: &Vec<char>) -> (r: bool)
    ensures
        r == placement_runs(s@, 0, 0, 7),
{
    let mut col: u32 = 0;
    let mut row: u32 = 7;
    let n = s.len();
    let mut i: usize = 0;
    while i < n
        invariant
            n == s@.len(),
            i <= n,
            row <= 7,
            col <= 255,
            placement_runs(s@, i as int, col as int, row as int) == placement_runs(s@, 0, 0, 7),
        decreases n - i,
    {
        let c = s[i];
        let index = col + row * 8;
        if index > 255 {
            return false;
        }
        if piece_for_char(c).is_some() {
            if index >= 64 {
                return false;
            }
            if col > 8 || row > 7 {
                return true;
            }
            col += 1;
        } else if c == '/' {
            if row == 0 {
                return true;
            }
            col = 0;
            row -= 1;
        } else if '0' <= c && c <= '9' {
            let d = c as u32 - '0' as u32;
            if col + d > 255 {
                return false;
            }
            col += d;
        } else {
            return true;
        }
        i += 1;
    }
    true
}

/// Whether `load_fen` can read `fen` without a panic: the record has a
/// placement, and reading it overflows no counter and puts no piece off the board.
pub fn fen_loads(fen: &str) -> (r: bool)
    ensures
        r == (spec_load_fen(fen@) is Some),
{
    let parts = split_words(fen);
    proof {
        assert(words_view(parts@).len() == parts@.len());
        assert(forall|i: int| 0 <= i < parts@.len() ==> #[trigger] words_view(parts@)[i] == parts@[i]@);
    }
    if parts.len() > 6 {
        return true;
    }
    if parts.len() == 0 {
        return false;
    }
    proof {
        lemma_placement_runs(m_empty(), parts@[0]@, 0, 0, 7);
    }
    placement_can_run(&parts[0])
}

/// Reads a position in Forsyth-Edwards notation from any text: `None` where
/// `load_fen` would panic, else what `load_fen` gives.
pub fn try_load_fen(fen: &str) -> (r: Option<Result<Board, FenError>>)
    ensures
        match spec_load_fen(fen@) {
            None => r is None,
            Some(Ok(m)) => r matches Some(Ok(b)) && b@ == m,
            Some(Err(e)) => r == Some(Err::<Board, FenError>(e)),
        },
{
    if fen_loads(fen) {
        Some(load_fen(fen))
    } else {
        None
    }
}

/// Every piece letter that the reading of the placement `s` from position
/// `i` meets before it stops falls on one of the eight files: no rank
/// describes more than eight squares up to its last piece.
pub open spec fn ranks_fit(s: Seq<char>, i: int, col: int, row: int) -> bool
    decreases s.len() - i,
{
    if i >= s.len() || i < 0 {
        true
    } else {
        let c = s[i];
        if piece_of_char(c) is Some {
            col < 8 && ranks_fit(s, i + 1, col + 1, row)
        } else if c == '/' {
            row == 0 || ranks_fit(s, i + 1, 0, row - 1)
        } else if '0' <= c <= '9' {
            ranks_fit(s, i + 1, col + (c as int - '0' as int), row)
        } else {
            true
        }
    }
}

/// The squares the reading at file `col` and rank `row` has not reached yet are empty.
pub open spec fn unreached_empty(b: BoardModel, col: int, row: int) -> bool {
    forall|q: int|
        0 <= q < 64 && (q / 8 < row || (q / 8 == row && q % 8 >= col)) ==> #[trigger] b.mailbox[q] == 7
}

proof fn lemma_placement_wf(b: BoardModel, s: Seq<char>, i: int, col: int, row: int)
    requires
        m_wf(b),
        0 <= row <= 7,
        0 <= col,
        unreached_empty(b, col, row),
        ranks_fit(s, i, col, row),
        spec_placement(b, s, i, col, row) matches Some(Ok(_)),
    ensures
        m_wf(spec_placement(b, s, i, col, row).unwrap()->Ok_0),
    decreases s.len() - i,
{
    if i >= s.len() || i < 0 {
    } else {
        let c = s[i];
        let index = col + row * 8;
        if index > 255 {
        } else if piece_of_char(c) is Some {
            let p = piece_of_char(c).unwrap();
            assert(index / 8 == row && index % 8 == col) by (nonlinear_arith)
                requires
                    index == col + row * 8,
                    0 <= col < 8,
            ;
            assert(b.mailbox[index] == 7);
            assert(crate::board::piece_ok(p));
            lemma_put_wf(b, p, index);
            let b2 = m_put(b, p, index);
            assert(unreached_empty(b2, col + 1, row));
            lemma_placement_wf(b2, s, i + 1, col + 1, row);
        } else if c == '/' {
            if row > 0 {
                lemma_placement_wf(b, s, i + 1, 0, row - 1);
            }
        } else if '0' <= c <= '9' {
            let d = c as int - '0' as int;
            if col + d <= 255 {
                lemma_placement_wf(b, s, i + 1, col + d, row);
            }
        }
    }
}

/// A position read from FEN is consistent (every square holds a plain piece
/// or nothing, and each bitboard holds exactly the squares of its colour or
/// type) when every piece of its placement falls on one of the eight files.
pub proof fn lemma_load_fen_wf(s: Seq<char>)
    requires
        spec_load_fen(s) matches Some(Ok(_)),
        ranks_fit(split_white_space(s)[0], 0, 0, 7),
    ensures
        m_wf(spec_load_fen(s).unwrap()->Ok_0),
{
    let parts = split_white_space(s);
    lemma_empty_wf();
    assert(unreached_empty(m_empty(), 0, 7));
    lemma_placement_wf(m_empty(), parts[0], 0, 0, 7);
}

/// Reads a position in Forsyth-Edwards notation: piece placement, side to
/// move, castling rights and en passant square, each optional but the first.
/// Text that may make the reading panic goes through `try_load_fen`.
pub fn load_fen(fen: &str) -> (r: Result<Board, FenError>)
    requires
        spec_load_fen(fen@) is Some,
    ensures
        match spec_load_fen(fen@).unwrap() {
            Ok(m) => r is Ok && r.unwrap()@ == m,
            Err(e) => r is Err && r->Err_0 == e,
        },
{
    let mut board: Board = Board::new();
    let parts = split_words(fen);
    proof {
        assert(words_view(parts@).len() == parts@.len());
        assert(forall|i: int| 0 <= i < parts@.len() ==> #[trigger] words_view(parts@)[i] == parts@[i]@);
    }
    if parts.len() > 6 {
        return Err(FenError::InvalidPartCount);
    }
    match handle_piece_placement(&mut board, &parts[0]) {
        Ok(()) => {},
        Err(e) => {
            return Err(e);
        },
    }
    if parts.len() >= 2 {
        match handle_turn(&mut board, &parts[1]) {
            Ok(()) => {},
            Err(e) => {
                return Err(e);
            },
        }
    }
    if parts.len() >= 3 {
        match handle_rights(&mut board, &parts[2]) {
            Ok(()) => {},
            Err(e) => {
                return Err(e);
            },
        }
    }
    if parts.len() >= 4 {
        match handle_en_passant(&mut board, &parts[3]) {
            Ok(()) => {},
            Err(e) => {
                return Err(e);
            },
        }
    }
    if parts.len() >= 5 {
        match handle_half_move_clock(&mut board, &parts[4]) {
            Ok(()) => {},
            Err(e) => {
                return Err(e);
            },
        }
    }
    if parts.len() == 6 {
        match handle_full_move_clock(&mut board, &parts[5]) {
            Ok(()) => {},
            Err(e) => {
                return Err(e);
            },
        }
    }
    Ok(board)
}

} // verus!
