use vstd::prelude::*;

verus! {

/// A piece is packed in one byte: bits 0..3 hold its type, bit 3 its colour.
pub type Piece = u8;

#[derive(Clone, Copy, Debug, PartialEq, Eq, Structural)]
pub enum PieceColor {
    White,
    Black,
}

#[derive(Clone, Copy, Debug, PartialEq, Eq, Structural)]
pub enum PieceType {
    Pawn,
    Knight,
    Bishop,
    Rook,
    Queen,
    King,
    AllPieces,
    NoPiece,
}

/// The number that encodes a colour (White 0, Black 1).
pub open spec fn color_code(c: PieceColor) -> u8 {
    match c {
        PieceColor::White => 0,
        PieceColor::Black => 1,
    }
}

/// The number that encodes a piece type (Pawn 0 up to NoPiece 7).
pub open spec fn type_code(t: PieceType) -> u8 {
    match t {
        PieceType::Pawn => 0,
        PieceType::Knight => 1,
        PieceType::Bishop => 2,
        PieceType::Rook => 3,
        PieceType::Queen => 4,
        PieceType::King => 5,
        PieceType::AllPieces => 6,
        PieceType::NoPiece => 7,
    }
}

/// The piece type that a code in 0..8 stands for.
pub open spec fn type_of_code(code: u8) -> PieceType {
    if code == 0 {
        PieceType::Pawn
    } else if code == 1 {
        PieceType::Knight
    } else if code == 2 {
        PieceType::Bishop
    } else if code == 3 {
        PieceType::Rook
    } else if code == 4 {
        PieceType::Queen
    } else if code == 5 {
        PieceType::King
    } else if code == 6 {
        PieceType::AllPieces
    } else {
        PieceType::NoPiece
    }
}

/// The type of a piece: its low three bits.
pub open spec fn spec_get_type(p: Piece) -> PieceType {
    type_of_code(p % 8)
}

/// The colour of a piece: bit 3.
pub open spec fn spec_get_color(p: Piece) -> PieceColor {
    if (p / 8) % 2 == 0 {
        PieceColor::White
    } else {
        PieceColor::Black
    }
}

/// The byte of a piece of the given type and colour.
pub open spec fn spec_make(t: PieceType, c: PieceColor) -> Piece {
    (color_code(c) * 8 + type_code(t)) as u8
}

/// The byte on an empty square.
pub const NO_PIECE: Piece = 7;


pub open spec fn spec_flip(c: PieceColor) -> PieceColor {
    match c {
        PieceColor::White => PieceColor::Black,
        PieceColor::Black => PieceColor::White,
    }
}

impl PieceColor {
    /// The other colour.
    pub fn flip(self) -> (r: Self)
        ensures
            r == spec_flip(self),
    {
        if self == PieceColor::White {
            PieceColor::Black
        } else {
            PieceColor::White
        }
    }
}

pub fn color_index(c: PieceColor) -> (r: usize)
    ensures
        r == color_code(c),
{
    match c {
        PieceColor::White => 0,
        PieceColor::Black => 1,
    }
}

pub fn type_index(t: PieceType) -> (r: usize)
    ensures
        r == type_code(t),
{
    match t {
        PieceType::Pawn => 0,
        PieceType::Knight => 1,
        PieceType::Bishop => 2,
        PieceType::Rook => 3,
        PieceType::Queen => 4,
        PieceType::King => 5,
        PieceType::AllPieces => 6,
        PieceType::NoPiece => 7,
    }
}

pub trait PieceTrait: Sized {
    const NO_PIECE: Piece;

    fn get_type(self) -> PieceType;

    fn get_color(self) -> PieceColor;

    fn make(piece_type: PieceType, piece_color: PieceColor) -> Self;
}

impl PieceTrait for Piece {
    const NO_PIECE: Piece = NO_PIECE;

    fn get_type(self) -> (r: PieceType)
        ensures
            r == spec_get_type(self),
    {
        get_type(self)
    }

    fn get_color(self) -> (r: PieceColor)
        ensures
            r == spec_get_color(self),
    {
        get_color(self)
    }

    fn make(piece_type: PieceType, piece_color: PieceColor) -> (r: Self)
        ensures
            r == spec_make(piece_type, piece_color),
    {
        make_piece(piece_type, piece_color)
    }
}

pub fn get_type(p: Piece) -> (r: PieceType)
    ensures
        r == spec_get_type(p),
{
    proof {
        lemma_u8_piece_fields(p);
    }
    let code = p & 0b111;
    match code {
        0 => PieceType::Pawn,
        1 => PieceType::Knight,
        2 => PieceType::Bishop,
        3 => PieceType::Rook,
        4 => PieceType::Queen,
        5 => PieceType::King,
        6 => PieceType::AllPieces,
        _ => PieceType::NoPiece,
    }
}

pub fn get_color(p: Piece) -> (r: PieceColor)
    ensures
        r == spec_get_color(p),
{
    proof {
        lemma_u8_piece_fields(p);
    }
    if p & 0b1000 == 0 {
        PieceColor::White
    } else {
        PieceColor::Black
    }
}

pub fn make_piece(piece_type: PieceType, piece_color: PieceColor) -> (r: Piece)
    ensures
        r == spec_make(piece_type, piece_color),
{
    let c = color_index(piece_color) as u8;
    let t = type_index(piece_type) as u8;
    proof {
        lemma_u8_piece_fields(c);
    }
    (c << 3) + t
}

/// Field extraction on a piece byte, as arithmetic.
pub proof fn lemma_u8_piece_fields(p: u8)
    by (bit_vector)
    ensures
        p & 0b111 == p % 8,
        (p & 0b1000 == 0) == ((p / 8) % 2 == 0),
        p <= 1 ==> p << 3 == p * 8,
{
}


} // verus!
