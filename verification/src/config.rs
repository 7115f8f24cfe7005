use vstd::prelude::*;

verus! {

/// The sets of piece pictures the board can be drawn with.
#[derive(Clone, Copy)]
pub enum PieceSet {
    MaxArt,
    MaxArtV2,
    ChessDotCom,
    Lichess,
}

} // verus!
