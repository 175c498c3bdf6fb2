//! Zobrist keys.
//!
//! There are 12 times 64 keys for a piece on a square, 16 for the castling
//! rights, 8 for the file of the en-passant square and 1 for Black to move.
//! Key number `i` is a fixed mixing of `i`, so that the keys need no table.

use vstd::prelude::*;
use crate::square::BBPiece;

verus! {

/// The mixing function behind all keys.
pub open spec fn spec_mix(x: u64) -> u64 {
    let a = x.wrapping_add(0x9E37_79B9_7F4A_7C15u64);
    let b = (a ^ (a >> 30)).wrapping_mul(0xBF58_476D_1CE4_E5B9u64);
    let c = (b ^ (b >> 27)).wrapping_mul(0x94D0_49BB_1331_11EBu64);
    c ^ (c >> 31)
}

/// The mixing function behind all keys.
pub fn mix(x: u64) -> (r: u64)
    ensures
        r == spec_mix(x),
{
    let a: u64 = x.wrapping_add(0x9E37_79B9_7F4A_7C15u64);
    let b: u64 = (a ^ (a >> 30)).wrapping_mul(0xBF58_476D_1CE4_E5B9u64);
    let c: u64 = (b ^ (b >> 27)).wrapping_mul(0x94D0_49BB_1331_11EBu64);
    c ^ (c >> 31)
}

/// The row of the key table that belongs to a piece kind of a colour:
/// White's pawn, knight, bishop, rook, queen, king, then Black's.
pub open spec fn spec_piece_index(kind: BBPiece, white: bool) -> int {
    kind.spec_idx() - 2 + if white {
        0int
    } else {
        6int
    }
}

/// The key of a piece on a square.
pub open spec fn spec_piece_key(kind: BBPiece, white: bool, sq: int) -> u64 {
    spec_mix((spec_piece_index(kind, white) * 64 + sq) as u64)
}

/// The key of a set of castling rights, by its mask `0..16`.
pub open spec fn spec_castling_key(mask: int) -> u64 {
    spec_mix((768 + mask) as u64)
}

/// The key of an en-passant file.
pub open spec fn spec_ep_key(file: int) -> u64 {
    spec_mix((784 + file) as u64)
}

/// The key of Black to move.
pub open spec fn spec_side_key() -> u64 {
    spec_mix(792)
}

/// The row of the key table for `piece` of colour `color`.
pub fn zobrist_piece_index(piece: BBPiece, color: BBPiece) -> (r: usize)
    requires
        piece.is_kind(),
        color.is_color(),
    ensures
        r == spec_piece_index(piece, color == BBPiece::White),
        r < 12,
{
    let piece_idx: usize = piece.idx() - 2;
    let color_idx: usize = color.idx();
    piece_idx + 6 * color_idx
}

/// The key of a piece on a square.
pub fn piece_key(kind: BBPiece, white: bool, sq: usize) -> (r: u64)
    requires
        kind.is_kind(),
        sq < 64,
    ensures
        r == spec_piece_key(kind, white, sq as int),
{
    let row: usize = zobrist_piece_index(kind, BBPiece::of_side(white));
    mix((row * 64 + sq) as u64)
}

/// The key of a set of castling rights.
pub fn castling_key(mask: usize) -> (r: u64)
    requires
        mask < 16,
    ensures
        r == spec_castling_key(mask as int),
{
    mix((768 + mask) as u64)
}

/// The key of the file of an en-passant square.
pub fn ep_key(file: usize) -> (r: u64)
    requires
        file < 8,
    ensures
        r == spec_ep_key(file as int),
{
    mix((784 + file) as u64)
}

/// The key of Black to move.
pub fn side_key() -> (r: u64)
    ensures
        r == spec_side_key(),
{
    mix(792)
}

/// The identities of exclusive-or that incremental hashing rests on.
pub proof fn lemma_xor_cancel(h: u64, a: u64, b: u64)
    by (bit_vector)
    ensures
        (h ^ a) ^ a == h,
        h ^ 0 == h,
        0 ^ h == h,
        (h ^ a) ^ b == (h ^ b) ^ a,
        (h ^ a) ^ b == h ^ (a ^ b),
        h ^ a == a ^ h,
{
}

} // verus!
