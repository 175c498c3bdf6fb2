//! Reading a position from Forsyth-Edwards notation.
//!
//! A record has six fields separated by white space: the piece placement
//! from the eighth rank down, the side to move, the castling rights, the
//! en-passant square, the halfmove clock and the fullmove number. The two
//! clocks may be missing.

use vstd::prelude::*;
use vstd::string::StringSliceAdditionalSpecFns;
use crate::square::{
    BBPiece,
    Color,
    spec_sq_to_idx,
    square_from_bytes,
    spec_file_byte,
    spec_rank_byte,
    file_byte,
    rank_byte,
    push_char,
};
use crate::board::Board;
use crate::position::{Position, Piece, hash_below, state_hash};

verus! {

/// Whether a byte is white space.
pub open spec fn is_space(b: u8) -> bool {
    b == 32 || (9 <= b <= 13)
}

/// The first position at or after `i` that holds no white space.
pub open spec fn skip_spaces(b: Seq<u8>, i: int) -> int
    decreases b.len() - i,
{
    if 0 <= i < b.len() && is_space(b[i]) {
        skip_spaces(b, i + 1)
    } else {
        i
    }
}

/// The first position at or after `i` that holds white space, or the end.
pub open spec fn skip_field(b: Seq<u8>, i: int) -> int
    decreases b.len() - i,
{
    if 0 <= i < b.len() && !is_space(b[i]) {
        skip_field(b, i + 1)
    } else {
        i
    }
}

/// Where field number `k` begins.
pub open spec fn field_start(b: Seq<u8>, k: nat) -> int
    decreases k,
{
    if k == 0 {
        skip_spaces(b, 0)
    } else {
        skip_spaces(b, skip_field(b, field_start(b, (k - 1) as nat)))
    }
}

/// Field number `k`; empty when there are not so many fields.
pub open spec fn field(b: Seq<u8>, k: nat) -> Seq<u8> {
    b.subrange(field_start(b, k), skip_field(b, field_start(b, k)))
}

/// The piece that a letter of the placement field stands for.
pub open spec fn piece_of_byte(c: u8) -> Option<Piece> {
    if c == 80 {
        Some(Piece { white: true, kind: BBPiece::Pawn })
    } else if c == 78 {
        Some(Piece { white: true, kind: BBPiece::Knight })
    } else if c == 66 {
        Some(Piece { white: true, kind: BBPiece::Bishop })
    } else if c == 82 {
        Some(Piece { white: true, kind: BBPiece::Rook })
    } else if c == 81 {
        Some(Piece { white: true, kind: BBPiece::Queen })
    } else if c == 75 {
        Some(Piece { white: true, kind: BBPiece::King })
    } else if c == 112 {
        Some(Piece { white: false, kind: BBPiece::Pawn })
    } else if c == 110 {
        Some(Piece { white: false, kind: BBPiece::Knight })
    } else if c == 98 {
        Some(Piece { white: false, kind: BBPiece::Bishop })
    } else if c == 114 {
        Some(Piece { white: false, kind: BBPiece::Rook })
    } else if c == 113 {
        Some(Piece { white: false, kind: BBPiece::Queen })
    } else if c == 107 {
        Some(Piece { white: false, kind: BBPiece::King })
    } else {
        None
    }
}

/// The piece that a letter of the placement field stands for.
pub fn byte_to_piece(c: u8) -> (r: Option<Piece>)
    ensures
        r == piece_of_byte(c),
        r matches Some(p) ==> p.kind.is_kind(),
{
    if c == 80 {
        Some(Piece { white: true, kind: BBPiece::Pawn })
    } else if c == 78 {
        Some(Piece { white: true, kind: BBPiece::Knight })
    } else if c == 66 {
        Some(Piece { white: true, kind: BBPiece::Bishop })
    } else if c == 82 {
        Some(Piece { white: true, kind: BBPiece::Rook })
    } else if c == 81 {
        Some(Piece { white: true, kind: BBPiece::Queen })
    } else if c == 75 {
        Some(Piece { white: true, kind: BBPiece::King })
    } else if c == 112 {
        Some(Piece { white: false, kind: BBPiece::Pawn })
    } else if c == 110 {
        Some(Piece { white: false, kind: BBPiece::Knight })
    } else if c == 98 {
        Some(Piece { white: false, kind: BBPiece::Bishop })
    } else if c == 114 {
        Some(Piece { white: false, kind: BBPiece::Rook })
    } else if c == 113 {
        Some(Piece { white: false, kind: BBPiece::Queen })
    } else if c == 107 {
        Some(Piece { white: false, kind: BBPiece::King })
    } else {
        None
    }
}

/// How far the placement field has been read: the squares filled so far
/// and the rank and file where the next piece goes.
pub struct Placement {
    pub squares: Seq<Option<Piece>>,
    pub rank: int,
    pub file: int,
}

/// The placement after one more byte, or nothing when the byte cannot
/// follow: a piece or a run of empty squares that does not fit into the
/// rank, a slash before the rank is full or after the first rank, or a
/// byte that is none of these.
pub open spec fn place_step(st: Placement, c: u8) -> Option<Placement> {
    if c == 47 {
        if st.file == 8 && st.rank > 0 {
            Some(Placement { squares: st.squares, rank: st.rank - 1, file: 0 })
        } else {
            None
        }
    } else if 49 <= c <= 56 {
        if st.file + (c - 48) <= 8 {
            Some(Placement { squares: st.squares, rank: st.rank, file: st.file + (c - 48) })
        } else {
            None
        }
    } else {
        match piece_of_byte(c) {
            Some(pc) => if st.file < 8 {
                Some(
                    Placement {
                        squares: st.squares.update(st.rank * 8 + st.file, Some(pc)),
                        rank: st.rank,
                        file: st.file + 1,
                    },
                )
            } else {
                None
            },
            None => None,
        }
    }
}

/// The placement after the first `n` bytes of the field.
pub open spec fn place_upto(f: Seq<u8>, n: int) -> Option<Placement>
    decreases n,
{
    if n <= 0 {
        Some(Placement { squares: Seq::new(64, |s: int| None::<Piece>), rank: 7, file: 0 })
    } else {
        match place_upto(f, n - 1) {
            Some(st) => place_step(st, f[n - 1]),
            None => None,
        }
    }
}

/// The squares that a placement field describes, if it describes eight
/// full ranks.
pub open spec fn spec_placement(f: Seq<u8>) -> Option<Seq<Option<Piece>>> {
    match place_upto(f, f.len() as int) {
        Some(st) => if st.rank == 0 && st.file == 8 {
            Some(st.squares)
        } else {
            None
        },
        None => None,
    }
}

/// A field that went wrong stays wrong.
pub proof fn lemma_place_fails(f: Seq<u8>, k: int, n: int)
    requires
        0 <= k <= n,
        place_upto(f, k) is None,
    ensures
        place_upto(f, n) is None,
    decreases n - k,
{
    if k < n {
        lemma_place_fails(f, k, n - 1);
    }
}

/// The value of the first `n` bytes read as a decimal number, if they are
/// all digits.
pub open spec fn dec_value(f: Seq<u8>, n: int) -> Option<int>
    decreases n,
{
    if n <= 0 {
        Some(0)
    } else {
        match dec_value(f, n - 1) {
            Some(v) => if 48 <= f[n - 1] <= 57 {
                Some(v * 10 + (f[n - 1] - 48))
            } else {
                None
            },
            None => None,
        }
    }
}

/// The number that a clock field holds: its decimal value if the field is
/// one or more digits with a value of at most `max`, and `default`
/// otherwise.
pub open spec fn spec_clock(f: Seq<u8>, max: int, default: int) -> int {
    if f.len() == 0 {
        default
    } else {
        match dec_value(f, f.len() as int) {
            Some(v) => if v <= max {
                v
            } else {
                default
            },
            None => default,
        }
    }
}

/// Digits only add to a number.
pub proof fn lemma_dec_grows(f: Seq<u8>, k: int, n: int)
    requires
        0 <= k <= n,
    ensures
        dec_value(f, k) is None ==> dec_value(f, n) is None,
        dec_value(f, n) matches Some(v) ==> dec_value(f, k) is Some && dec_value(f, k).unwrap()
            <= v && dec_value(f, k).unwrap() >= 0,
    decreases n - k,
{
    if k < n {
        lemma_dec_grows(f, k, n - 1);
    } else {
        lemma_dec_nonneg(f, n);
    }
}

/// A decimal value is not negative.
pub proof fn lemma_dec_nonneg(f: Seq<u8>, n: int)
    ensures
        dec_value(f, n) matches Some(v) ==> v >= 0,
    decreases n,
{
    if n > 0 {
        lemma_dec_nonneg(f, n - 1);
    }
}

/// The en-passant square that a field names: none for `-`, the square for
/// a square name; anything else is no field of a record.
pub open spec fn spec_fen_ep(f: Seq<u8>) -> Option<Option<usize>> {
    if f == seq![45u8] {
        Some(None)
    } else {
        match spec_sq_to_idx(f) {
            Some(s) => Some(Some(s)),
            None => None,
        }
    }
}

/// The position that a record describes, if it is a record of a
/// well-formed position: at least four fields, a placement of eight full
/// ranks, `w` or `b` for the side, a castling right for each of the
/// letters `KQkq` that the third field holds, an en-passant field that is
/// `-` or names a square, and an en-passant square and castling rights
/// that agree with the pieces. The history is empty.
pub open spec fn fen_position(b: Seq<u8>) -> Option<Position> {
    let side = field(b, 1);
    let rights = field(b, 2);
    if field(b, 3).len() == 0 || !(side == seq![119u8] || side == seq![98u8]) {
        None
    } else {
        match (spec_placement(field(b, 0)), spec_fen_ep(field(b, 3))) {
            (Some(squares), Some(ep)) => {
                let white = side == seq![119u8];
                let castling = seq![
                    rights.contains(75u8),
                    rights.contains(81u8),
                    rights.contains(107u8),
                    rights.contains(113u8),
                ];
                let p = Position {
                    squares: squares,
                    white_to_move: white,
                    castling: castling,
                    ep: ep,
                    halfmove: spec_clock(field(b, 4), 255, 0) as u8,
                    fullmove: spec_clock(field(b, 5), 65535, 1) as u16,
                    hash: hash_below(squares, 64, false) ^ state_hash(castling, ep, white),
                    pawn_hash: hash_below(squares, 64, true),
                    states: Seq::empty(),
                    moves: Seq::empty(),
                    captures: Seq::empty(),
                    hashes: Seq::empty(),
                };
                if p.ep_ok() && p.rooks_home() {
                    Some(p)
                } else {
                    None
                }
            },
            _ => None,
        }
    }
}

/// Whether a byte is white space.
pub(crate) fn byte_is_space(b: u8) -> (r: bool)
    ensures
        r == is_space(b),
{
    b == 32 || (9 <= b && b <= 13)
}

/// The first position at or after `i` that holds no white space.
pub(crate) fn scan_spaces(b: &[u8], i: usize) -> (r: usize)
    requires
        i <= b@.len(),
    ensures
        r == skip_spaces(b@, i as int),
        i <= r <= b@.len(),
{
    let mut j: usize = i;
    while j < b.len() && byte_is_space(b[j])
        invariant
            i <= j <= b@.len(),
            skip_spaces(b@, i as int) == skip_spaces(b@, j as int),
        decreases b@.len() - j,
    {
        j += 1;
    }
    j
}

/// The first position at or after `i` that holds white space, or the end.
fn scan_field(b: &[u8], i: usize) -> (r: usize)
    requires
        i <= b@.len(),
    ensures
        r == skip_field(b@, i as int),
        i <= r <= b@.len(),
{
    let mut j: usize = i;
    while j < b.len() && !byte_is_space(b[j])
        invariant
            i <= j <= b@.len(),
            skip_field(b@, i as int) == skip_field(b@, j as int),
        decreases b@.len() - j,
    {
        j += 1;
    }
    j
}

/// Puts the pieces of a placement field on an empty board. Answers
/// whether the field describes eight full ranks; if it does not, the
/// board is left with the pieces read so far.
fn read_placement(board: &mut Board, b: &[u8], start: usize, end: usize) -> (ok: bool)
    requires
        old(board).inv(),
        start <= end <= b@.len(),
        forall|s: int| 0 <= s < 64 ==> (#[trigger] old(board)@.squares[s]) is None,
    ensures
        final(board).inv(),
        final(board).same_state(old(board)),
        ok == spec_placement(b@.subrange(start as int, end as int)) is Some,
        ok ==> Some(final(board)@.squares) == spec_placement(b@.subrange(start as int, end as int)),
{
    let ghost f = b@.subrange(start as int, end as int);
    let mut rank: usize = 7;
    let mut file: usize = 0;
    let mut i: usize = start;
    proof {
        assert(board@.squares =~= Seq::new(64, |s: int| None::<Piece>));
    }
    while i < end
        invariant
            start <= i <= end <= b@.len(),
            f == b@.subrange(start as int, end as int),
            board.inv(),
            board.same_state(old(board)),
            rank <= 7,
            file <= 8,
            place_upto(f, i - start) == Some(
                Placement { squares: board@.squares, rank: rank as int, file: file as int },
            ),
            board@.squares.len() == 64,
            forall|s: int|
                0 <= s < 64 && s >= rank * 8 + file && s < rank * 8 + 8 ==> (
                #[trigger] board@.squares[s]) is None,
            forall|s: int| 0 <= s < rank * 8 ==> (#[trigger] board@.squares[s]) is None,
        decreases end - i,
    {
        let c = b[i];
        let ghost k = i - start;
        assert(f[k] == c);
        let ghost st = Placement { squares: board@.squares, rank: rank as int, file: file as int };
        assert(place_upto(f, k + 1) == place_step(st, c));
        let mut good: bool = false;
        if c == 47 {
            if file == 8 && rank > 0 {
                rank = rank - 1;
                file = 0;
                good = true;
            }
        } else if 49 <= c && c <= 56 {
            let d: usize = (c - 48) as usize;
            if file + d <= 8 {
                file = file + d;
                good = true;
            }
        } else {
            match byte_to_piece(c) {
                Some(pc) => {
                    if file < 8 {
                        board.put_piece(rank * 8 + file, pc.white, pc.kind);
                        file = file + 1;
                        good = true;
                    }
                },
                None => {},
            }
        }
        if !good {
            proof {
                lemma_place_fails(f, k + 1, f.len() as int);
            }
            return false;
        }
        i += 1;
    }
    rank == 0 && file == 8
}

/// Reads a clock field: its decimal value if it is one or more digits
/// with a value of at most `max`, and `default` otherwise.
fn read_clock(b: &[u8], start: usize, end: usize, max: u32, default: u32) -> (r: u32)
    requires
        start <= end <= b@.len(),
        max <= 65535,
        default <= max,
    ensures
        r == spec_clock(b@.subrange(start as int, end as int), max as int, default as int),
        r <= max,
{
    let ghost f = b@.subrange(start as int, end as int);
    if start == end {
        return default;
    }
    let mut v: u32 = 0;
    let mut i: usize = start;
    while i < end
        invariant
            start <= i <= end <= b@.len(),
            f == b@.subrange(start as int, end as int),
            max <= 65535,
            default <= max,
            v <= max,
            dec_value(f, i - start) == Some(v as int),
        decreases end - i,
    {
        let c = b[i];
        let ghost k = i - start;
        assert(f[k] == c);
        if c < 48 || c > 57 {
            proof {
                lemma_dec_grows(f, k + 1, f.len() as int);
            }
            return default;
        }
        let next: u32 = v * 10 + (c - 48) as u32;
        if next > max {
            proof {
                lemma_dec_grows(f, k + 1, f.len() as int);
            }
            return default;
        }
        v = next;
        i += 1;
    }
    v
}

/// Whether the bytes from `start` to `end` hold the byte `c`.
fn range_contains(b: &[u8], start: usize, end: usize, c: u8) -> (r: bool)
    requires
        start <= end <= b@.len(),
    ensures
        r == b@.subrange(start as int, end as int).contains(c),
{
    let ghost f = b@.subrange(start as int, end as int);
    let mut i: usize = start;
    while i < end
        invariant
            start <= i <= end <= b@.len(),
            f == b@.subrange(start as int, end as int),
            forall|j: int| 0 <= j < i - start ==> f[j] != c,
        decreases end - i,
    {
        if b[i] == c {
            assert(f[i - start] == c);
            return true;
        }
        i += 1;
    }
    false
}

/// Reads a position from the bytes of a record; see [`fen_position`].
pub fn board_from_bytes(b: &[u8]) -> (r: Option<Board>)
    ensures
        match r {
            Some(board) => fen_position(b@) == Some(board@) && board.wf() && board.moves@.len()
                == 0,
            None => fen_position(b@) is None,
        },
{
    let lo0 = scan_spaces(b, 0);
    let hi0 = scan_field(b, lo0);
    let lo1 = scan_spaces(b, hi0);
    let hi1 = scan_field(b, lo1);
    let lo2 = scan_spaces(b, hi1);
    let hi2 = scan_field(b, lo2);
    let lo3 = scan_spaces(b, hi2);
    let hi3 = scan_field(b, lo3);
    let lo4 = scan_spaces(b, hi3);
    let hi4 = scan_field(b, lo4);
    let lo5 = scan_spaces(b, hi4);
    let hi5 = scan_field(b, lo5);
    proof {
        reveal_with_fuel(field_start, 6);
        assert(field(b@, 0) == b@.subrange(lo0 as int, hi0 as int));
        assert(field(b@, 1) == b@.subrange(lo1 as int, hi1 as int));
        assert(field(b@, 2) == b@.subrange(lo2 as int, hi2 as int));
        assert(field(b@, 3) == b@.subrange(lo3 as int, hi3 as int));
        assert(field(b@, 4) == b@.subrange(lo4 as int, hi4 as int));
        assert(field(b@, 5) == b@.subrange(lo5 as int, hi5 as int));
    }
    if lo3 == hi3 {
        return None;
    }
    let ghost side = field(b@, 1);
    let white = hi1 - lo1 == 1 && b[lo1] == 119;
    let black = hi1 - lo1 == 1 && b[lo1] == 98;
    proof {
        if hi1 - lo1 == 1 {
            assert(side =~= seq![b@[lo1 as int]]);
            assert(seq![119u8][0] == 119u8);
            assert(seq![98u8][0] == 98u8);
        } else {
            assert(seq![119u8].len() == 1);
            assert(seq![98u8].len() == 1);
        }
    }
    if !white && !black {
        return None;
    }
    let ghost f3 = field(b@, 3);
    let mut ep: Option<usize> = None;
    if hi3 - lo3 == 1 && b[lo3] == 45 {
        proof {
            assert(f3 =~= seq![45u8]);
        }
    } else {
        proof {
            if f3 == seq![45u8] {
                assert(f3.len() == 1);
                assert(f3[0] == 45u8);
                assert(f3[0] == b@[lo3 as int]);
            }
        }
        if hi3 - lo3 != 2 {
            return None;
        }
        proof {
            assert(f3[0] == b@[lo3 as int]);
            assert(f3[1] == b@[lo3 + 1]);
        }
        match square_from_bytes(b[lo3], b[lo3 + 1]) {
            Some(s) => {
                ep = Some(s);
            },
            None => {
                return None;
            },
        }
    }
    let mut board = Board::empty();
    if !read_placement(&mut board, b, lo0, hi0) {
        return None;
    }
    let rights = [
        range_contains(b, lo2, hi2, 75),
        range_contains(b, lo2, hi2, 81),
        range_contains(b, lo2, hi2, 107),
        range_contains(b, lo2, hi2, 113),
    ];
    board.set_castling(rights);
    if black {
        board.flip_side();
    }
    board.set_en_passant(ep);
    board.halfmove_clock = read_clock(b, lo4, hi4, 255, 0) as u8;
    board.fullmove_number = read_clock(b, lo5, hi5, 65535, 1) as u16;
    if !board.shape_ok() {
        return None;
    }
    proof {
        let p = fen_position(b@).unwrap();
        assert(board@.castling =~= p.castling);
        assert(board@.states =~= p.states);
        assert(board@.moves =~= p.moves);
        assert(board@.captures =~= p.captures);
        assert(board@.hashes =~= p.hashes);
        assert(board@ == p);
    }
    Some(board)
}

/// Reads a position from a record in Forsyth-Edwards notation; see
/// [`fen_position`]. A text that is no record of a well-formed position
/// gives nothing.
pub fn board_from_fen(fen: &str) -> (r: Option<Board>)
    ensures
        match r {
            Some(board) => fen_position(fen.spec_bytes()) == Some(board@) && board.wf()
                && board.moves@.len() == 0,
            None => fen_position(fen.spec_bytes()) is None,
        },
{
    board_from_bytes(fen.as_bytes())
}

/// The letter of a piece in the placement field: upper case for White,
/// lower case for Black.
pub open spec fn piece_byte(pc: Piece) -> u8 {
    let upper: u8 = match pc.kind {
        BBPiece::Pawn => 80,
        BBPiece::Knight => 78,
        BBPiece::Bishop => 66,
        BBPiece::Rook => 82,
        BBPiece::Queen => 81,
        BBPiece::King => 75,
        _ => 32,
    };
    if pc.white || upper == 32 {
        upper
    } else {
        (upper + 32) as u8
    }
}

/// The letter of a piece of a colour in the placement field; a blank for
/// what is no piece kind.
pub fn piece_to_fen(piece: BBPiece, color: Color) -> (r: char)
    ensures
        r == piece_byte(Piece { white: color == Color::White, kind: piece }) as char,
{
    let upper: u8 = match piece {
        BBPiece::Pawn => 80,
        BBPiece::Knight => 78,
        BBPiece::Bishop => 66,
        BBPiece::Rook => 82,
        BBPiece::Queen => 81,
        BBPiece::King => 75,
        _ => 32,
    };
    let white = match color {
        Color::White => true,
        Color::Black => false,
    };
    if white || upper == 32 {
        upper as char
    } else {
        (upper + 32) as char
    }
}

/// A run of empty squares as a digit, or nothing for no run.
pub open spec fn run_bytes(run: int) -> Seq<u8> {
    if run > 0 {
        seq![(48 + run) as u8]
    } else {
        Seq::empty()
    }
}

/// The text of a rank from file `file` on, with `run` empty squares
/// counted before it.
pub open spec fn rank_bytes(squares: Seq<Option<Piece>>, rank: int, file: int, run: int) -> Seq<u8>
    decreases 8 - file,
{
    if file >= 8 {
        run_bytes(run)
    } else {
        match squares[rank * 8 + file] {
            Some(pc) => run_bytes(run) + seq![piece_byte(pc)] + rank_bytes(
                squares,
                rank,
                file + 1,
                0,
            ),
            None => rank_bytes(squares, rank, file + 1, run + 1),
        }
    }
}

/// The placement field from rank `rank` down to the first rank.
pub open spec fn placement_bytes(squares: Seq<Option<Piece>>, rank: int) -> Seq<u8>
    decreases rank,
{
    if rank <= 0 {
        rank_bytes(squares, 0, 0, 0)
    } else {
        rank_bytes(squares, rank, 0, 0) + seq![47u8] + placement_bytes(squares, rank - 1)
    }
}

/// A number in decimal digits.
pub open spec fn dec_bytes(n: int) -> Seq<u8>
    decreases n,
{
    if n < 10 {
        seq![(48 + n) as u8]
    } else {
        dec_bytes(n / 10).push((48 + n % 10) as u8)
    }
}

/// The castling field: the letters of the rights held, or `-`.
pub open spec fn castling_bytes(c: Seq<bool>) -> Seq<u8> {
    if !c[0] && !c[1] && !c[2] && !c[3] {
        seq![45u8]
    } else {
        (if c[0] { seq![75u8] } else { Seq::empty() }) + (if c[1] {
            seq![81u8]
        } else {
            Seq::empty()
        }) + (if c[2] { seq![107u8] } else { Seq::empty() }) + (if c[3] {
            seq![113u8]
        } else {
            Seq::empty()
        })
    }
}

/// The en-passant field: the name of the square, or `-`.
pub open spec fn ep_bytes(ep: Option<usize>) -> Seq<u8> {
    match ep {
        Some(e) => seq![spec_file_byte(e as int), spec_rank_byte(e as int)],
        None => seq![45u8],
    }
}

/// The record of a position: its six fields, one blank between two.
pub open spec fn fen_bytes(p: Position) -> Seq<u8> {
    placement_bytes(p.squares, 7) + seq![32u8] + seq![if p.white_to_move {
        119u8
    } else {
        98u8
    }] + seq![32u8] + castling_bytes(p.castling) + seq![32u8] + ep_bytes(p.ep) + seq![32u8]
        + dec_bytes(p.halfmove as int) + seq![32u8] + dec_bytes(p.fullmove as int)
}

/// Appends a number in decimal digits.
fn push_decimal(out: &mut Vec<u8>, n: u32)
    ensures
        final(out)@ == old(out)@ + dec_bytes(n as int),
    decreases n,
{
    if n < 10 {
        out.push(48 + n as u8);
        assert(out@ =~= old(out)@ + dec_bytes(n as int));
    } else {
        push_decimal(out, n / 10);
        out.push(48 + (n % 10) as u8);
        assert(out@ =~= old(out)@ + dec_bytes(n as int));
    }
}

/// Appends the text of one rank.
fn push_rank(out: &mut Vec<u8>, board: &Board, rank: usize)
    requires
        rank < 8,
    ensures
        final(out)@ == old(out)@ + rank_bytes(board@.squares, rank as int, 0, 0),
{
    let ghost squares = board@.squares;
    let ghost start = out@;
    let mut run: u8 = 0;
    let mut file: usize = 0;
    while file < 8
        invariant
            file <= 8,
            run <= file,
            rank < 8,
            squares == board@.squares,
            out@ + rank_bytes(squares, rank as int, file as int, run as int) == start + rank_bytes(
                squares,
                rank as int,
                0,
                0,
            ),
        decreases 8 - file,
    {
        let ghost before = out@;
        match board.piece_at(rank * 8 + file) {
            Some(pc) => {
                if run > 0 {
                    out.push(48 + run);
                }
                let color = if pc.white {
                    Color::White
                } else {
                    Color::Black
                };
                let upper: u8 = match pc.kind {
                    BBPiece::Pawn => 80,
                    BBPiece::Knight => 78,
                    BBPiece::Bishop => 66,
                    BBPiece::Rook => 82,
                    BBPiece::Queen => 81,
                    BBPiece::King => 75,
                    _ => 32,
                };
                let letter: u8 = if pc.white || upper == 32 {
                    upper
                } else {
                    upper + 32
                };
                out.push(letter);
                proof {
                    assert(out@ =~= before + run_bytes(run as int) + seq![piece_byte(pc)]);
                    assert(before + (run_bytes(run as int) + seq![piece_byte(pc)] + rank_bytes(
                        squares,
                        rank as int,
                        file + 1,
                        0,
                    )) =~= out@ + rank_bytes(squares, rank as int, file + 1, 0));
                }
                run = 0;
            },
            None => {
                run = run + 1;
            },
        }
        file += 1;
    }
    if run > 0 {
        out.push(48 + run);
    }
    proof {
        assert(out@ =~= start + rank_bytes(squares, rank as int, 0, 0));
    }
}

/// Appends the placement field.
fn push_placement(out: &mut Vec<u8>, board: &Board)
    ensures
        final(out)@ == old(out)@ + placement_bytes(board@.squares, 7),
{
    let ghost squares = board@.squares;
    let ghost start = out@;
    let mut rank: usize = 7;
    push_rank(out, board, 7);
    while rank > 0
        invariant
            rank <= 7,
            squares == board@.squares,
            out@ + (if rank > 0 {
                seq![47u8] + placement_bytes(squares, rank - 1)
            } else {
                Seq::empty()
            }) == start + placement_bytes(squares, 7),
        decreases rank,
    {
        let ghost before = out@;
        out.push(47);
        rank = rank - 1;
        push_rank(out, board, rank);
        proof {
            assert(before + (seq![47u8] + placement_bytes(squares, rank as int)) =~= out@ + (
            if rank > 0 {
                seq![47u8] + placement_bytes(squares, rank - 1)
            } else {
                Seq::empty()
            }));
        }
    }
    proof {
        assert(out@ =~= start + placement_bytes(squares, 7));
    }
}

/// Appends the castling field.
fn push_castling(out: &mut Vec<u8>, rights: &[bool; 4])
    ensures
        final(out)@ == old(out)@ + castling_bytes(rights@),
{
    if !rights[0] && !rights[1] && !rights[2] && !rights[3] {
        out.push(45);
    } else {
        if rights[0] {
            out.push(75);
        }
        if rights[1] {
            out.push(81);
        }
        if rights[2] {
            out.push(107);
        }
        if rights[3] {
            out.push(113);
        }
    }
    proof {
        assert(out@ =~= old(out)@ + castling_bytes(rights@));
    }
}

/// Appends the en-passant field.
fn push_ep(out: &mut Vec<u8>, ep: Option<usize>)
    requires
        ep matches Some(e) ==> e < 64,
    ensures
        final(out)@ == old(out)@ + ep_bytes(ep),
{
    match ep {
        Some(e) => {
            out.push(file_byte(e));
            out.push(rank_byte(e));
        },
        None => {
            out.push(45);
        },
    }
    proof {
        assert(out@ =~= old(out)@ + ep_bytes(ep));
    }
}

impl Board {
    /// The record of the position in Forsyth-Edwards notation, as bytes.
    pub fn to_fen_bytes(&self) -> (out: Vec<u8>)
        requires
            self.en_passant matches Some(e) ==> e < 64,
        ensures
            out@ == fen_bytes(self@),
    {
        let mut out: Vec<u8> = Vec::new();
        push_placement(&mut out, self);
        let ghost a = out@;
        out.push(32);
        out.push(if self.move_color == 1 {
            119
        } else {
            98
        });
        out.push(32);
        let ghost b = out@;
        push_castling(&mut out, &self.castling_rights);
        out.push(32);
        let ghost c = out@;
        push_ep(&mut out, self.en_passant);
        out.push(32);
        let ghost d = out@;
        push_decimal(&mut out, self.halfmove_clock as u32);
        out.push(32);
        let ghost e = out@;
        push_decimal(&mut out, self.fullmove_number as u32);
        proof {
            let p = self@;
            assert(a =~= placement_bytes(p.squares, 7));
            assert(b =~= a + seq![32u8] + seq![if p.white_to_move {
                119u8
            } else {
                98u8
            }] + seq![32u8]);
            assert(c =~= b + castling_bytes(p.castling) + seq![32u8]);
            assert(d =~= c + ep_bytes(p.ep) + seq![32u8]);
            assert(e =~= d + dec_bytes(p.halfmove as int) + seq![32u8]);
            assert(out@ =~= e + dec_bytes(p.fullmove as int));
        }
        out
    }

    /// The record of the position in Forsyth-Edwards notation.
    pub fn to_fen(&self) -> (r: String)
        requires
            self.en_passant matches Some(e) ==> e < 64,
        ensures
            r@.len() == fen_bytes(self@).len(),
            forall|i: int| 0 <= i < r@.len() ==> r@[i] == fen_bytes(self@)[i] as char,
    {
        let bytes = self.to_fen_bytes();
        let mut s = String::new();
        let mut i: usize = 0;
        while i < bytes.len()
            invariant
                i <= bytes@.len(),
                s@.len() == i,
                forall|j: int| 0 <= j < i ==> s@[j] == bytes@[j] as char,
            decreases bytes@.len() - i,
        {
            push_char(&mut s, bytes[i] as char);
            i += 1;
        }
        s
    }
}

} // verus!
