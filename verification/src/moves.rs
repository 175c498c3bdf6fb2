//! Moves packed in sixteen bits, and the fixed-capacity buffer that holds
//! the moves of one position.
//!
//! Bits 0 to 5 of a move hold the destination square, bits 6 to 11 the
//! origin, bits 12 to 15 the flag.

use vstd::prelude::*;
use std::cmp::Ordering;
use crate::square::BBPiece;
use crate::square::{file_byte, rank_byte, push_char, spec_file_byte, spec_rank_byte};

verus! {

/// What kind of move the four flag bits announce.
#[derive(Copy, Clone, Debug, PartialEq, Eq, Structural)]
pub enum MoveFlag {
    Quiet,
    DoublePush,
    KingCastle,
    QueenCastle,
    Capture,
    EnPassant,
    KnightPromotion,
    BishopPromotion,
    RookPromotion,
    QueenPromotion,
    KnightPromoCapture,
    BishopPromoCapture,
    RookPromoCapture,
    QueenPromoCapture,
}

impl MoveFlag {
    /// The four bits of this flag.
    pub open spec fn spec_bits(self) -> int {
        match self {
            MoveFlag::Quiet => 0,
            MoveFlag::DoublePush => 1,
            MoveFlag::KingCastle => 2,
            MoveFlag::QueenCastle => 3,
            MoveFlag::Capture => 4,
            MoveFlag::EnPassant => 5,
            MoveFlag::KnightPromotion => 8,
            MoveFlag::BishopPromotion => 9,
            MoveFlag::RookPromotion => 10,
            MoveFlag::QueenPromotion => 11,
            MoveFlag::KnightPromoCapture => 12,
            MoveFlag::BishopPromoCapture => 13,
            MoveFlag::RookPromoCapture => 14,
            MoveFlag::QueenPromoCapture => 15,
        }
    }

    /// The four bits of this flag.
    pub fn bits(self) -> (r: u8)
        ensures
            r == self.spec_bits(),
    {
        match self {
            MoveFlag::Quiet => 0,
            MoveFlag::DoublePush => 1,
            MoveFlag::KingCastle => 2,
            MoveFlag::QueenCastle => 3,
            MoveFlag::Capture => 4,
            MoveFlag::EnPassant => 5,
            MoveFlag::KnightPromotion => 8,
            MoveFlag::BishopPromotion => 9,
            MoveFlag::RookPromotion => 10,
            MoveFlag::QueenPromotion => 11,
            MoveFlag::KnightPromoCapture => 12,
            MoveFlag::BishopPromoCapture => 13,
            MoveFlag::RookPromoCapture => 14,
            MoveFlag::QueenPromoCapture => 15,
        }
    }

    /// The flag that four bits announce; 6 and 7 announce none.
    pub fn from_bits(bits: u8) -> (r: Option<MoveFlag>)
        ensures
            r matches Some(f) ==> f.spec_bits() == bits,
            r is None <==> (bits == 6 || bits == 7 || bits >= 16),
    {
        match bits {
            0 => Some(MoveFlag::Quiet),
            1 => Some(MoveFlag::DoublePush),
            2 => Some(MoveFlag::KingCastle),
            3 => Some(MoveFlag::QueenCastle),
            4 => Some(MoveFlag::Capture),
            5 => Some(MoveFlag::EnPassant),
            8 => Some(MoveFlag::KnightPromotion),
            9 => Some(MoveFlag::BishopPromotion),
            10 => Some(MoveFlag::RookPromotion),
            11 => Some(MoveFlag::QueenPromotion),
            12 => Some(MoveFlag::KnightPromoCapture),
            13 => Some(MoveFlag::BishopPromoCapture),
            14 => Some(MoveFlag::RookPromoCapture),
            15 => Some(MoveFlag::QueenPromoCapture),
            _ => None,
        }
    }
}

pub const FLAG_QUIET: u8 = 0;
pub const FLAG_DOUBLE_PUSH: u8 = 1;
pub const FLAG_KING_CASTLE: u8 = 2;
pub const FLAG_QUEEN_CASTLE: u8 = 3;
pub const FLAG_CAPTURE: u8 = 4;
pub const FLAG_EN_PASSANT: u8 = 5;
pub const FLAG_PROMOTION: u8 = 8;

/// The values by which captures are ordered, by bitboard slot.
pub const PIECE_VALUES: [i32; 8] = [0, 0, 71, 293, 300, 456, 905, 100000];

/// A move: destination, origin and flag in one word.
#[derive(Copy, Clone, Debug, PartialEq, Eq, Structural)]
pub struct Move {
    pub info: u16,
}

/// How many moves a [`MoveStack`] holds at most.
pub const MOVE_CAPACITY: usize = 256;

/// The value by which a piece counts in capture ordering; an absent piece
/// counts nothing.
pub open spec fn spec_piece_value(piece: Option<BBPiece>) -> int {
    match piece {
        Some(p) => PIECE_VALUES[p.spec_idx()] as int,
        None => 0,
    }
}

/// The ordering score of a move: the move remembered from the
/// transposition table first, then captures by the worth of the victim over
/// the worth of the attacker, promotions, and the two killer moves.
pub open spec fn spec_score_move(
    m: Move,
    tt_move: Option<Move>,
    killer_moves: [Move; 2],
    attacking_piece: Option<BBPiece>,
    captured_piece: Option<BBPiece>,
) -> int {
    if tt_move == Some(m) {
        1_000_000
    } else {
        let capture = if m.spec_is_capture() && attacking_piece is Some && captured_piece is Some {
            let victim = spec_piece_value(captured_piece);
            let attacker = spec_piece_value(attacking_piece);
            10_000 + 10 * victim - attacker + if victim >= attacker {
                5_000int
            } else {
                0int
            }
        } else {
            0
        };
        let promotion = if m.spec_is_promotion() {
            8_000int
        } else {
            0int
        };
        let killer = if m.spec_is_capture() {
            0int
        } else if m == killer_moves[0] {
            7_000int
        } else if m == killer_moves[1] {
            6_000int
        } else {
            0int
        };
        capture + promotion + killer
    }
}

impl Move {
    /// The origin square.
    pub open spec fn spec_from(self) -> int {
        (self.info as int / 64) % 64
    }

    /// The destination square.
    pub open spec fn spec_to(self) -> int {
        self.info as int % 64
    }

    /// The flag bits.
    pub open spec fn spec_flags(self) -> int {
        self.info as int / 4096
    }

    /// The move with the given origin, destination and flag.
    pub open spec fn spec_parts(from: int, to: int, flags: int) -> Move {
        Move { info: (flags * 4096 + from * 64 + to) as u16 }
    }

    /// Whether the flag announces a capture (en passant and capturing
    /// promotions included).
    pub open spec fn spec_is_capture(self) -> bool {
        (self.spec_flags() / 4) % 2 == 1
    }

    /// Whether the flag announces a promotion.
    pub open spec fn spec_is_promotion(self) -> bool {
        self.spec_flags() >= 8
    }

    /// Whether the flag announces a castling move.
    pub open spec fn spec_is_castle(self) -> bool {
        self.spec_flags() == 2 || self.spec_flags() == 3
    }

    /// A move is its three parts, and each part is in range.
    pub proof fn lemma_parts(self)
        ensures
            0 <= self.spec_from() < 64,
            0 <= self.spec_to() < 64,
            0 <= self.spec_flags() < 16,
            Move::spec_parts(self.spec_from(), self.spec_to(), self.spec_flags()) == self,
    {
    }

    /// The parts of a move built from parts are those parts.
    pub proof fn lemma_of_parts(from: int, to: int, flags: int)
        requires
            0 <= from < 64,
            0 <= to < 64,
            0 <= flags < 16,
        ensures
            Move::spec_parts(from, to, flags).spec_from() == from,
            Move::spec_parts(from, to, flags).spec_to() == to,
            Move::spec_parts(from, to, flags).spec_flags() == flags,
    {
    }

    /// Packs origin, destination and flag. Only the low six bits of a square
    /// and the low four bits of the flag are kept.
    #[inline]
    pub fn from_parts(m_from: u8, m_to: u8, flags: u8) -> (r: Self)
        ensures
            r == Move::spec_parts(m_from as int % 64, m_to as int % 64, flags as int % 16),
            r.spec_from() == m_from % 64,
            r.spec_to() == m_to % 64,
            r.spec_flags() == flags % 16,
    {
        let info: u16 = ((flags as u16 & 0xf) << 12) | ((m_from as u16 & 0x3f) << 6) | (m_to as u16
            & 0x3f);
        assert(info == ((flags % 16) as u16) * 4096 + ((m_from % 64) as u16) * 64 + (m_to
            % 64) as u16) by (bit_vector)
            requires
                info == ((flags as u16 & 0xf) << 12) | ((m_from as u16 & 0x3f) << 6) | (m_to as u16
                    & 0x3f),
        ;
        Move { info }
    }

    /// The move that stands for "no move": from a1 to a1, quiet.
    #[inline]
    pub fn null() -> (r: Self)
        ensures
            r == (Move { info: 0 }),
    {
        Move { info: 0 }
    }

    /// The origin square.
    #[inline]
    pub fn from_square(&self) -> (r: u8)
        ensures
            r == self.spec_from(),
            r < 64,
    {
        let info = self.info;
        assert(((info >> 6) & 0x3f) == (info / 64) % 64) by (bit_vector);
        ((info >> 6) & 0x3f) as u8
    }

    /// The destination square.
    #[inline]
    pub fn to_square(&self) -> (r: u8)
        ensures
            r == self.spec_to(),
            r < 64,
    {
        let info = self.info;
        assert((info & 0x3f) == info % 64) by (bit_vector);
        (info & 0x3f) as u8
    }

    /// The flag bits.
    #[inline]
    pub fn flags(&self) -> (r: u8)
        ensures
            r == self.spec_flags(),
            r < 16,
    {
        let info = self.info;
        assert(((info >> 12) & 0xf) == info / 4096) by (bit_vector);
        ((info >> 12) & 0xf) as u8
    }

    /// Whether the flag announces a capture.
    #[inline]
    pub fn is_capture(&self) -> (r: bool)
        ensures
            r == self.spec_is_capture(),
    {
        let f = self.flags();
        assert((f & 4 != 0) == ((f / 4) % 2 == 1)) by (bit_vector);
        f & FLAG_CAPTURE != 0
    }

    /// Whether the flag announces a promotion.
    #[inline]
    pub fn is_promotion(&self) -> (r: bool)
        ensures
            r == self.spec_is_promotion(),
    {
        self.flags() >= FLAG_PROMOTION
    }

    /// Replaces the origin square, keeping destination and flag.
    #[inline]
    pub fn set_from_square(&mut self, m_from: u8)
        ensures
            *final(self) == Move::spec_parts(
                m_from as int % 64,
                old(self).spec_to(),
                old(self).spec_flags(),
            ),
    {
        let to = self.to_square();
        let flags = self.flags();
        *self = Move::from_parts(m_from, to, flags);
    }

    /// Replaces the destination square, keeping origin and flag.
    #[inline]
    pub fn set_to_square(&mut self, m_to: u8)
        ensures
            *final(self) == Move::spec_parts(
                old(self).spec_from(),
                m_to as int % 64,
                old(self).spec_flags(),
            ),
    {
        let from = self.from_square();
        let flags = self.flags();
        *self = Move::from_parts(from, m_to, flags);
    }

    /// Replaces the flag, keeping origin and destination.
    #[inline]
    pub fn set_flags(&mut self, flags: u8)
        ensures
            *final(self) == Move::spec_parts(
                old(self).spec_from(),
                old(self).spec_to(),
                flags as int % 16,
            ),
    {
        let from = self.from_square();
        let to = self.to_square();
        *self = Move::from_parts(from, to, flags);
    }

    /// The ordering score of `m`; see [`spec_score_move`].
    pub fn score_move(
        &self,
        m: &Move,
        tt_move: Option<Move>,
        killer_moves: &[Move; 2],
        attacking_piece: Option<BBPiece>,
        captured_piece: Option<BBPiece>,
    ) -> (r: i32)
        ensures
            r == spec_score_move(*m, tt_move, *killer_moves, attacking_piece, captured_piece),
    {
        let mut score: i32 = 0;
        if let Some(t) = tt_move {
            if *m == t {
                return 1_000_000;
            }
        }
        let capture = m.is_capture();
        if capture {
            if let Some(captured) = captured_piece {
                if let Some(attacker) = attacking_piece {
                    let victim_value: i32 = PIECE_VALUES[captured.idx()];
                    let attacker_value: i32 = PIECE_VALUES[attacker.idx()];
                    score += 10000 + victim_value * 10 - attacker_value;
                    if victim_value >= attacker_value {
                        score += 5000;
                    }
                }
            }
        }
        if m.is_promotion() {
            score += 8000;
        }
        if !capture {
            if *m == killer_moves[0] {
                score += 7000;
            } else if *m == killer_moves[1] {
                score += 6000;
            }
        }
        score
    }

    /// The promotion letter of a flag, as a byte: `n`, `b`, `r` or `q`.
    pub open spec fn spec_promotion_byte(flags: int) -> Option<u8> {
        if flags == 8 || flags == 12 {
            Some(110u8)
        } else if flags == 9 || flags == 13 {
            Some(98u8)
        } else if flags == 10 || flags == 14 {
            Some(114u8)
        } else if flags == 11 || flags == 15 {
            Some(113u8)
        } else {
            None
        }
    }

    /// The move in coordinate notation: origin, destination and, for a
    /// promotion, the letter of the new piece.
    pub open spec fn spec_uci(self) -> Seq<char> {
        let base = seq![
            spec_file_byte(self.spec_from()) as char,
            spec_rank_byte(self.spec_from()) as char,
            spec_file_byte(self.spec_to()) as char,
            spec_rank_byte(self.spec_to()) as char,
        ];
        match Move::spec_promotion_byte(self.spec_flags()) {
            Some(p) => base.push(p as char),
            None => base,
        }
    }

    /// Writes the move in coordinate notation, such as `e2e4` or `a7a8q`.
    pub fn to_uci(&self) -> (r: String)
        ensures
            r@ == self.spec_uci(),
    {
        let from = self.from_square() as usize;
        let to = self.to_square() as usize;
        let flags = self.flags();
        let mut s = String::new();
        push_char(&mut s, file_byte(from) as char);
        push_char(&mut s, rank_byte(from) as char);
        push_char(&mut s, file_byte(to) as char);
        push_char(&mut s, rank_byte(to) as char);
        let ghost base = s@;
        assert(base =~= seq![
            spec_file_byte(self.spec_from()) as char,
            spec_rank_byte(self.spec_from()) as char,
            spec_file_byte(self.spec_to()) as char,
            spec_rank_byte(self.spec_to()) as char,
        ]);
        if flags == 8 || flags == 12 {
            push_char(&mut s, 110u8 as char);
        } else if flags == 9 || flags == 13 {
            push_char(&mut s, 98u8 as char);
        } else if flags == 10 || flags == 14 {
            push_char(&mut s, 114u8 as char);
        } else if flags == 11 || flags == 15 {
            push_char(&mut s, 113u8 as char);
        }
        s
    }
}

/// The moves of `s` put in one after the other, each at its place among
/// those put in before it.
pub open spec fn placed(s: Seq<Move>, places: Seq<int>) -> Seq<Move>
    decreases s.len(),
{
    if s.len() == 0 {
        s
    } else {
        placed(s.drop_last(), places.drop_last()).insert(places.last(), s.last())
    }
}

/// A number of moves as a mathematical integer.
pub open spec fn count_of(n: usize) -> int {
    n as int
}

/// Whether `k` is the place that a stable insertion gives `x` among
/// `front`, by what `compare` may answer: every move from `k` on compares
/// greater than `x`, and the move before `k`, if there is one, does not.
pub open spec fn arranged_place<F: Fn(&Move, &Move) -> Ordering>(
    compare: F,
    front: Seq<Move>,
    x: Move,
    k: int,
) -> bool {
    &&& 0 <= k <= front.len()
    &&& forall|j: int|
        k <= j < front.len() ==> compare.ensures((&#[trigger] front[j], &x), Ordering::Greater)
    &&& k > 0 ==> exists|o: Ordering|
        o != Ordering::Greater && #[trigger] compare.ensures((&front[k - 1], &x), o)
}

/// Whether `places` are the places that a stable insertion sort of `s`
/// gives its moves, by what `compare` may answer.
pub open spec fn arranged_by<F: Fn(&Move, &Move) -> Ordering>(
    compare: F,
    s: Seq<Move>,
    places: Seq<int>,
) -> bool {
    places.len() == s.len() && forall|i: int|
        0 <= i < s.len() ==> arranged_place(
            compare,
            placed(s.take(i), places.take(i)),
            s[i],
            #[trigger] places[i],
        )
}

/// The moves of `items` that `keep` marks, in their order.
pub open spec fn kept(items: Seq<Move>, keep: Seq<bool>) -> Seq<Move>
    decreases items.len(),
{
    if items.len() == 0 {
        Seq::empty()
    } else {
        let rest = kept(items.drop_last(), keep.drop_last());
        if keep.last() {
            rest.push(items.last())
        } else {
            rest
        }
    }
}

/// What is kept is no longer than what there was.
pub proof fn lemma_kept_len(items: Seq<Move>, keep: Seq<bool>)
    requires
        items.len() == keep.len(),
    ensures
        kept(items, keep).len() <= items.len(),
    decreases items.len(),
{
    if items.len() > 0 {
        lemma_kept_len(items.drop_last(), keep.drop_last());
    }
}

/// A scored move put into a sequence sorted by descending score, behind
/// every move that scores at least as much.
pub open spec fn insert_scored(sorted: Seq<(int, Move)>, x: (int, Move)) -> Seq<(int, Move)>
    decreases sorted.len(),
{
    if sorted.len() == 0 {
        seq![x]
    } else if sorted.last().0 >= x.0 {
        sorted.push(x)
    } else {
        insert_scored(sorted.drop_last(), x).push(sorted.last())
    }
}

/// Scored moves by descending score; moves of equal score keep their
/// order.
pub open spec fn sort_scored(items: Seq<(int, Move)>) -> Seq<(int, Move)>
    decreases items.len(),
{
    if items.len() == 0 {
        Seq::empty()
    } else {
        insert_scored(sort_scored(items.drop_last()), items.last())
    }
}

/// The moves with their scores.
pub open spec fn with_scores(moves: Seq<Move>, scores: Seq<int>) -> Seq<(int, Move)> {
    Seq::new(moves.len(), |i: int| (scores[i], moves[i]))
}

/// The moves of scored moves.
pub open spec fn moves_of(items: Seq<(int, Move)>) -> Seq<Move> {
    Seq::new(items.len(), |i: int| items[i].1)
}

/// The moves by descending score, moves of equal score in their order.
pub open spec fn reordered(moves: Seq<Move>, scores: Seq<int>) -> Seq<Move> {
    moves_of(sort_scored(with_scores(moves, scores)))
}

/// The scores as mathematical integers.
pub open spec fn to_ints(scores: Seq<i32>) -> Seq<int> {
    Seq::new(scores.len(), |i: int| scores[i] as int)
}

/// The values of the pieces.
pub open spec fn to_values(pieces: Seq<Option<BBPiece>>) -> Seq<int> {
    Seq::new(pieces.len(), |i: int| spec_piece_value(pieces[i]))
}

/// Whether `scores` are scores that `f` may give the moves, one by one.
pub open spec fn scored_by<F: Fn(&Move) -> i32>(f: F, moves: Seq<Move>, scores: Seq<i32>) -> bool {
    scores.len() == moves.len() && forall|i: int|
        0 <= i < scores.len() ==> f.ensures((&moves[i],), #[trigger] scores[i])
}

/// Whether `pieces` are what `f` may say the moves take, one by one.
pub open spec fn valued_by<F: Fn(&Move) -> Option<BBPiece>>(
    f: F,
    moves: Seq<Move>,
    pieces: Seq<Option<BBPiece>>,
) -> bool {
    pieces.len() == moves.len() && forall|i: int|
        0 <= i < pieces.len() ==> f.ensures((&moves[i],), #[trigger] pieces[i])
}

/// Whether `keep` is what `f` may answer for the moves, one by one.
pub open spec fn answered_by<F: Fn(&Move) -> bool>(f: F, moves: Seq<Move>, keep: Seq<bool>) -> bool {
    keep.len() == moves.len() && forall|i: int|
        0 <= i < keep.len() ==> f.ensures((&moves[i],), #[trigger] keep[i])
}

/// A buffer of at most [`MOVE_CAPACITY`] moves, in order.
#[derive(Copy, Clone, Debug, PartialEq, Eq)]
pub struct MoveStack {
    data: [Move; 256],
    len: usize,
}

impl MoveStack {
    /// The moves held, first to last.
    pub closed spec fn view(&self) -> Seq<Move> {
        self.data@.take(self.len as int)
    }

    /// The buffer holds no more than its capacity.
    pub closed spec fn wf(&self) -> bool {
        self.len <= 256
    }

    /// The empty buffer.
    pub fn new() -> (r: Self)
        ensures
            r.wf(),
            r@ == Seq::<Move>::empty(),
    {
        let r = MoveStack { data: [Move { info: 0 }; 256], len: 0 };
        assert(r@ =~= Seq::<Move>::empty());
        r
    }

    /// Empties the buffer.
    pub fn clear(&mut self)
        requires
            old(self).wf(),
        ensures
            final(self).wf(),
            final(self)@ == Seq::<Move>::empty(),
    {
        let mut i: usize = 0;
        while i < self.len
            invariant
                self.len == old(self).len,
                self.len <= 256,
            decreases self.len - i,
        {
            self.data[i] = Move::null();
            i += 1;
        }
        self.len = 0;
        assert(self@ =~= Seq::<Move>::empty());
    }

    /// Appends the moves of `other`, in order, for as long as there is room.
    pub fn extend(&mut self, other: &[Move])
        requires
            old(self).wf(),
        ensures
            final(self).wf(),
            final(self)@ == old(self)@ + other@.take(
                if other@.len() <= MOVE_CAPACITY - old(self)@.len() {
                    other@.len() as int
                } else {
                    MOVE_CAPACITY - old(self)@.len()
                },
            ),
    {
        let mut i: usize = 0;
        while i < other.len() && self.len < 256
            invariant
                self.len <= 256,
                i <= other@.len(),
                self.len == old(self).len + i,
                self@ == old(self)@ + other@.take(i as int),
            decreases other@.len() - i,
        {
            let ghost prev = self@;
            self.data[self.len] = other[i];
            self.len += 1;
            i += 1;
            assert(self@ =~= prev.push(other@[i - 1]));
            assert(other@.take(i as int) =~= other@.take(i - 1).push(other@[i - 1]));
            assert(self@ =~= old(self)@ + other@.take(i as int));
        }
    }

    /// The first move, or the null move when the buffer is empty.
    pub fn first(&self) -> (r: Move)
        requires
            self.wf(),
        ensures
            r == (if self@.len() > 0 {
                self@[0]
            } else {
                Move { info: 0 }
            }),
    {
        if self.len > 0 {
            self.data[0]
        } else {
            Move { info: 0 }
        }
    }

    /// Appends a move; fails, and changes nothing, when the buffer is full.
    pub fn push(&mut self, mv: Move) -> (r: Result<(), &'static str>)
        requires
            old(self).wf(),
        ensures
            final(self).wf(),
            r is Ok <==> old(self)@.len() < MOVE_CAPACITY,
            r is Ok ==> final(self)@ == old(self)@.push(mv),
            r is Err ==> final(self)@ == old(self)@,
            r matches Err(e) ==> e@ == "Stack full"@,
    {
        if self.len < 256 {
            self.data[self.len] = mv;
            self.len += 1;
            assert(self@ =~= old(self)@.push(mv));
            Ok(())
        } else {
            Err("Stack full")
        }
    }

    /// Takes the last move off and returns it; returns the null move, and
    /// changes nothing, when the buffer is empty.
    pub fn pop(&mut self) -> (r: Move)
        requires
            old(self).wf(),
        ensures
            final(self).wf(),
            old(self)@.len() > 0 ==> r == old(self)@.last() && final(self)@ == old(self)@.drop_last(),
            old(self)@.len() == 0 ==> r == (Move { info: 0 }) && final(self)@ == old(self)@,
    {
        if self.len > 0 {
            self.len -= 1;
            assert(self@ =~= old(self)@.drop_last());
            self.data[self.len]
        } else {
            Move { info: 0 }
        }
    }

    /// Moves the move at `index` to the front, keeping the others in
    /// order. An index past the end changes nothing.
    pub fn move_to_front(&mut self, index: usize)
        requires
            old(self).wf(),
        ensures
            final(self).wf(),
            index < old(self)@.len() ==> final(self)@ == old(self)@.remove(index as int).insert(
                0,
                old(self)@[index as int],
            ),
            index >= old(self)@.len() ==> final(self)@ == old(self)@,
    {
        if index >= self.len {
            return ;
        }
        let mv = self.remove(index);
        let _ = self.insert(0, mv);
    }

    /// Inserts a move before position `index`, shifting the later ones.
    /// Fails, and changes nothing, when the buffer is full or the index is
    /// past the end.
    pub fn insert(&mut self, index: usize, mv: Move) -> (r: Result<(), &'static str>)
        requires
            old(self).wf(),
        ensures
            final(self).wf(),
            r is Ok <==> old(self)@.len() < MOVE_CAPACITY && index <= old(self)@.len(),
            r is Ok ==> final(self)@ == old(self)@.insert(index as int, mv),
            r is Err ==> final(self)@ == old(self)@,
            r matches Err(e) ==> e@ == (if old(self)@.len() >= MOVE_CAPACITY {
                "MoveStack is full"@
            } else {
                "Index out of bounds"@
            }),
    {
        if self.len >= 256 {
            return Err("MoveStack is full");
        }
        if index > self.len {
            return Err("Index out of bounds");
        }
        let mut i: usize = self.len;
        while i > index
            invariant
                index <= i <= self.len,
                self.len == old(self).len,
                self.len < 256,
                forall|k: int| 0 <= k <= i ==> self.data@[k] == old(self).data@[k],
                forall|k: int| i < k <= self.len ==> self.data@[k] == old(self).data@[k - 1],
            decreases i,
        {
            self.data[i] = self.data[i - 1];
            i -= 1;
        }
        self.data[index] = mv;
        self.len += 1;
        assert(self@ =~= old(self)@.insert(index as int, mv));
        Ok(())
    }

    /// Takes out the move at `index`, shifting the later ones, and returns
    /// it. An index past the end changes nothing and gives the null move.
    pub fn remove(&mut self, index: usize) -> (r: Move)
        requires
            old(self).wf(),
        ensures
            final(self).wf(),
            index < old(self)@.len() ==> r == old(self)@[index as int] && final(self)@ == old(self)@.remove(index as int),
            index >= old(self)@.len() ==> r == (Move { info: 0 }) && final(self)@ == old(self)@,
    {
        if index >= self.len {
            return Move { info: 0 };
        }
        let removed = self.data[index];
        let mut i: usize = index;
        while i < self.len - 1
            invariant
                index <= i < self.len,
                self.len == old(self).len,
                self.len <= 256,
                forall|k: int| 0 <= k < index ==> self.data@[k] == old(self).data@[k],
                forall|k: int| index <= k < i ==> self.data@[k] == old(self).data@[k + 1],
                forall|k: int| i <= k < self.len ==> self.data@[k] == old(self).data@[k],
            decreases self.len - i,
        {
            self.data[i] = self.data[i + 1];
            i += 1;
        }
        self.len -= 1;
        self.data[self.len] = Move::null();
        assert(self@ =~= old(self)@.remove(index as int));
        removed
    }

    /// The number of moves held.
    pub fn len(&self) -> (r: usize)
        requires
            self.wf(),
        ensures
            r == self@.len(),
            r <= MOVE_CAPACITY,
    {
        self.len
    }

    /// Whether no move is held.
    pub fn is_empty(&self) -> (r: bool)
        requires
            self.wf(),
        ensures
            r == (self@.len() == 0),
    {
        self.len == 0
    }

    /// The move at position `index`.
    pub fn get(&self, index: usize) -> (r: Move)
        requires
            self.wf(),
            index < self@.len(),
        ensures
            r == self@[index as int],
    {
        self.data[index]
    }

    /// Replaces the move at position `index`.
    pub fn set(&mut self, index: usize, mv: Move)
        requires
            old(self).wf(),
            index < old(self)@.len(),
        ensures
            final(self).wf(),
            final(self)@ == old(self)@.update(index as int, mv),
    {
        self.data[index] = mv;
        assert(self@ =~= old(self)@.update(index as int, mv));
    }

    /// Exchanges the moves at two positions.
    pub fn swap(&mut self, i: usize, j: usize)
        requires
            old(self).wf(),
            i < old(self)@.len(),
            j < old(self)@.len(),
        ensures
            final(self).wf(),
            final(self)@ == old(self)@.update(i as int, old(self)@[j as int]).update(
                j as int,
                old(self)@[i as int],
            ),
    {
        let a = self.data[i];
        let b = self.data[j];
        self.data[i] = b;
        self.data[j] = a;
        assert(self@ =~= old(self)@.update(i as int, old(self)@[j as int]).update(
            j as int,
            old(self)@[i as int],
        ));
    }

    /// Whether `mv` is among the moves held.
    pub fn contains(&self, mv: Move) -> (r: bool)
        requires
            self.wf(),
        ensures
            r == self@.contains(mv),
    {
        let mut i: usize = 0;
        while i < self.len
            invariant
                i <= self.len <= 256,
                forall|k: int| 0 <= k < i ==> self@[k] != mv,
            decreases self.len - i,
        {
            if self.data[i] == mv {
                assert(self@[i as int] == mv);
                return true;
            }
            i += 1;
        }
        false
    }

    /// The moves held, first to last, as a vector.
    pub fn iter(&self) -> (r: Vec<Move>)
        requires
            self.wf(),
        ensures
            r@ == self@,
    {
        let mut v: Vec<Move> = Vec::new();
        let mut i: usize = 0;
        while i < self.len
            invariant
                i <= self.len <= 256,
                v@ == self@.take(i as int),
            decreases self.len - i,
        {
            v.push(self.data[i]);
            i += 1;
            assert(v@ =~= self@.take(i as int));
        }
        assert(self@.take(self.len as int) =~= self@);
        v
    }

    /// Sorts the buffer by a comparison, by a stable insertion sort: each
    /// move goes behind the last move before it that does not compare
    /// greater, so that moves that compare equal keep their order. See
    /// [`arranged_by`].
    pub fn sort_by<F: Fn(&Move, &Move) -> Ordering>(&mut self, compare: F)
        requires
            old(self).wf(),
            forall|a: Move, b: Move| compare.requires((&a, &b)),
        ensures
            final(self).wf(),
            exists|places: Seq<int>| #[trigger]
                arranged_by(compare, old(self)@, places) && final(self)@ == placed(
                    old(self)@,
                    places,
                ),
    {
        let n = self.len;
        let ghost all = self@;
        let ghost mut places: Seq<int> = Seq::empty();
        let mut i: usize = 0;
        proof {
            assert(self.data@.take(0) =~= placed(all.take(0), places));
        }
        while i < n
            invariant
                i <= n,
                n == self.len,
                n <= 256,
                all.len() == n,
                places.len() == i,
                forall|a: Move, b: Move| compare.requires((&a, &b)),
                self.data@.take(count_of(i)) == placed(all.take(count_of(i)), places),
                forall|j: int| i <= j < n ==> self.data@[j] == all[j],
                forall|t: int|
                    0 <= t < i ==> arranged_place(
                        compare,
                        placed(all.take(t), places.take(t)),
                        all[t],
                        #[trigger] places[t],
                    ),
            decreases n - i,
        {
            let x = self.data[i];
            let ghost front = self.data@.take(count_of(i));
            let mut j: usize = i;
            let mut open = true;
            while j > 0 && open
                invariant
                    j <= i < n,
                    n == self.len,
                    n <= 256,
                    front.len() == i,
                    forall|a: Move, b: Move| compare.requires((&a, &b)),
                    forall|t: int| 0 <= t < j ==> self.data@[t] == front[t],
                    forall|t: int| j < t <= i ==> self.data@[t] == front[t - 1],
                    forall|t: int|
                        j <= t < i ==> compare.ensures(
                            (&#[trigger] front[t], &x),
                            Ordering::Greater,
                        ),
                    !open ==> j > 0 && exists|o: Ordering|
                        o != Ordering::Greater && #[trigger] compare.ensures(
                            (&front[j - 1], &x),
                            o,
                        ),
                    forall|t: int| i < t < n ==> self.data@[t] == all[t],
                decreases j + (if open { 1int } else { 0int }),
            {
                let prev = self.data[j - 1];
                assert(prev == front[j - 1]);
                match compare(&prev, &x) {
                    Ordering::Greater => {
                        self.data[j] = prev;
                        j -= 1;
                    },
                    other => {
                        assert(other != Ordering::Greater && compare.ensures((&front[j - 1], &x), other));
                        open = false;
                    },
                }
            }
            self.data[j] = x;
            proof {
                let next = places.push(count_of(j));
                assert(self.data@.take(i + 1) =~= front.insert(count_of(j), x));
                assert(all.take(i + 1).drop_last() =~= all.take(count_of(i)));
                assert(all.take(i + 1).last() == x);
                assert(next.drop_last() =~= places);
                assert(arranged_place(compare, front, x, count_of(j)));
                assert forall|t: int| 0 <= t < i + 1 implies arranged_place(
                    compare,
                    placed(all.take(t), next.take(t)),
                    all[t],
                    #[trigger] next[t],
                ) by {
                    assert(next.take(t) =~= places.take(t));
                    if t == i {
                        assert(places.take(t) =~= places);
                    } else {
                        assert(next[t] == places[t]);
                    }
                }
                places = next;
            }
            i += 1;
        }
        proof {
            assert(all.take(count_of(n)) =~= all);
            assert(self.data@.take(count_of(n)) == self@);
            assert(arranged_by(compare, all, places));
        }
    }

    /// Sorts the buffer by the given scores, highest first; moves of
    /// equal score keep their order.
    pub fn reorder(&mut self, scores: &Vec<i32>)
        requires
            old(self).wf(),
            scores@.len() == old(self)@.len(),
        ensures
            final(self).wf(),
            final(self)@ == reordered(old(self)@, to_ints(scores@)),
    {
        let n = self.len;
        let ghost moves = self@;
        let ghost ints = to_ints(scores@);
        let ghost pairs = with_scores(moves, ints);
        let mut out = MoveStack::new();
        let mut out_scores: Vec<i32> = Vec::new();
        let ghost mut sorted: Seq<(int, Move)> = Seq::empty();
        let mut i: usize = 0;
        while i < n
            invariant
                i <= n,
                n == self.len,
                n <= 256,
                self@ == moves,
                moves.len() == n,
                ints == to_ints(scores@),
                ints.len() == n,
                pairs == with_scores(moves, ints),
                out.wf(),
                out@.len() == i,
                out_scores@.len() == i,
                sorted.len() == i,
                sorted == sort_scored(pairs.take(i as int)),
                forall|j: int| 0 <= j < i ==> sorted[j] == (out_scores@[j] as int, out@[j]),
            decreases n - i,
        {
            let m = self.data[i];
            let s = scores[i];
            let ghost x = (s as int, m);
            let ghost done = sorted;
            proof {
                assert(self@[i as int] == m);
                assert(pairs[i as int] == x);
                assert(pairs.take(i + 1).drop_last() =~= pairs.take(i as int));
                assert(pairs.take(i + 1).last() == x);
                assert(done.take(i as int) =~= done);
                assert(insert_scored(done, x) + done.subrange(i as int, i as int) =~= insert_scored(
                    done,
                    x,
                ));
            }
            let mut at: usize = i;
            while at > 0 && out_scores[at - 1] < s
                invariant
                    at <= i,
                    i < 256,
                    out.wf(),
                    out@.len() == i,
                    out_scores@.len() == i,
                    done.len() == i,
                    x == (s as int, m),
                    forall|j: int| 0 <= j < i ==> done[j] == (out_scores@[j] as int, out@[j]),
                    insert_scored(done, x) == insert_scored(done.take(at as int), x)
                        + done.subrange(at as int, i as int),
                decreases at,
            {
                proof {
                    let head = done.take(at as int);
                    assert(head.last() == done[at - 1]);
                    assert(head.drop_last() =~= done.take(at - 1));
                    assert(insert_scored(done.take(at - 1), x).push(done[at - 1]) + done.subrange(
                        at as int,
                        i as int,
                    ) =~= insert_scored(done.take(at - 1), x) + done.subrange(at - 1, i as int));
                }
                at -= 1;
            }
            proof {
                let head = done.take(at as int);
                if at > 0 {
                    assert(head.last() == done[at - 1]);
                } else {
                    assert(head =~= Seq::<(int, Move)>::empty());
                }
                assert(insert_scored(head, x) =~= head.push(x));
                assert(head.push(x) + done.subrange(at as int, i as int) =~= done.insert(
                    at as int,
                    x,
                ));
                sorted = done.insert(at as int, x);
            }
            let _ = out.insert(at, m);
            out_scores.insert(at, s);
            i += 1;
        }
        proof {
            assert(pairs.take(n as int) =~= pairs);
            assert(out@ =~= moves_of(sorted));
        }
        *self = out;
    }

    /// Keeps the moves that `f` accepts, in their order, and drops the
    /// others. `f` is asked once for each move, first to last.
    pub fn retain<F: Fn(&Move) -> bool>(&mut self, f: F)
        requires
            old(self).wf(),
            forall|m: Move| f.requires((&m,)),
        ensures
            final(self).wf(),
            exists|keep: Seq<bool>| #[trigger]
                answered_by(f, old(self)@, keep) && final(self)@ == kept(old(self)@, keep),
    {
        let n = self.len;
        let ghost all = self@;
        let ghost mut keep: Seq<bool> = Seq::empty();
        let mut new_len: usize = 0;
        let mut i: usize = 0;
        while i < n
            invariant
                new_len <= i <= n,
                n == self.len,
                n <= 256,
                all.len() == n,
                keep.len() == i,
                forall|m: Move| f.requires((&m,)),
                forall|j: int| 0 <= j < i ==> f.ensures((&all[j],), #[trigger] keep[j]),
                forall|j: int| i <= j < n ==> self.data@[j] == all[j],
                self.data@.take(new_len as int) == kept(all.take(i as int), keep),
            decreases n - i,
        {
            let m = self.data[i];
            assert(m == all[i as int]);
            let ok = f(&m);
            proof {
                let next = keep.push(ok);
                assert(all.take(i + 1).drop_last() =~= all.take(i as int));
                assert(all.take(i + 1).last() == m);
                assert(next.drop_last() =~= keep);
                keep = next;
            }
            if ok {
                let ghost before = self.data@;
                self.data[new_len] = m;
                proof {
                    assert(self.data@.take(new_len + 1) =~= before.take(new_len as int).push(m));
                }
                new_len += 1;
            }
            i += 1;
        }
        let mut k: usize = new_len;
        while k < n
            invariant
                new_len <= k <= n,
                n <= 256,
                self.data@.take(new_len as int) == kept(all.take(n as int), keep),
            decreases n - k,
        {
            let ghost before = self.data@;
            self.data[k] = Move::null();
            proof {
                assert(self.data@.take(new_len as int) =~= before.take(new_len as int));
            }
            k += 1;
        }
        self.len = new_len;
        proof {
            assert(all.take(n as int) =~= all);
            assert(answered_by(f, all, keep));
            lemma_kept_len(all, keep);
            assert(self@ =~= kept(all, keep));
        }
    }

    /// Sorts the moves by the score that `score_fn` gives them, highest
    /// first; moves of equal score keep their order. `score_fn` is asked
    /// once for each move, first to last.
    pub fn score_moves<F: Fn(&Move) -> i32>(&mut self, score_fn: F)
        requires
            old(self).wf(),
            forall|m: Move| score_fn.requires((&m,)),
        ensures
            final(self).wf(),
            exists|scores: Seq<i32>| #[trigger]
                scored_by(score_fn, old(self)@, scores) && final(self)@ == reordered(
                    old(self)@,
                    to_ints(scores),
                ),
    {
        let n = self.len;
        let mut scores: Vec<i32> = Vec::new();
        let mut i: usize = 0;
        while i < n
            invariant
                i <= n,
                n == self.len,
                n <= 256,
                self@ == old(self)@,
                self@.len() == n,
                scores@.len() == i,
                forall|m: Move| score_fn.requires((&m,)),
                forall|j: int|
                    0 <= j < i ==> score_fn.ensures((&self@[j],), #[trigger] scores@[j]),
            decreases n - i,
        {
            let m = self.data[i];
            assert(m == self@[i as int]);
            let s = score_fn(&m);
            scores.push(s);
            i += 1;
        }
        self.reorder(&scores);
        proof {
            assert(scored_by(score_fn, old(self)@, scores@));
        }
    }

    /// Sorts the moves by the value of the piece that `captured_piece`
    /// says they take, most valuable first; a move that takes nothing
    /// counts as taking nothing of value, and moves of equal value keep
    /// their order.
    pub fn sort_by_capture_value<F: Fn(&Move) -> Option<BBPiece>>(&mut self, captured_piece: F)
        requires
            old(self).wf(),
            forall|m: Move| captured_piece.requires((&m,)),
        ensures
            final(self).wf(),
            exists|pieces: Seq<Option<BBPiece>>| #[trigger]
                valued_by(captured_piece, old(self)@, pieces) && final(self)@ == reordered(
                    old(self)@,
                    to_values(pieces),
                ),
    {
        let n = self.len;
        let mut scores: Vec<i32> = Vec::new();
        let ghost mut pieces: Seq<Option<BBPiece>> = Seq::empty();
        let mut i: usize = 0;
        while i < n
            invariant
                i <= n,
                n == self.len,
                n <= 256,
                self@ == old(self)@,
                self@.len() == n,
                scores@.len() == i,
                pieces.len() == i,
                forall|m: Move| captured_piece.requires((&m,)),
                forall|j: int|
                    0 <= j < i ==> captured_piece.ensures((&self@[j],), #[trigger] pieces[j])
                        && scores@[j] == spec_piece_value(pieces[j]),
            decreases n - i,
        {
            let m = self.data[i];
            assert(m == self@[i as int]);
            let taken = captured_piece(&m);
            let v: i32 = match taken {
                Some(p) => PIECE_VALUES[p.idx()],
                None => 0,
            };
            scores.push(v);
            proof {
                pieces = pieces.push(taken);
            }
            i += 1;
        }
        self.reorder(&scores);
        proof {
            assert(valued_by(captured_piece, old(self)@, pieces));
            assert(to_ints(scores@) =~= to_values(pieces));
        }
    }
}

} // verus!
