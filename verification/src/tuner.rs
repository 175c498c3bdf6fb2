//! What the evaluation tuner decides without arithmetic on real numbers:
//! how a line of training data is read, which positions an epoch samples,
//! and in which direction a coefficient is stepped.

use vstd::prelude::*;
use crate::board::Board;
use crate::position::Position;
use crate::fen::{board_from_bytes, fen_position, is_space, skip_spaces, scan_spaces, byte_is_space};
use crate::params::{TunableParams, PARAM_COUNT, in_limit, spec_param_limit};

verus! {

/// How a game ended, from White's side.
#[derive(Copy, Clone, Debug, PartialEq, Eq, Structural)]
pub enum Outcome {
    /// Black won: 0.
    BlackWin,
    /// Drawn: a half.
    Draw,
    /// White won: 1.
    WhiteWin,
}

impl Outcome {
    /// The result in half points: 0, 1 or 2.
    pub open spec fn spec_half_points(self) -> int {
        match self {
            Outcome::BlackWin => 0,
            Outcome::Draw => 1,
            Outcome::WhiteWin => 2,
        }
    }

    /// The result in half points: 0, 1 or 2.
    pub fn half_points(self) -> (r: u8)
        ensures
            r == self.spec_half_points(),
    {
        match self {
            Outcome::BlackWin => 0,
            Outcome::Draw => 1,
            Outcome::WhiteWin => 2,
        }
    }
}

/// The outcome that a result text names: `0` or `0.0`, `0.5`, `1` or
/// `1.0`.
pub open spec fn spec_outcome(f: Seq<u8>) -> Option<Outcome> {
    if f == seq![48u8] || f == seq![48u8, 46u8, 48u8] {
        Some(Outcome::BlackWin)
    } else if f == seq![48u8, 46u8, 53u8] {
        Some(Outcome::Draw)
    } else if f == seq![49u8] || f == seq![49u8, 46u8, 48u8] {
        Some(Outcome::WhiteWin)
    } else {
        None
    }
}

/// The outcome that the result header of a game names: `1-0`, `0-1` or
/// `1/2-1/2`.
pub open spec fn spec_header_outcome(f: Seq<u8>) -> Option<Outcome> {
    if f == seq![49u8, 45u8, 48u8] {
        Some(Outcome::WhiteWin)
    } else if f == seq![48u8, 45u8, 49u8] {
        Some(Outcome::BlackWin)
    } else if f == seq![49u8, 47u8, 50u8, 45u8, 49u8, 47u8, 50u8] {
        Some(Outcome::Draw)
    } else {
        None
    }
}

/// Whether the bytes from `start` to `end` are exactly `text`.
fn range_is(b: &[u8], start: usize, end: usize, text: &[u8]) -> (r: bool)
    requires
        start <= end <= b@.len(),
    ensures
        r == (b@.subrange(start as int, end as int) == text@),
{
    let ghost f = b@.subrange(start as int, end as int);
    if end - start != text.len() {
        return false;
    }
    let mut i: usize = 0;
    while i < text.len()
        invariant
            i <= text@.len(),
            start <= end <= b@.len(),
            end - start == text@.len(),
            f == b@.subrange(start as int, end as int),
            forall|j: int| 0 <= j < i ==> f[j] == text@[j],
        decreases text@.len() - i,
    {
        if b[start + i] != text[i] {
            assert(f[i as int] != text@[i as int]);
            return false;
        }
        i += 1;
    }
    assert(f =~= text@);
    true
}

/// The outcome that the bytes from `start` to `end` name.
fn read_outcome(b: &[u8], start: usize, end: usize) -> (r: Option<Outcome>)
    requires
        start <= end <= b@.len(),
    ensures
        r == spec_outcome(b@.subrange(start as int, end as int)),
{
    let zero = [48u8];
    let zero_point = [48u8, 46u8, 48u8];
    let half = [48u8, 46u8, 53u8];
    let one = [49u8];
    let one_point = [49u8, 46u8, 48u8];
    proof {
        assert(zero@ =~= seq![48u8]);
        assert(zero_point@ =~= seq![48u8, 46u8, 48u8]);
        assert(half@ =~= seq![48u8, 46u8, 53u8]);
        assert(one@ =~= seq![49u8]);
        assert(one_point@ =~= seq![49u8, 46u8, 48u8]);
    }
    if range_is(b, start, end, zero.as_slice()) || range_is(b, start, end, zero_point.as_slice()) {
        Some(Outcome::BlackWin)
    } else if range_is(b, start, end, half.as_slice()) {
        Some(Outcome::Draw)
    } else if range_is(b, start, end, one.as_slice()) || range_is(
        b,
        start,
        end,
        one_point.as_slice(),
    ) {
        Some(Outcome::WhiteWin)
    } else {
        None
    }
}

/// The outcome that the result header of a game names.
pub fn result_of_header(value: &[u8]) -> (r: Option<Outcome>)
    ensures
        r == spec_header_outcome(value@),
{
    let white = [49u8, 45u8, 48u8];
    let black = [48u8, 45u8, 49u8];
    let draw = [49u8, 47u8, 50u8, 45u8, 49u8, 47u8, 50u8];
    proof {
        assert(white@ =~= seq![49u8, 45u8, 48u8]);
        assert(black@ =~= seq![48u8, 45u8, 49u8]);
        assert(draw@ =~= seq![49u8, 47u8, 50u8, 45u8, 49u8, 47u8, 50u8]);
        assert(value@.subrange(0, value@.len() as int) =~= value@);
    }
    let n = value.len();
    if range_is(value, 0, n, white.as_slice()) {
        Some(Outcome::WhiteWin)
    } else if range_is(value, 0, n, black.as_slice()) {
        Some(Outcome::BlackWin)
    } else if range_is(value, 0, n, draw.as_slice()) {
        Some(Outcome::Draw)
    } else {
        None
    }
}

/// The first position at or after `i` that holds the byte `c`, or the
/// length when there is none.
pub open spec fn find_from(b: Seq<u8>, i: int, c: u8) -> int
    decreases b.len() - i,
{
    if 0 <= i < b.len() && b[i] != c {
        find_from(b, i + 1, c)
    } else {
        i
    }
}

/// The first position at or after `i` that holds the byte `c`, or the
/// length when there is none.
fn find_byte(b: &[u8], i: usize, c: u8) -> (r: usize)
    requires
        i <= b@.len(),
    ensures
        r == find_from(b@, i as int, c),
        i <= r <= b@.len(),
{
    let mut j: usize = i;
    while j < b.len() && b[j] != c
        invariant
            i <= j <= b@.len(),
            find_from(b@, i as int, c) == find_from(b@, j as int, c),
        decreases b@.len() - j,
    {
        j += 1;
    }
    j
}

/// The end of the text from `start` to `end` without the white space at
/// its end.
pub open spec fn trim_end(b: Seq<u8>, start: int, end: int) -> int
    decreases end - start,
{
    if start < end <= b.len() && is_space(b[end - 1]) {
        trim_end(b, start, end - 1)
    } else {
        end
    }
}

/// The text from `start` to `end` without the white space at its two
/// ends.
pub open spec fn trimmed(b: Seq<u8>, start: int, end: int) -> Seq<u8> {
    let s = skip_spaces(b.subrange(0, end), start);
    b.subrange(s, trim_end(b, s, end))
}

/// What a line of training data holds: a position and the outcome of the
/// game it comes from. The line is a record of a position followed by the
/// outcome in square brackets; anything else holds nothing.
pub open spec fn spec_training_line(b: Seq<u8>) -> Option<(Position, Outcome)> {
    let open = find_from(b, 0, 91);
    let close = find_from(b, open + 1, 93);
    if open >= b.len() || close >= b.len() {
        None
    } else {
        match (fen_position(b.subrange(0, open)), spec_outcome(trimmed(b, open + 1, close))) {
            (Some(p), Some(o)) => Some((p, o)),
            _ => None,
        }
    }
}

/// A position of the training data and the outcome of its game.
pub struct TrainingPosition {
    pub board: Board,
    pub result: Outcome,
}

/// Reads a line of training data; see [`spec_training_line`].
pub fn parse_training_line(line: &[u8]) -> (r: Option<TrainingPosition>)
    ensures
        match r {
            Some(t) => spec_training_line(line@) == Some((t.board@, t.result)) && t.board.wf(),
            None => spec_training_line(line@) is None,
        },
{
    let open = find_byte(line, 0, 91);
    if open >= line.len() {
        return None;
    }
    let close = find_byte(line, open + 1, 93);
    if close >= line.len() {
        return None;
    }
    let head = vstd::slice::slice_subrange(line, 0, open);
    let inner = vstd::slice::slice_subrange(line, 0, close);
    let s = scan_spaces(inner, open + 1);
    let mut e: usize = close;
    while e > s && byte_is_space(line[e - 1])
        invariant
            s <= e <= close,
            close < line@.len(),
            trim_end(line@, s as int, close as int) == trim_end(line@, s as int, e as int),
        decreases e,
    {
        e -= 1;
    }
    let outcome = read_outcome(line, s, e);
    let board = board_from_bytes(head);
    match (board, outcome) {
        (Some(b), Some(o)) => Some(TrainingPosition { board: b, result: o }),
        _ => None,
    }
}

/// A choice of `amount` of the numbers below `length`, no number twice,
/// drawn by `rand::seq::index::sample` from a generator seeded with
/// `seed`. Which numbers are chosen is left to the generator. The
/// sampler is asked for fewer numbers than there are.
#[verifier::external_body]
pub(crate) fn sample_indices(seed: u64, length: usize, amount: usize) -> (r: Vec<usize>)
    requires
        amount < length,
    ensures
        r@.len() == amount,
        forall|i: int| 0 <= i < r@.len() ==> r@[i] < length,
        r@.no_duplicates(),
{
    let mut rng = <rand::rngs::StdRng as rand::SeedableRng>::seed_from_u64(seed);
    rand::seq::index::sample(&mut rng, length, amount).into_vec()
}

/// The positions that an epoch measures the error on: all of them when
/// there are no more than `sample_size`, and else `sample_size` of them,
/// none twice, chosen by chance from `seed`.
pub fn select_sample(seed: u64, length: usize, sample_size: usize) -> (r: Vec<usize>)
    ensures
        r@.len() == (if length > sample_size {
            sample_size
        } else {
            length
        }),
        forall|i: int| 0 <= i < r@.len() ==> r@[i] < length,
        r@.no_duplicates(),
        length <= sample_size ==> forall|i: int| 0 <= i < r@.len() ==> r@[i] == i,
{
    if length > sample_size {
        sample_indices(seed, length, sample_size)
    } else {
        let mut v: Vec<usize> = Vec::new();
        let mut i: usize = 0;
        while i < length
            invariant
                i <= length,
                v@.len() == i,
                forall|j: int| 0 <= j < i ==> v@[j] == j,
            decreases length - i,
        {
            v.push(i);
            i += 1;
        }
        v
    }
}

/// How the error moves when a coefficient is raised: the slope between
/// the error a step above and the error a step below, held against the
/// learning rate.
#[derive(Copy, Clone, Debug, PartialEq, Eq, Structural)]
pub enum Trend {
    /// The slope is above the learning rate: raising the coefficient
    /// raises the error.
    Rising,
    /// The slope is below the negated learning rate: raising the
    /// coefficient lowers the error.
    Falling,
    /// The slope is within the learning rate.
    Flat,
}

/// The step that coordinate descent takes on a coefficient: one down when
/// the error rises with the coefficient and the error a step below is
/// under the base error, one up when the error falls with the coefficient
/// and the error a step above is under the base error, and none
/// otherwise.
pub open spec fn spec_param_step(trend: Trend, below_improves: bool, above_improves: bool) -> int {
    if trend == Trend::Rising && below_improves {
        -1
    } else if trend == Trend::Falling && above_improves {
        1
    } else {
        0
    }
}

/// The step that coordinate descent takes on a coefficient.
pub fn param_step(trend: Trend, below_improves: bool, above_improves: bool) -> (r: i32)
    ensures
        r == spec_param_step(trend, below_improves, above_improves),
{
    match trend {
        Trend::Rising => if below_improves {
            -1
        } else {
            0
        },
        Trend::Falling => if above_improves {
            1
        } else {
            0
        },
        Trend::Flat => 0,
    }
}

/// Steps coefficient number `index` by `step` and answers whether it did:
/// the step is taken exactly when the stepped coefficient is still within
/// its limit, and otherwise nothing changes.
pub fn update_param_by_field(params: &mut TunableParams, index: usize, step: i32) -> (r: bool)
    requires
        index < PARAM_COUNT,
        old(params).wf(),
        -1 <= step <= 1,
    ensures
        final(params).wf(),
        r == in_limit(old(params).spec_get(index as int) + step, spec_param_limit(index as int)),
        r ==> forall|i: int|
            0 <= i < PARAM_COUNT ==> #[trigger] final(params).spec_get(i) == (if i == index {
                (old(params).spec_get(i) + step) as i32
            } else {
                old(params).spec_get(i)
            }),
        !r ==> *final(params) == *old(params),
{
    let before = *params;
    let value = params.get_param_value(index);
    proof {
        before.lemma_wf_by_number();
        assert(in_limit(before.spec_get(index as int) as int, spec_param_limit(index as int)));
    }
    params.set_param_value(index, value + step);
    proof {
        params.lemma_wf_by_number();
        if in_limit(value + step, spec_param_limit(index as int)) {
            assert forall|i: int| 0 <= i < PARAM_COUNT implies in_limit(
                #[trigger] params.spec_get(i) as int,
                spec_param_limit(i),
            ) by {
                assert(in_limit(before.spec_get(i) as int, spec_param_limit(i)));
            }
        } else {
            assert(params.spec_get(index as int) == value + step);
        }
    }
    if params.is_wf() {
        true
    } else {
        *params = before;
        false
    }
}

} // verus!
