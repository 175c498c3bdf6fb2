//! Sixty-four-bit square sets.
//!
//! A bitboard is a `u64` in which bit `i` stands for square `i`. Everything
//! the rest of the crate says about a bitboard is said through [`member`]: which
//! squares it holds.

use vstd::prelude::*;
use vstd::std_specs::bits::axiom_u64_trailing_zeros;

verus! {

/// Bit `i` of `bb`, for `i < 64`.
pub open spec fn bit_at(bb: u64, i: u64) -> bool {
    (bb >> i) & 1 == 1
}

/// Whether square `sq` is a member of the set `bb`. No square outside
/// `0..64` is a member of anything.
pub open spec fn member(bb: u64, sq: int) -> bool {
    0 <= sq < 64 && bit_at(bb, sq as u64)
}

/// The number of members of `bb` among the squares below `n`.
pub open spec fn count_below(bb: u64, n: int) -> nat
    decreases n,
{
    if n <= 0 {
        0
    } else {
        count_below(bb, n - 1) + if member(bb, n - 1) { 1nat } else { 0nat }
    }
}

/// The number of members of `bb`.
pub open spec fn popcount(bb: u64) -> nat {
    count_below(bb, 64)
}

/// How the bitwise operators act on single bits.
pub proof fn lemma_bit_ops()
    by (bit_vector)
    ensures
        forall|a: u64, b: u64, i: u64|
            i < 64 ==> #[trigger] bit_at(a & b, i) == (bit_at(a, i) && bit_at(b, i)),
        forall|a: u64, b: u64, i: u64|
            i < 64 ==> #[trigger] bit_at(a | b, i) == (bit_at(a, i) || bit_at(b, i)),
        forall|a: u64, b: u64, i: u64|
            i < 64 ==> #[trigger] bit_at(a ^ b, i) == (bit_at(a, i) != bit_at(b, i)),
        forall|a: u64, i: u64| i < 64 ==> #[trigger] bit_at(!a, i) == !bit_at(a, i),
        forall|j: u64, i: u64| i < 64 && j < 64 ==> #[trigger] bit_at(1u64 << j, i) == (i == j),
        forall|i: u64| i < 64 ==> !#[trigger] bit_at(0u64, i),
{
}

/// How the shifts move single bits.
pub proof fn lemma_bit_shifts()
    by (bit_vector)
    ensures
        forall|a: u64, k: u64, i: u64|
            i < 64 && k < 64 ==> #[trigger] bit_at(a << k, i) == (i >= k && bit_at(a, (i - k) as u64)),
        forall|a: u64, k: u64, i: u64|
            i < 64 && k < 64 ==> #[trigger] bit_at(a >> k, i) == (i + k < 64 && bit_at(a, (i + k) as u64)),
{
}

spec fn low_bits(a: u64, n: u64) -> u64 {
    a & (((1u64 << n) - 1) as u64)
}

proof fn lemma_low_bits_step(a: u64, b: u64, n: u64)
    by (bit_vector)
    requires
        n < 63,
        low_bits(a, n) == low_bits(b, n),
        bit_at(a, n) == bit_at(b, n),
    ensures
        low_bits(a, (n + 1) as u64) == low_bits(b, (n + 1) as u64),
{
}

proof fn lemma_low_bits_end(a: u64, b: u64)
    by (bit_vector)
    requires
        low_bits(a, 63) == low_bits(b, 63),
        bit_at(a, 63) == bit_at(b, 63),
    ensures
        a == b,
        low_bits(a, 0) == low_bits(b, 0),
{
}

proof fn lemma_low_bits_agree(a: u64, b: u64, n: u64)
    requires
        n <= 63,
        forall|s: int| 0 <= s < 64 ==> member(a, s) == member(b, s),
    ensures
        low_bits(a, n) == low_bits(b, n),
    decreases n,
{
    if n == 0 {
        assert(low_bits(a, 0) == low_bits(b, 0)) by (bit_vector);
    } else {
        let m = (n - 1) as u64;
        lemma_low_bits_agree(a, b, m);
        assert(member(a, m as int) == member(b, m as int));
        lemma_low_bits_step(a, b, m);
    }
}

/// Two bitboards with the same members are the same word.
pub proof fn lemma_bits_equal(a: u64, b: u64)
    requires
        forall|s: int| 0 <= s < 64 ==> member(a, s) == member(b, s),
    ensures
        a == b,
{
    lemma_low_bits_agree(a, b, 63);
    assert(member(a, 63) == member(b, 63));
    lemma_low_bits_end(a, b);
}

/// A bitboard without members is zero, and zero has no members.
pub proof fn lemma_zero_iff_empty(a: u64)
    ensures
        a == 0 <==> (forall|s: int| 0 <= s < 64 ==> !member(a, s)),
{
    lemma_bit_ops();
    if forall|s: int| 0 <= s < 64 ==> !member(a, s) {
        lemma_bits_equal(a, 0);
    }
}

/// Membership test. Squares are `0..64`.
pub fn bb_get(bb: u64, square: usize) -> (r: bool)
    requires
        square < 64,
    ensures
        r == member(bb, square as int),
{
    let i: u64 = square as u64;
    assert(((bb & (1u64 << i)) != 0) == bit_at(bb, i)) by (bit_vector)
        requires
            i < 64,
    ;
    (bb & (1u64 << i)) != 0
}

/// Puts `square` into the set, or takes it out, and leaves every other
/// square as it was.
pub fn bb_set(bb: &mut u64, square: usize, value: bool)
    requires
        square < 64,
    ensures
        forall|s: int|
            0 <= s < 64 ==> member(*final(bb), s) == (if s == square {
                value
            } else {
                member(*old(bb), s)
            }),
{
    proof {
        lemma_bit_ops();
    }
    let m: u64 = 1u64 << (square as u64);
    if value {
        *bb |= m;
    } else {
        *bb &= !m;
    }
}

/// The bitboard that holds `square` alone.
pub fn bb_single(square: usize) -> (r: u64)
    requires
        square < 64,
    ensures
        forall|s: int| 0 <= s < 64 ==> member(r, s) == (s == square),
{
    proof {
        lemma_bit_ops();
    }
    1u64 << (square as u64)
}

/// Takes the lowest member out of the set and returns it; returns 64, and
/// changes nothing, when the set is empty.
pub fn bb_gs_low_bit(bb: &mut u64) -> (r: usize)
    ensures
        *old(bb) == 0 ==> r == 64 && *final(bb) == 0,
        *old(bb) != 0 ==> r < 64 && member(*old(bb), r as int),
        forall|s: int| 0 <= s < r && s < 64 ==> !member(*old(bb), s),
        forall|s: int| 0 <= s < 64 ==> member(*final(bb), s) == (member(*old(bb), s) && s != r),
{
    let v: u64 = *bb;
    proof {
        lemma_bit_ops();
        axiom_u64_trailing_zeros(v);
    }
    if v == 0 {
        return 64;
    }
    let tz: u32 = v.trailing_zeros();
    let low: u64 = tz as u64;
    *bb = v & !(1u64 << low);
    assert forall|s: int| 0 <= s < low implies !member(v, s) by {
        assert((v >> (s as u64)) & 1u64 == 0u64);
    }
    low as usize
}

/// Number of members, by the processor's population count.
pub assume_specification[ u64::count_ones ](bb: u64) -> (r: u32)
    ensures
        r as nat == popcount(bb),
;

/// A population count is at most 64.
pub proof fn lemma_count_below_bound(bb: u64, n: int)
    requires
        0 <= n,
    ensures
        count_below(bb, n) <= n,
    decreases n,
{
    if n > 0 {
        lemma_count_below_bound(bb, n - 1);
    }
}

/// Taking one member out of a set lowers its population count by one.
pub proof fn lemma_count_drop(a: u64, b: u64, k: int)
    requires
        0 <= k < 64,
        member(a, k),
        forall|s: int| 0 <= s < 64 ==> member(b, s) == (member(a, s) && s != k),
    ensures
        popcount(a) == popcount(b) + 1,
{
    lemma_count_drop_below(a, b, k, 64);
}

proof fn lemma_count_drop_below(a: u64, b: u64, k: int, n: int)
    requires
        0 <= k < 64,
        0 <= n <= 64,
        member(a, k),
        forall|s: int| 0 <= s < 64 ==> member(b, s) == (member(a, s) && s != k),
    ensures
        count_below(a, n) == count_below(b, n) + if k < n {
            1nat
        } else {
            0nat
        },
    decreases n,
{
    if n > 0 {
        lemma_count_drop_below(a, b, k, n - 1);
    }
}

/// Every square but those of the a-file.
pub const NOT_A_FILE: u64 = 0xfefe_fefe_fefe_fefe;

/// Every square but those of the h-file.
pub const NOT_H_FILE: u64 = 0x7f7f_7f7f_7f7f_7f7f;

/// The third rank.
pub const RANK_3: u64 = 0x0000_0000_00ff_0000;

/// The sixth rank.
pub const RANK_6: u64 = 0x0000_ff00_0000_0000;

/// What the file and rank masks hold.
pub proof fn lemma_masks()
    by (bit_vector)
    ensures
        forall|i: u64| i < 64 ==> #[trigger] bit_at(0xfefe_fefe_fefe_fefeu64, i) == (i % 8 != 0),
        forall|i: u64| i < 64 ==> #[trigger] bit_at(0x7f7f_7f7f_7f7f_7f7fu64, i) == (i % 8 != 7),
        forall|i: u64| i < 64 ==> #[trigger] bit_at(0x0000_0000_00ff_0000u64, i) == (16 <= i < 24),
        forall|i: u64| i < 64 ==> #[trigger] bit_at(0x0000_ff00_0000_0000u64, i) == (40 <= i < 48),
{
}

/// Shifts a bitboard towards the higher squares when `up` is set, towards
/// the lower ones when it is not.
pub fn bb_shift(bb: u64, k: u32, up: bool) -> (r: u64)
    requires
        k < 64,
    ensures
        forall|t: int|
            0 <= t < 64 ==> #[trigger] member(r, t) == (if up {
                t >= k && member(bb, t - k)
            } else {
                t + k < 64 && member(bb, t + k)
            }),
{
    proof {
        lemma_bit_shifts();
    }
    let r = if up {
        bb << k
    } else {
        bb >> k
    };
    proof {
        assert forall|t: int| 0 <= t < 64 implies #[trigger] member(r, t) == (if up {
            t >= k && member(bb, t - k)
        } else {
            t + k < 64 && member(bb, t + k)
        }) by {
            let i = t as u64;
            let kk = k as u64;
            if up {
                assert(bit_at(bb << kk, i) == (i >= kk && bit_at(bb, (i - kk) as u64)));
            } else {
                assert(bit_at(bb >> kk, i) == (i + kk < 64 && bit_at(bb, (i + kk) as u64)));
            }
        }
    }
    r
}

/// The sum of `f` over the members of `bb` below `n`.
pub open spec fn sum_members(bb: u64, f: spec_fn(int) -> int, n: int) -> int
    decreases n,
{
    if n <= 0 {
        0
    } else {
        sum_members(bb, f, n - 1) + if member(bb, n - 1) {
            f(n - 1)
        } else {
            0
        }
    }
}

/// Taking one member out of a set takes its term out of the sum.
pub proof fn lemma_sum_drop(a: u64, b: u64, k: int, f: spec_fn(int) -> int, n: int)
    requires
        0 <= k < 64,
        0 <= n <= 64,
        member(a, k),
        forall|s: int| 0 <= s < 64 ==> member(b, s) == (member(a, s) && s != k),
    ensures
        sum_members(a, f, n) == sum_members(b, f, n) + if k < n {
            f(k)
        } else {
            0
        },
    decreases n,
{
    if n > 0 {
        lemma_sum_drop(a, b, k, f, n - 1);
    }
}

/// The sum over the empty set is zero.
pub proof fn lemma_sum_empty(f: spec_fn(int) -> int, n: int)
    requires
        0 <= n <= 64,
    ensures
        sum_members(0, f, n) == 0,
    decreases n,
{
    lemma_bit_ops();
    if n > 0 {
        lemma_sum_empty(f, n - 1);
    }
}

/// A sum of terms between `lo` and `hi` lies between `n` times `lo` and
/// `n` times `hi`.
pub proof fn lemma_sum_bound(bb: u64, f: spec_fn(int) -> int, n: int, lo: int, hi: int)
    requires
        0 <= n <= 64,
        lo <= 0 <= hi,
        forall|s: int| 0 <= s < 64 ==> lo <= #[trigger] f(s) <= hi,
    ensures
        n * lo <= sum_members(bb, f, n) <= n * hi,
    decreases n,
{
    if n > 0 {
        lemma_sum_bound(bb, f, n - 1, lo, hi);
        assert((n - 1) * lo + lo == n * lo) by (nonlinear_arith);
        assert((n - 1) * hi + hi == n * hi) by (nonlinear_arith);
        assert(lo <= f(n - 1) <= hi);
    } else {
        assert(0 * lo == 0 && 0 * hi == 0) by (nonlinear_arith);
    }
}

/// The lowest member of `bb` at or above `i`, or 64 when there is none.
pub open spec fn lowest_from(bb: u64, i: int) -> int
    decreases 64 - i,
{
    if i >= 64 {
        64
    } else if member(bb, i) {
        i
    } else {
        lowest_from(bb, i + 1)
    }
}

/// A square below which `bb` has no member, and which is a member or 64,
/// is the lowest member.
pub proof fn lemma_lowest(bb: u64, r: int, i: int)
    requires
        0 <= i <= r <= 64,
        r < 64 ==> member(bb, r),
        forall|s: int| i <= s < r ==> !member(bb, s),
    ensures
        lowest_from(bb, i) == r,
    decreases r - i,
{
    if i < r {
        lemma_lowest(bb, r, i + 1);
    }
}

} // verus!
