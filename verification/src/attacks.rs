//! Which squares a piece on a given square attacks.
//!
//! Knights and kings leap; rooks, bishops and queens slide along rays until
//! the first occupied square, which they still attack.

use vstd::prelude::*;
use crate::bits::{member, lemma_bit_ops, bb_get};
use crate::square::{file_of, rank_of, on_board};

verus! {

/// `k` steps in a direction of sign `s`.
pub open spec fn step_mul(k: int, s: int) -> int {
    if s > 0 {
        k
    } else if s < 0 {
        -k
    } else {
        0
    }
}

/// The square `k` steps from `s` in the direction `(sf, sr)`, or `-1` when
/// that leaves the board.
pub open spec fn ray_square(s: int, k: int, sf: int, sr: int) -> int {
    let f = file_of(s) + step_mul(k, sf);
    let r = rank_of(s) + step_mul(k, sr);
    if 0 <= f < 8 && 0 <= r < 8 {
        r * 8 + f
    } else {
        -1
    }
}

/// No square strictly between `s` and the `k`-th square of the ray is
/// occupied.
pub open spec fn ray_clear(s: int, k: int, occ: u64, sf: int, sr: int) -> bool {
    forall|j: int| 1 <= j < k ==> !member(occ, #[trigger] ray_square(s, j, sf, sr))
}

/// `t` lies on the ray from `s` in direction `(sf, sr)` and nothing stands
/// between the two.
pub open spec fn ray_reaches(s: int, t: int, occ: u64, sf: int, sr: int) -> bool {
    on_board(t) && exists|k: int|
        1 <= k < 8 && #[trigger] ray_square(s, k, sf, sr) == t && ray_clear(s, k, occ, sf, sr)
}

/// A rook on `s` attacks `t` when the board is occupied as `occ` says.
pub open spec fn rook_reaches(s: int, t: int, occ: u64) -> bool {
    ray_reaches(s, t, occ, 1, 0) || ray_reaches(s, t, occ, -1, 0) || ray_reaches(s, t, occ, 0, 1)
        || ray_reaches(s, t, occ, 0, -1)
}

/// A bishop on `s` attacks `t` when the board is occupied as `occ` says.
pub open spec fn bishop_reaches(s: int, t: int, occ: u64) -> bool {
    ray_reaches(s, t, occ, 1, 1) || ray_reaches(s, t, occ, -1, -1) || ray_reaches(s, t, occ, 1, -1)
        || ray_reaches(s, t, occ, -1, 1)
}

/// A knight on `s` attacks `t`.
pub open spec fn knight_reaches(s: int, t: int) -> bool {
    let df = file_of(t) - file_of(s);
    let dr = rank_of(t) - rank_of(s);
    on_board(s) && on_board(t) && (((df == 1 || df == -1) && (dr == 2 || dr == -2)) || ((df == 2
        || df == -2) && (dr == 1 || dr == -1)))
}

/// A king on `s` attacks `t`.
pub open spec fn king_reaches(s: int, t: int) -> bool {
    let df = file_of(t) - file_of(s);
    let dr = rank_of(t) - rank_of(s);
    on_board(s) && on_board(t) && s != t && -1 <= df <= 1 && -1 <= dr <= 1
}

/// What a piece of the given kind on `s` attacks; `orth` and `diag` say
/// along which lines it slides.
pub open spec fn slider_reaches(s: int, t: int, occ: u64, orth: bool, diag: bool) -> bool {
    (orth && rook_reaches(s, t, occ)) || (diag && bishop_reaches(s, t, occ))
}

/// A ray walked backwards is the same ray: if `t` is seen from `s`, then
/// `s` is seen from `t` in the opposite direction.
pub proof fn lemma_ray_symmetric(s: int, t: int, occ: u64, sf: int, sr: int)
    requires
        on_board(s),
        -1 <= sf <= 1,
        -1 <= sr <= 1,
        ray_reaches(s, t, occ, sf, sr),
    ensures
        ray_reaches(t, s, occ, -sf, -sr),
{
    let k = choose|k: int|
        1 <= k < 8 && #[trigger] ray_square(s, k, sf, sr) == t && ray_clear(s, k, occ, sf, sr);
    assert(ray_square(t, k, -sf, -sr) == s);
    assert forall|j: int| 1 <= j < k implies !member(occ, #[trigger] ray_square(t, j, -sf, -sr)) by {
        assert(ray_square(t, j, -sf, -sr) == ray_square(s, k - j, sf, sr));
    }
}

/// Bishop attacks are mutual: on one and the same occupancy, a bishop on
/// `s` attacks `t` exactly when a bishop on `t` attacks `s`.
pub proof fn lemma_bishop_symmetric(s: int, t: int, occ: u64)
    requires
        on_board(s),
        on_board(t),
    ensures
        bishop_reaches(s, t, occ) == bishop_reaches(t, s, occ),
{
    if ray_reaches(s, t, occ, 1, 1) {
        lemma_ray_symmetric(s, t, occ, 1, 1);
    }
    if ray_reaches(s, t, occ, -1, -1) {
        lemma_ray_symmetric(s, t, occ, -1, -1);
    }
    if ray_reaches(s, t, occ, 1, -1) {
        lemma_ray_symmetric(s, t, occ, 1, -1);
    }
    if ray_reaches(s, t, occ, -1, 1) {
        lemma_ray_symmetric(s, t, occ, -1, 1);
    }
    if ray_reaches(t, s, occ, 1, 1) {
        lemma_ray_symmetric(t, s, occ, 1, 1);
    }
    if ray_reaches(t, s, occ, -1, -1) {
        lemma_ray_symmetric(t, s, occ, -1, -1);
    }
    if ray_reaches(t, s, occ, 1, -1) {
        lemma_ray_symmetric(t, s, occ, 1, -1);
    }
    if ray_reaches(t, s, occ, -1, 1) {
        lemma_ray_symmetric(t, s, occ, -1, 1);
    }
}

/// Rook attacks are mutual in the same way.
pub proof fn lemma_rook_symmetric(s: int, t: int, occ: u64)
    requires
        on_board(s),
        on_board(t),
    ensures
        rook_reaches(s, t, occ) == rook_reaches(t, s, occ),
{
    if ray_reaches(s, t, occ, 1, 0) {
        lemma_ray_symmetric(s, t, occ, 1, 0);
    }
    if ray_reaches(s, t, occ, -1, 0) {
        lemma_ray_symmetric(s, t, occ, -1, 0);
    }
    if ray_reaches(s, t, occ, 0, 1) {
        lemma_ray_symmetric(s, t, occ, 0, 1);
    }
    if ray_reaches(s, t, occ, 0, -1) {
        lemma_ray_symmetric(s, t, occ, 0, -1);
    }
    if ray_reaches(t, s, occ, 1, 0) {
        lemma_ray_symmetric(t, s, occ, 1, 0);
    }
    if ray_reaches(t, s, occ, -1, 0) {
        lemma_ray_symmetric(t, s, occ, -1, 0);
    }
    if ray_reaches(t, s, occ, 0, 1) {
        lemma_ray_symmetric(t, s, occ, 0, 1);
    }
    if ray_reaches(t, s, occ, 0, -1) {
        lemma_ray_symmetric(t, s, occ, 0, -1);
    }
}

/// Knight and king attacks are mutual.
pub proof fn lemma_leaper_symmetric(s: int, t: int)
    ensures
        knight_reaches(s, t) == knight_reaches(t, s),
        king_reaches(s, t) == king_reaches(t, s),
{
}

/// The squares seen from `sq` along one ray.
fn ray_attacks(sq: usize, occ: u64, sf: i32, sr: i32) -> (res: u64)
    requires
        sq < 64,
        -1 <= sf <= 1,
        -1 <= sr <= 1,
        sf != 0 || sr != 0,
    ensures
        forall|t: int|
            0 <= t < 64 ==> #[trigger] member(res, t) == ray_reaches(
                sq as int,
                t,
                occ,
                sf as int,
                sr as int,
            ),
{
    let mut f: i32 = (sq % 8) as i32;
    let mut r: i32 = (sq / 8) as i32;
    let mut res: u64 = 0;
    let mut k: i32 = 1;
    let mut open: bool = true;
    proof {
        lemma_bit_ops();
    }
    let ghost s = sq as int;
    let ghost gf = sf as int;
    let ghost gr = sr as int;
    while open
        invariant
            1 <= k <= 8,
            sq < 64,
            s == sq,
            gf == sf,
            gr == sr,
            -1 <= sf <= 1,
            -1 <= sr <= 1,
            sf != 0 || sr != 0,
            f == file_of(s) + step_mul(k - 1, gf),
            r == rank_of(s) + step_mul(k - 1, gr),
            0 <= f < 8,
            0 <= r < 8,
            open ==> ray_clear(s, k as int, occ, gf, gr),
            open ==> k <= 7,
            forall|j: int| 1 <= j < k ==> on_board(#[trigger] ray_square(s, j, gf, gr)),
            !open ==> forall|j: int|
                k <= j < 8 ==> !(on_board(#[trigger] ray_square(s, j, gf, gr)) && ray_clear(
                    s,
                    j,
                    occ,
                    gf,
                    gr,
                )),
            forall|t: int|
                0 <= t < 64 ==> member(res, t) == (exists|j: int|
                    1 <= j < k && #[trigger] ray_square(s, j, gf, gr) == t && ray_clear(
                        s,
                        j,
                        occ,
                        gf,
                        gr,
                    )),
        decreases (if open { 1int } else { 0int }), 8 - k,
    {
        let nf: i32 = f + sf;
        let nr: i32 = r + sr;
        if nf < 0 || nf > 7 || nr < 0 || nr > 7 {
            open = false;
            proof {
                assert(ray_square(s, k as int, gf, gr) == -1);
                assert forall|j: int| k <= j < 8 implies !(on_board(
                    #[trigger] ray_square(s, j, gf, gr),
                ) && ray_clear(s, j, occ, gf, gr)) by {
                    assert(ray_square(s, j, gf, gr) == -1);
                }
            }
        } else {
            let t: usize = (nr * 8 + nf) as usize;
            let ghost prev = res;
            let ghost kk = k as int;
            assert(ray_square(s, kk, gf, gr) == t);
            res = res | (1u64 << (t as u64));
            let blocked = bb_get(occ, t);
            f = nf;
            r = nr;
            k = k + 1;
            proof {
                lemma_bit_ops();
                assert forall|x: int| 0 <= x < 64 implies member(res, x) == (exists|j: int|
                    1 <= j < k && #[trigger] ray_square(s, j, gf, gr) == x && ray_clear(
                        s,
                        j,
                        occ,
                        gf,
                        gr,
                    )) by {
                    assert(member(res, x) == (member(prev, x) || x == t));
                    if x == t {
                        assert(ray_square(s, kk, gf, gr) == x && ray_clear(s, kk, occ, gf, gr));
                    }
                }
            }
            if blocked || k == 8 {
                open = false;
                proof {
                    assert forall|j: int| k <= j < 8 implies !(on_board(
                        #[trigger] ray_square(s, j, gf, gr),
                    ) && ray_clear(s, j, occ, gf, gr)) by {
                        if ray_clear(s, j, occ, gf, gr) {
                            assert(!member(occ, ray_square(s, kk, gf, gr)));
                        }
                    }
                }
            } else {
                proof {
                    assert forall|j: int| 1 <= j < k implies !member(
                        occ,
                        #[trigger] ray_square(s, j, gf, gr),
                    ) by {
                        if j < kk {
                            assert(ray_clear(s, kk, occ, gf, gr));
                        }
                    }
                }
            }
        }
    }
    proof {
        assert forall|t: int| 0 <= t < 64 implies member(res, t) == ray_reaches(
            s,
            t,
            occ,
            gf,
            gr,
        ) by {
            if ray_reaches(s, t, occ, gf, gr) {
                let j = choose|j: int|
                    1 <= j < 8 && #[trigger] ray_square(s, j, gf, gr) == t && ray_clear(
                        s,
                        j,
                        occ,
                        gf,
                        gr,
                    );
                assert(j < k);
            }
        }
    }
    res
}

/// The squares a rook on `square` attacks.
pub fn rook_attacks(square: usize, occupancy: u64) -> (r: u64)
    requires
        square < 64,
    ensures
        forall|t: int|
            0 <= t < 64 ==> #[trigger] member(r, t) == rook_reaches(square as int, t, occupancy),
{
    proof {
        lemma_bit_ops();
    }
    let a = ray_attacks(square, occupancy, 1, 0);
    let b = ray_attacks(square, occupancy, -1, 0);
    let c = ray_attacks(square, occupancy, 0, 1);
    let d = ray_attacks(square, occupancy, 0, -1);
    let ab = a | b;
    let cd = c | d;
    let r = ab | cd;
    proof {
        assert forall|t: int| 0 <= t < 64 implies #[trigger] member(r, t) == (member(a, t)
            || member(b, t) || member(c, t) || member(d, t)) by {
            assert(member(r, t) == (member(ab, t) || member(cd, t)));
        }
    }
    r
}

/// The squares a bishop on `square` attacks.
pub fn bishop_attacks(square: usize, occupancy: u64) -> (r: u64)
    requires
        square < 64,
    ensures
        forall|t: int|
            0 <= t < 64 ==> #[trigger] member(r, t) == bishop_reaches(square as int, t, occupancy),
{
    proof {
        lemma_bit_ops();
    }
    let a = ray_attacks(square, occupancy, 1, 1);
    let b = ray_attacks(square, occupancy, -1, -1);
    let c = ray_attacks(square, occupancy, 1, -1);
    let d = ray_attacks(square, occupancy, -1, 1);
    let ab = a | b;
    let cd = c | d;
    let r = ab | cd;
    proof {
        assert forall|t: int| 0 <= t < 64 implies #[trigger] member(r, t) == (member(a, t)
            || member(b, t) || member(c, t) || member(d, t)) by {
            assert(member(r, t) == (member(ab, t) || member(cd, t)));
        }
    }
    r
}

/// The squares a piece sliding along the given lines attacks from `square`.
pub fn slider_attacks(square: usize, occupancy: u64, orth: bool, diag: bool) -> (r: u64)
    requires
        square < 64,
    ensures
        forall|t: int|
            0 <= t < 64 ==> #[trigger] member(r, t) == slider_reaches(
                square as int,
                t,
                occupancy,
                orth,
                diag,
            ),
{
    proof {
        lemma_bit_ops();
    }
    let a: u64 = if orth {
        rook_attacks(square, occupancy)
    } else {
        0
    };
    let b: u64 = if diag {
        bishop_attacks(square, occupancy)
    } else {
        0
    };
    let r = a | b;
    proof {
        assert forall|t: int| 0 <= t < 64 implies #[trigger] member(r, t) == (member(a, t)
            || member(b, t)) by {}
    }
    r
}

/// Adds the square `(f + df, r + dr)` to `acc` if it is on the board.
fn add_leap(acc: u64, f: i32, r: i32, df: i32, dr: i32) -> (res: u64)
    requires
        0 <= f < 8,
        0 <= r < 8,
        -2 <= df <= 2,
        -2 <= dr <= 2,
    ensures
        forall|t: int|
            0 <= t < 64 ==> #[trigger] member(res, t) == (member(acc, t) || (file_of(t) == f + df
                && rank_of(t) == r + dr)),
{
    proof {
        lemma_bit_ops();
    }
    let nf: i32 = f + df;
    let nr: i32 = r + dr;
    if nf < 0 || nf > 7 || nr < 0 || nr > 7 {
        acc
    } else {
        let t: u64 = (nr * 8 + nf) as u64;
        acc | (1u64 << t)
    }
}

/// The squares a knight on `square` attacks.
pub fn knight_attacks(square: usize) -> (res: u64)
    requires
        square < 64,
    ensures
        forall|t: int| 0 <= t < 64 ==> #[trigger] member(res, t) == knight_reaches(square as int, t),
{
    proof {
        lemma_bit_ops();
    }
    let f: i32 = (square % 8) as i32;
    let r: i32 = (square / 8) as i32;
    let a = add_leap(0, f, r, 1, 2);
    let a = add_leap(a, f, r, 2, 1);
    let a = add_leap(a, f, r, 2, -1);
    let a = add_leap(a, f, r, 1, -2);
    let a = add_leap(a, f, r, -1, -2);
    let a = add_leap(a, f, r, -2, -1);
    let a = add_leap(a, f, r, -2, 1);
    let a = add_leap(a, f, r, -1, 2);
    a
}

/// The squares a king on `square` attacks.
pub fn king_attacks(square: usize) -> (res: u64)
    requires
        square < 64,
    ensures
        forall|t: int| 0 <= t < 64 ==> #[trigger] member(res, t) == king_reaches(square as int, t),
{
    proof {
        lemma_bit_ops();
    }
    let f: i32 = (square % 8) as i32;
    let r: i32 = (square / 8) as i32;
    let a = add_leap(0, f, r, 0, 1);
    let a = add_leap(a, f, r, 1, 1);
    let a = add_leap(a, f, r, 1, 0);
    let a = add_leap(a, f, r, 1, -1);
    let a = add_leap(a, f, r, 0, -1);
    let a = add_leap(a, f, r, -1, -1);
    let a = add_leap(a, f, r, -1, 0);
    let a = add_leap(a, f, r, -1, 1);
    a
}

} // verus!
