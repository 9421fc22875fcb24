//! Fixed-point helpers: integer square root and a rational approximation of
//! the cosine over micro-turn angles, used to place a child node on a circle
//! around its parent.  Every helper is a pure function of its arguments and
//! carries an exact functional contract, so computations built from them are
//! reproducible.

use vstd::prelude::*;

use crate::{lemma_mul_le, lemma_square_le, UNIT, WORLD_LIMIT};

verus! {

/// Half a full turn, in micro-turns.
pub const HALF_TURN: u64 = 500_000;

/// A quarter of a full turn, in micro-turns.
pub const QUARTER_TURN: u64 = 250_000;

/// The floor of the square root, at the specification level: the unique
/// `r` with `r * r <= n < (r + 1) * (r + 1)`.
pub open spec fn spec_isqrt(n: u64) -> u64 {
    choose|r: u64| (#[trigger] (r * r)) <= n < (r + 1) * (r + 1)
}

/// Two floors of the same square root agree.
pub proof fn lemma_isqrt_unique(n: u64, r1: u64, r2: u64)
    by (nonlinear_arith)
    requires
        r1 * r1 <= n < (r1 + 1) * (r1 + 1),
        r2 * r2 <= n < (r2 + 1) * (r2 + 1),
    ensures
        r1 == r2,
{
}

/// Floor of the square root, by binary search on the root.
pub fn isqrt64(n: u64) -> (r: u64)
    ensures
        r * r <= n,
        n < (r + 1) * (r + 1),
        r == spec_isqrt(n),
{
    let mut lo: u64 = 0;
    let mut hi: u64 = 4_294_967_296;
    proof {
        assert(n < 4_294_967_296u64 * 4_294_967_296) by (nonlinear_arith);
    }
    while lo + 1 < hi
        invariant
            lo < hi <= 4_294_967_296,
            lo * lo <= n,
            n < hi * hi,
        decreases hi - lo,
    {
        let mid = lo + (hi - lo) / 2;
        proof {
            lemma_square_le(mid as int, 4_294_967_295);
        }
        if mid * mid <= n {
            lo = mid;
        } else {
            hi = mid;
        }
    }
    proof {
        assert(lo * lo <= n < (lo + 1) * (lo + 1));
        let w = choose|r: u64| (#[trigger] (r * r)) <= n < (r + 1) * (r + 1);
        assert(w * w <= n < (w + 1) * (w + 1));
        lemma_isqrt_unique(n, lo, w);
    }
    lo
}

/// Bhaskara's rational approximation of the sine over a half turn, at the
/// specification level.
pub open spec fn spec_half_sine(u: u64) -> u64
    recommends
        u <= HALF_TURN,
{
    let ud = (u as int) * (HALF_TURN - u);
    let num = 16 * ud;
    let den = 5 * ((HALF_TURN as int) * (HALF_TURN as int)) - 4 * ud;
    (((UNIT as int) * num) / den) as u64
}

/// Bhaskara's rational approximation of the sine over a half turn; the
/// result is a micro-unit value in `[0, UNIT]`.
fn half_sine(u: u64) -> (s: u64)
    requires
        u <= HALF_TURN,
    ensures
        s <= UNIT,
        s == spec_half_sine(u),
{
    proof {
        lemma_mul_le(u as int, (HALF_TURN - u) as int, HALF_TURN as int, HALF_TURN as int);
        assert(16 * (u * (HALF_TURN - u)) <= 5 * (HALF_TURN as int * HALF_TURN as int) - 4 * (u * (
        HALF_TURN - u))) by (nonlinear_arith)
            requires
                u <= HALF_TURN as int,
                0 <= u,
        ;
    }
    let num: u64 = 16 * (u * (HALF_TURN - u));
    let den: u64 = 5 * (HALF_TURN * HALF_TURN) - 4 * (u * (HALF_TURN - u));
    let s = (UNIT * num) / den;
    proof {
        assert(UNIT * num <= UNIT * den) by (nonlinear_arith)
            requires
                num <= den,
        ;
        assert(((UNIT as int) * (num as int)) / (den as int) <= UNIT as int) by (nonlinear_arith)
            requires
                (UNIT as int) * (num as int) <= (UNIT as int) * (den as int),
                den as int >= 1,
        ;
    }
    s
}

/// Cosine of an angle given in micro-turns, at the specification level.
pub open spec fn spec_cos_turns(a: u64) -> i64
    recommends
        a < UNIT,
{
    let shifted = (((a + QUARTER_TURN) as int) % (UNIT as int)) as u64;
    if shifted <= HALF_TURN {
        spec_half_sine(shifted) as i64
    } else {
        (-(spec_half_sine((shifted - HALF_TURN) as u64) as int)) as i64
    }
}

/// Cosine of an angle given in micro-turns, as a micro-unit value in
/// `[-UNIT, UNIT]`.
pub fn cos_turns(a: u64) -> (c: i64)
    requires
        a < UNIT,
    ensures
        -(UNIT as i64) <= c <= UNIT as i64,
        c == spec_cos_turns(a),
{
    let shifted = (a + QUARTER_TURN) % UNIT;
    if shifted <= HALF_TURN {
        half_sine(shifted) as i64
    } else {
        -(half_sine(shifted - HALF_TURN) as i64)
    }
}

/// The planar step of [`dir_step`], at the specification level: the first
/// component follows the cosine, the second closes the step up to the circle
/// of radius `len`, signed by the half of the turn the angle lies in.
pub open spec fn spec_dir_step(a: u64, len: i64) -> (i64, i64)
    recommends
        a < UNIT,
        1 <= len <= WORLD_LIMIT,
{
    let c = spec_cos_turns(a);
    let cabs: int = if c < 0 {
        -(c as int)
    } else {
        c as int
    };
    let mag = ((len as int) * cabs) / (UNIT as int);
    let dx: int = if c < 0 {
        -mag
    } else {
        mag
    };
    let rem = (len as int) * (len as int) - dx * dx;
    let dy_mag = spec_isqrt(rem as u64);
    let dy: int = if a < HALF_TURN {
        dy_mag as int
    } else {
        -(dy_mag as int)
    };
    (dx as i64, dy as i64)
}

/// The planar step taken from a parent node: a displacement of length at
/// most `len` (and, up to integer rounding, exactly `len`) in the direction
/// of the micro-turn angle `a`.
pub fn dir_step(a: u64, len: i64) -> (d: (i64, i64))
    requires
        a < UNIT,
        1 <= len <= WORLD_LIMIT,
    ensures
        -len <= d.0 <= len,
        -len <= d.1 <= len,
        d.0 * d.0 + d.1 * d.1 <= len * len,
        d == spec_dir_step(a, len),
{
    let c = cos_turns(a);
    let cabs: i64 = if c < 0 {
        -c
    } else {
        c
    };
    proof {
        lemma_mul_le(len as int, cabs as int, WORLD_LIMIT as int, UNIT as int);
        assert(((len as int) * (cabs as int)) / (UNIT as int) <= len as int) by (nonlinear_arith)
            requires
                0 <= cabs as int <= UNIT as int,
                1 <= len as int,
        ;
    }
    let mag: i64 = (len * cabs) / (UNIT as i64);
    let dx: i64 = if c < 0 {
        -mag
    } else {
        mag
    };
    proof {
        lemma_square_le(dx as int, len as int);
        lemma_square_le(len as int, WORLD_LIMIT as int);
    }
    let rem: i64 = len * len - dx * dx;
    let dy_mag: u64 = isqrt64(rem as u64);
    proof {
        assert(dy_mag * dy_mag <= rem);
        assert(dy_mag <= len) by (nonlinear_arith)
            requires
                dy_mag * dy_mag <= len as int * len as int,
                0 <= dy_mag,
                0 <= len,
        ;
    }
    let dy: i64 = if a < HALF_TURN {
        dy_mag as i64
    } else {
        -(dy_mag as i64)
    };
    proof {
        lemma_square_le(dy as int, len as int);
        assert(dy as int * dy as int == dy_mag as int * dy_mag as int) by (nonlinear_arith)
            requires
                dy as int == dy_mag as int || dy as int == -(dy_mag as int),
        ;
    }
    (dx, dy)
}

} // verus!
