//! Exact integer geometry of the pyramid: level count, per-level
//! dimensions, tile grid and per-tile pixel bounds.
//!
//! Everything here is stated over mathematical integers.  The executable
//! counterparts live on [`crate::tiler::TileCreator`].

use vstd::arithmetic::div_mod::lemma_fundamental_div_mod;
use vstd::arithmetic::div_mod::lemma_fundamental_div_mod_converse;
use vstd::arithmetic::div_mod::lemma_mod_bound;
use vstd::arithmetic::power2::lemma2_to64;
use vstd::arithmetic::power2::lemma_pow2_pos;
use vstd::arithmetic::power2::lemma_pow2_strictly_increases;
use vstd::arithmetic::power2::lemma_pow2_unfold;
use vstd::arithmetic::power2::pow2;
use vstd::prelude::*;

verus! {

/// `ceil(a / b)` over the integers, for `b >= 1`.
pub open spec fn ceil_div(a: int, b: int) -> int {
    (a + b - 1) / b
}

/// The smallest `k` with `pow2(k) >= n`; `0` when `n <= 1`.
pub open spec fn log2_ceil(n: int) -> nat
    decreases n,
{
    if n <= 1 {
        0
    } else {
        (1 + log2_ceil((n + 1) / 2)) as nat
    }
}

/// Number of pyramid levels for a source of the given dimensions: one more
/// than the number of halvings that bring the larger dimension down to 1.
pub open spec fn spec_levels(width: int, height: int) -> int {
    1 + log2_ceil(
        if width >= height {
            width
        } else {
            height
        },
    ) as int
}

/// Width (or height) of a level whose distance from the full-resolution
/// level is `d` halving steps: `ceil(dim / 2^d)`.
pub open spec fn level_extent(dim: int, d: nat) -> int {
    ceil_div(dim, pow2(d) as int)
}

/// First pixel of tile column (or row) `c`: column 0 starts flush at the
/// image edge, every later column reaches back `ov` pixels into its left
/// neighbour.
pub open spec fn tile_start(ts: int, ov: int, c: int) -> int {
    if c == 0 {
        0
    } else {
        c * ts - ov
    }
}

/// One past the last pixel of tile column (or row) `c`: the nominal end
/// `c*ts + ts + ov` clipped flush to the image edge `dim`.
pub open spec fn tile_end(ts: int, ov: int, dim: int, c: int) -> int {
    if c * ts + ts + ov <= dim {
        c * ts + ts + ov
    } else {
        dim
    }
}

/// `log2_ceil(n)` is indeed the smallest exponent whose power of two
/// reaches `n`.
pub proof fn lemma_log2_ceil_bounds(n: int)
    requires
        n >= 0,
    ensures
        pow2(log2_ceil(n)) >= n,
        n >= 2 ==> pow2((log2_ceil(n) - 1) as nat) < n,
    decreases n,
{
    lemma2_to64();
    if n <= 1 {
    } else {
        let m = (n + 1) / 2;
        lemma_log2_ceil_bounds(m);
        let k = log2_ceil(m);
        assert(log2_ceil(n) == k + 1);
        lemma_pow2_unfold(k + 1);
        assert(pow2((k + 1) as nat) == 2 * pow2(k));
        assert(2 * m >= n);
        if m >= 2 {
            lemma_pow2_unfold(k);
            assert(pow2((k - 1) as nat) < m);
            assert(pow2(k) == 2 * pow2((k - 1) as nat));
            assert(pow2(k) <= 2 * (m - 1));
            assert(2 * m <= n + 1);
        } else {
            assert(m == 1 && n == 2);
            assert(k == 0);
        }
    }
}

/// Any exponent that reaches `n`, while its predecessor does not, equals
/// `log2_ceil(n)`.
pub proof fn lemma_log2_ceil_unique(n: int, k: nat)
    requires
        n >= 0,
        pow2(k) >= n,
        k == 0 || pow2((k - 1) as nat) < n,
    ensures
        k == log2_ceil(n),
{
    let j = log2_ceil(n);
    lemma_log2_ceil_bounds(n);
    if k < j {
        assert(n >= 2);
        if k < j - 1 {
            lemma_pow2_strictly_increases(k, (j - 1) as nat);
        }
        assert(pow2(k) <= pow2((j - 1) as nat));
        assert(false);
    }
    if k > j {
        if j < k - 1 {
            lemma_pow2_strictly_increases(j, (k - 1) as nat);
        }
        assert(pow2((k - 1) as nat) >= pow2(j));
        assert(false);
    }
}

/// The basic bounds of ceiling division.
pub proof fn lemma_ceil_div_bounds(a: int, b: int)
    requires
        a >= 0,
        b >= 1,
    ensures
        0 <= ceil_div(a, b) <= a,
        a >= 1 ==> ceil_div(a, b) >= 1,
        b == 1 ==> ceil_div(a, b) == a,
        b * ceil_div(a, b) >= a,
        a >= 1 ==> b * (ceil_div(a, b) - 1) < a,
{
    let q = ceil_div(a, b);
    lemma_fundamental_div_mod(a + b - 1, b);
    lemma_mod_bound(a + b - 1, b);
    let r = (a + b - 1) % b;
    assert(a + b - 1 == b * q + r);
    assert(0 <= r < b);
    assert(b * q >= a);
    assert(b * (q - 1) == b * q - b) by (nonlinear_arith);
    if b == 1 {
        assert(b * q == q) by (nonlinear_arith)
            requires b == 1;
        assert(q == a);
    }
    if q > a {
        assert(b * q >= b * (a + 1)) by (nonlinear_arith)
            requires b >= 1 && q >= a + 1;
        assert(b * (a + 1) >= a + b) by (nonlinear_arith)
            requires b >= 1 && a >= 0;
        assert(false);
    }
    if q < 0 {
        assert(b * q <= -b) by (nonlinear_arith)
            requires b >= 1 && q <= -1;
        assert(false);
    }
    if a >= 1 && q < 1 {
        assert(b * q <= 0) by (nonlinear_arith)
            requires b >= 1 && q <= 0;
        assert(false);
    }
}

/// A column index inside the grid starts strictly before the image edge.
pub proof fn lemma_col_start_in_range(dim: int, ts: int, c: int)
    requires
        dim >= 0,
        ts >= 1,
        0 <= c < ceil_div(dim, ts),
    ensures
        c * ts < dim,
        c * ts >= 0,
{
    lemma_ceil_div_bounds(dim, ts);
    assert(dim >= 1);
    assert(c <= ceil_div(dim, ts) - 1);
    assert(c * ts <= (ceil_div(dim, ts) - 1) * ts) by (nonlinear_arith)
        requires ts >= 1 && c <= ceil_div(dim, ts) - 1;
    assert((ceil_div(dim, ts) - 1) * ts < dim);
    assert(c * ts >= 0) by (nonlinear_arith)
        requires c >= 0 && ts >= 1;
}

/// Along one axis, every tile of the grid lies strictly inside the image:
/// `0 <= start < end <= dim`.  This is the heart of the bounds invariant.
pub proof fn lemma_tile_axis_bounds(ts: int, ov: int, dim: int, c: int)
    requires
        ts >= 1,
        0 <= ov <= ts,
        dim >= 1,
        0 <= c < ceil_div(dim, ts),
    ensures
        0 <= tile_start(ts, ov, c),
        tile_start(ts, ov, c) < tile_end(ts, ov, dim, c),
        tile_end(ts, ov, dim, c) <= dim,
        tile_start(ts, ov, c) <= c * ts,
        tile_end(ts, ov, dim, c) - tile_start(ts, ov, c) <= ts + 2 * ov,
{
    lemma_col_start_in_range(dim, ts, c);
    if c == 0 {
    } else {
        assert(c * ts >= ts) by (nonlinear_arith)
            requires c >= 1 && ts >= 1;
    }
}

/// Along one axis, pixel `p` is covered by tile `p / ts` of the grid.
pub proof fn lemma_axis_coverage(ts: int, ov: int, dim: int, p: int)
    requires
        ts >= 1,
        0 <= ov <= ts,
        1 <= dim,
        0 <= p < dim,
    ensures
        0 <= p / ts < ceil_div(dim, ts),
        tile_start(ts, ov, p / ts) <= p,
        p < tile_end(ts, ov, dim, p / ts),
{
    let c = p / ts;
    lemma_fundamental_div_mod(p, ts);
    let r = p % ts;
    assert(p == ts * c + r);
    lemma_ceil_div_bounds(dim, ts);
    if c >= ceil_div(dim, ts) {
        assert(ts * c >= ts * ceil_div(dim, ts)) by (nonlinear_arith)
            requires ts >= 1 && c >= ceil_div(dim, ts);
        assert(false);
    }
    if c < 0 {
        assert(ts * c <= -ts) by (nonlinear_arith)
            requires ts >= 1 && c <= -1;
        assert(false);
    }
    assert(tile_start(ts, ov, c) <= c * ts);
    assert(p < c * ts + ts);
}

/// Tiles are handed out column by column; position `(c, r)` of a grid
/// with `rows` rows lands at flat index `c * rows + r`, and the
/// coordinates survive the round trip.
pub proof fn lemma_grid_index(cols: int, rows: int, c: int, r: int)
    requires
        0 <= c < cols,
        0 <= r < rows,
    ensures
        0 <= c * rows + r < cols * rows,
        (c * rows + r) / rows == c,
        (c * rows + r) % rows == r,
{
    assert(0 <= c * rows + r && c * rows + r < cols * rows) by (nonlinear_arith)
        requires 0 <= c < cols && 0 <= r < rows;
    lemma_fundamental_div_mod_converse(c * rows + r, rows, c, r);
}

/// `2^k` as a 64-bit word.
#[verifier::loop_isolation(false)]
pub fn pow2_u64(k: u32) -> (r: u64)
    requires
        k <= 32,
    ensures
        r as int == pow2(k as nat),
        r >= 1,
{
    let mut i: u32 = 0;
    let mut r: u64 = 1;
    proof {
        lemma2_to64();
    }
    while i < k
        invariant
            i <= k,
            r as int == pow2(i as nat),
        decreases k - i,
    {
        proof {
            lemma_pow2_word_bounds(i as nat);
            lemma_pow2_unfold((i + 1) as nat);
        }
        r = r * 2;
        i = i + 1;
    }
    proof {
        lemma_pow2_pos(k as nat);
    }
    r
}

/// A power of two of an exponent up to 32 fits in a 64-bit word.
pub proof fn lemma_pow2_word_bounds(k: nat)
    requires
        k <= 32,
    ensures
        pow2(k) >= 1,
        pow2(k) <= 0x1_0000_0000,
{
    lemma_pow2_pos(k);
    lemma2_to64();
    if k < 32 {
        lemma_pow2_strictly_increases(k, 32);
    }
}

} // verus!
