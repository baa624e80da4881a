//! Feedback-delay-network bookkeeping: the channel map that spreads
//! image-source outputs over the reverberator's delay lines, and the
//! sign lattice of the Hadamard feedback matrix.
//!
//! The mixer multiplies its inputs by a Hadamard matrix scaled by
//! `1 / sqrt(n)`; the scale is floating point and is applied where the
//! samples are mixed, while the `+1 / -1` lattice underneath is exact
//! and built here.

use vstd::prelude::*;
use crate::delayline::is_pow2;

verus! {

/// Number of delay lines of the reverberator.
pub const N_FDN_LINES: usize = 24;

/// Feed channel of an image source: sources are spread over the delay
/// lines round-robin by their index within the tree.
pub fn map_ism_to_fdn_channel(channel_index: usize, n_fdn_lines: usize) -> (r: usize)
    requires
        n_fdn_lines > 0,
    ensures
        r == channel_index as int % n_fdn_lines as int,
        r < n_fdn_lines,
{
    channel_index % n_fdn_lines
}

/// Sign of entry `(i, j)` of the Sylvester-built Hadamard lattice: one
/// factor of `-1` for every bit position where `i` has a one and `j` a
/// zero.
pub open spec fn had_sign(i: nat, j: nat) -> int
    decreases i + j,
{
    if i == 0 && j == 0 {
        1
    } else {
        (if i % 2 == 1 && j % 2 == 0 {
            -1
        } else {
            1
        }) * had_sign(i / 2, j / 2)
    }
}

/// Every lattice entry is plus or minus one.
pub proof fn lemma_had_sign_unit(i: nat, j: nat)
    ensures
        had_sign(i, j) == 1 || had_sign(i, j) == -1,
    decreases i + j,
{
    if !(i == 0 && j == 0) {
        lemma_had_sign_unit(i / 2, j / 2);
        let f: int = if i % 2 == 1 && j % 2 == 0 {
            -1
        } else {
            1
        };
        let h2 = had_sign(i / 2, j / 2);
        assert(had_sign(i, j) == f * h2);
        assert(f * h2 == 1 || f * h2 == -1) by (nonlinear_arith)
            requires
                (f == 1 || f == -1) && (h2 == 1 || h2 == -1),
        ;
    }
}

/// One lattice entry, walked bit by bit from the low end.
pub fn hadamard_sign(i: usize, j: usize) -> (s: i64)
    ensures
        s == had_sign(i as nat, j as nat),
        s == 1 || s == -1,
{
    let ghost gi = i as nat;
    let ghost gj = j as nat;
    let mut a = i;
    let mut b = j;
    let mut s: i64 = 1;
    while a > 0 || b > 0
        invariant
            s == 1 || s == -1,
            had_sign(gi, gj) == s * had_sign(a as nat, b as nat),
        decreases a + b,
    {
        let ghost s0: int = s as int;
        let ghost a0 = a;
        let ghost b0 = b;
        let ghost f: int = if a % 2 == 1 && b % 2 == 0 {
            -1
        } else {
            1
        };
        let ghost h2: int = had_sign((a / 2) as nat, (b / 2) as nat);
        proof {
            assert(had_sign(a as nat, b as nat) == f * h2);
            assert(s0 * (f * h2) == (s0 * f) * h2) by (nonlinear_arith);
        }
        if a % 2 == 1 && b % 2 == 0 {
            s = -s;
        }
        a = a / 2;
        b = b / 2;
        proof {
            assert(s as int == s0 * f) by (nonlinear_arith)
                requires
                    (s0 == 1 || s0 == -1) && (f == 1 || f == -1) && (f == 1 ==> s == s0) && (f
                        == -1 ==> s == -s0),
            ;
            assert(had_sign(gi, gj) == s * had_sign(a as nat, b as nat));
        }
    }
    proof {
        assert(had_sign(a as nat, b as nat) == 1);
        assert(s * 1int == s);
        assert(had_sign(gi, gj) == s);
    }
    s
}

/// The Hadamard sign lattice of a power-of-two mixer: row `i`, column
/// `j` carries `had_sign(i, j)`.
pub fn create_hadamard(inputs: usize) -> (h: Vec<Vec<i64>>)
    requires
        is_pow2(inputs as int),
    ensures
        h@.len() == inputs,
        forall|i: int| 0 <= i < inputs ==> (#[trigger] h@[i])@.len() == inputs,
        forall|i: int, j: int|
            0 <= i < inputs && 0 <= j < inputs ==> (#[trigger] h@[i]@[j]) == had_sign(
                i as nat,
                j as nat,
            ),
{
    let mut h: Vec<Vec<i64>> = Vec::new();
    let mut i: usize = 0;
    while i < inputs
        invariant
            h@.len() == i <= inputs,
            forall|r: int| 0 <= r < i ==> (#[trigger] h@[r])@.len() == inputs,
            forall|r: int, c: int|
                0 <= r < i && 0 <= c < inputs ==> (#[trigger] h@[r]@[c]) == had_sign(
                    r as nat,
                    c as nat,
                ),
        decreases inputs - i,
    {
        let mut row: Vec<i64> = Vec::new();
        let mut j: usize = 0;
        while j < inputs
            invariant
                row@.len() == j <= inputs,
                forall|c: int|
                    0 <= c < j ==> (#[trigger] row@[c]) == had_sign(i as nat, c as nat),
            decreases inputs - j,
        {
            row.push(hadamard_sign(i, j));
            j = j + 1;
        }
        h.push(row);
        i = i + 1;
    }
    h
}

/// Dot product of rows `i` and `k` of the sign lattice over the first
/// `n` columns.
pub open spec fn had_row_dot(i: nat, k: nat, n: nat) -> int
    decreases n,
{
    if n == 0 {
        0
    } else {
        had_row_dot(i, k, (n - 1) as nat) + had_sign(i, (n - 1) as nat) * had_sign(
            k,
            (n - 1) as nat,
        )
    }
}

/// One column pair at a time: the terms for columns `2j` and `2j + 1`
/// collapse to twice the half-size term when rows `i` and `k` agree on
/// their low bit, and cancel when they differ.
proof fn lemma_had_pair_step(i: nat, k: nat, j: nat)
    ensures
        had_sign(i, 2 * j) * had_sign(k, 2 * j) + had_sign(i, 2 * j + 1) * had_sign(
            k,
            2 * j + 1,
        ) == (if i % 2 == k % 2 {
            2int
        } else {
            0int
        }) * (had_sign(i / 2, j) * had_sign(k / 2, j)),
{
    lemma_had_sign_unit(i / 2, j);
    lemma_had_sign_unit(k / 2, j);
    let fi0: int = if i % 2 == 1 {
        -1
    } else {
        1
    };
    let fk0: int = if k % 2 == 1 {
        -1
    } else {
        1
    };
    let hi = had_sign(i / 2, j);
    let hk = had_sign(k / 2, j);
    assert((2 * j) % 2 == 0 && (2 * j) / 2 == j && (2 * j + 1) % 2 == 1 && (2 * j + 1) / 2 == j);
    assert(had_sign(i, 2 * j) == fi0 * hi);
    assert(had_sign(k, 2 * j) == fk0 * hk);
    assert(had_sign(i, 2 * j + 1) == hi);
    assert(had_sign(k, 2 * j + 1) == hk);
    assert((fi0 * hi) * (fk0 * hk) + hi * hk == (if fi0 == fk0 {
        2int
    } else {
        0int
    }) * (hi * hk)) by (nonlinear_arith)
        requires
            (fi0 == 1 || fi0 == -1) && (fk0 == 1 || fk0 == -1),
    ;
}

/// Folding the first `2t` columns of the full-size dot product into `t`
/// columns of the half-size one.
proof fn lemma_had_dot_halves(i: nat, k: nat, t: nat)
    ensures
        had_row_dot(i, k, 2 * t) == (if i % 2 == k % 2 {
            2int
        } else {
            0int
        }) * had_row_dot(i / 2, k / 2, t),
    decreases t,
{
    let c: int = if i % 2 == k % 2 {
        2
    } else {
        0
    };
    if t > 0 {
        lemma_had_dot_halves(i, k, (t - 1) as nat);
        lemma_had_pair_step(i, k, (t - 1) as nat);
        assert(had_row_dot(i, k, 2 * t) == had_row_dot(i, k, (2 * t - 1) as nat) + had_sign(
            i,
            (2 * t - 1) as nat,
        ) * had_sign(k, (2 * t - 1) as nat));
        assert((2 * t - 1) as nat == 2 * ((t - 1) as nat) + 1);
        assert((2 * t - 2) as nat == 2 * ((t - 1) as nat));
        let d = had_sign(i / 2, (t - 1) as nat) * had_sign(k / 2, (t - 1) as nat);
        assert(had_row_dot(i, k, 2 * t) == c * had_row_dot(i / 2, k / 2, (t - 1) as nat) + c * d);
        assert(c * had_row_dot(i / 2, k / 2, (t - 1) as nat) + c * d == c * (had_row_dot(
            i / 2,
            k / 2,
            (t - 1) as nat,
        ) + d)) by (nonlinear_arith);
    }
}

/// Orthogonality of the Hadamard lattice: over any power-of-two width
/// that holds both rows, two equal rows dot to the width and two
/// different rows cancel exactly.  Scaled by `1 / sqrt(n)` the mixer
/// therefore conserves energy.
pub proof fn lemma_hadamard_orthogonal(i: nat, k: nat, n: nat)
    requires
        crate::delayline::is_pow2(n as int),
        i < n,
        k < n,
    ensures
        had_row_dot(i, k, n) == if i == k {
            n as int
        } else {
            0
        },
    decreases n,
{
    if n == 1 {
        assert(had_row_dot(i, k, 1) == had_sign(0, 0) * had_sign(0, 0)) by {
            reveal_with_fuel(had_row_dot, 2);
        };
    } else {
        assert(n % 2 == 0 && crate::delayline::is_pow2(n as int / 2));
        lemma_had_dot_halves(i, k, n / 2);
        lemma_hadamard_orthogonal(i / 2, k / 2, n / 2);
        if i == k {
            assert(had_row_dot(i, k, n) == 2 * (n as int / 2)) by {
                assert(had_row_dot(i / 2, k / 2, n / 2) == n as int / 2);
            };
        } else {
            if i % 2 == k % 2 {
                assert(i / 2 != k / 2);
                assert(2 * had_row_dot(i / 2, k / 2, n / 2) == 0);
            }
        }
    }
}

} // verus!
