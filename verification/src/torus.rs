//! Wrapping of signed coordinates onto one axis of the torus.
//!
//! The grid has no edges: a coordinate that leaves one side comes back in on
//! the other. On an axis of `n` cells the coordinate `x` therefore names the
//! cell `wrap(x, n)`, and two coordinates name the same cell exactly when
//! they are congruent modulo `n`.

use vstd::prelude::*;
use vstd::arithmetic::div_mod::{
    lemma_add_mod_noop, lemma_fundamental_div_mod, lemma_fundamental_div_mod_converse,
    lemma_mod_bound, lemma_mod_equivalence, lemma_mod_multiples_vanish, lemma_mod_twice,
    lemma_small_mod,
};

verus! {

/// The index on an axis of length `n` that the coordinate `x` falls on: the
/// least non-negative residue of `x` modulo `n`.
pub open spec fn wrap(x: int, n: int) -> int {
    x % n
}

/// `a` and `b` differ by a multiple of `n`.
pub open spec fn congruent(a: int, b: int, n: int) -> bool {
    (a - b) % n == 0
}

/// Wrapping yields an index of the axis that is congruent to the coordinate,
/// for every integer, however far below zero or above `n` it lies. It agrees
/// with the usual two-step formula that reduces, shifts by `n` and reduces
/// again.
pub proof fn lemma_wrap_is_residue(x: int, n: int)
    requires
        n > 0,
    ensures
        0 <= wrap(x, n) < n,
        congruent(wrap(x, n), x, n),
        wrap(x, n) == ((x % n) + n) % n,
{
    lemma_mod_bound(x, n);
    lemma_mod_twice(x, n);
    lemma_mod_equivalence(x % n, x, n);
    lemma_mod_multiples_vanish(1, x % n, n);
    assert(n * 1 + x % n == (x % n) + n);
}

/// Only one index of the axis is congruent to a given coordinate.
pub proof fn lemma_wrap_unique(x: int, r: int, n: int)
    requires
        n > 0,
        0 <= r < n,
        congruent(r, x, n),
    ensures
        r == wrap(x, n),
{
    lemma_mod_equivalence(r, x, n);
    lemma_small_mod(r as nat, n as nat);
}

/// Two coordinates fall on the same index exactly when they are congruent.
pub proof fn lemma_wrap_congruent(a: int, b: int, n: int)
    requires
        n > 0,
    ensures
        congruent(a, b, n) <==> wrap(a, n) == wrap(b, n),
{
    lemma_mod_equivalence(a, b, n);
}

/// An index of the axis is its own image.
pub proof fn lemma_wrap_index(x: int, n: int)
    requires
        0 <= x < n,
    ensures
        wrap(x, n) == x,
{
    lemma_small_mod(x as nat, n as nat);
}

/// Moving by `d` from a coordinate leads to the same index as moving by `d`
/// from the index it falls on.
pub proof fn lemma_wrap_offset(x: int, d: int, n: int)
    requires
        n > 0,
    ensures
        wrap(x + d, n) == wrap(wrap(x, n) + d, n),
{
    lemma_add_mod_noop(x, d, n);
    lemma_add_mod_noop(x % n, d, n);
    lemma_mod_twice(x, n);
}

/// The two neighbours of an index: one step up or down, re-entering at the
/// other end of the axis.
pub proof fn lemma_wrap_adjacent(p: int, n: int)
    requires
        0 <= p < n,
    ensures
        wrap(p + 1, n) == if p + 1 == n { 0 } else { p + 1 },
        wrap(p - 1, n) == if p == 0 { n - 1 } else { p - 1 },
{
    if p + 1 == n {
        lemma_fundamental_div_mod_converse(p + 1, n, 1, 0);
    } else {
        lemma_small_mod((p + 1) as nat, n as nat);
    }
    if p == 0 {
        lemma_fundamental_div_mod_converse(p - 1, n, -1, n - 1);
    } else {
        lemma_small_mod((p - 1) as nat, n as nat);
    }
}

/// The residue of a negative number, from the residue of its absolute value.
proof fn lemma_wrap_negative(x: int, n: int)
    requires
        x < 0,
        n > 0,
    ensures
        wrap(x, n) == if (-x) % n == 0 {
            0
        } else {
            n - (-x) % n
        },
{
    let q = (-x) / n;
    let r = (-x) % n;
    lemma_fundamental_div_mod(-x, n);
    lemma_mod_bound(-x, n);
    if r == 0 {
        assert(x == (-q) * n + 0) by (nonlinear_arith)
            requires
                -x == n * q + r,
                r == 0,
        ;
        lemma_fundamental_div_mod_converse(x, n, -q, 0);
    } else {
        assert(x == (-q - 1) * n + (n - r)) by (nonlinear_arith)
            requires
                -x == n * q + r,
        ;
        lemma_fundamental_div_mod_converse(x, n, -q - 1, n - r);
    }
}

/// Wraps `x` onto an axis of `n` cells in constant time, however far `x`
/// lies outside of `0..n`.
pub fn normalize(x: isize, n: usize) -> (r: usize)
    requires
        0 < n <= isize::MAX,
    ensures
        r == wrap(x as int, n as int),
        r < n,
        congruent(r as int, x as int, n as int),
{
    let m: isize = n as isize;
    let r: isize = x % m;
    proof {
        lemma_wrap_is_residue(x as int, n as int);
        if x < 0 {
            lemma_wrap_negative(x as int, n as int);
        }
    }
    if r < 0 {
        (r + m) as usize
    } else {
        r as usize
    }
}

} // verus!
