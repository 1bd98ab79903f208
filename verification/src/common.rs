//! Units of the model, and the integer geometry that contact discovery and
//! the relay heuristic share.

use vstd::prelude::*;

verus! {

/// How far ahead the position source predicts, in seconds.
pub const TIME_LOOKAHEAD_SECS: u64 = 10;

/// Speed of light in metres per second.
pub const SPEED_OF_LIGHT: u64 = 299_792_458;

/// Ticks of the simulation clock per second.
pub const TICKS_PER_SECOND: u64 = 1_000_000;

/// `r` is the integer square root of `n`.
pub open spec fn is_floor_sqrt(r: nat, n: nat) -> bool {
    r * r <= n < (r + 1) * (r + 1)
}

/// The integer square root: the largest number whose square is at most `n`.
pub open spec fn floor_sqrt(n: nat) -> nat {
    choose|r: nat| is_floor_sqrt(r, n)
}

/// The square of the distance between two points of the plane.
pub open spec fn square_distance(p: (i64, i64), q: (i64, i64)) -> nat {
    ((p.0 - q.0) * (p.0 - q.0) + (p.1 - q.1) * (p.1 - q.1)) as nat
}

/// The Euclidean distance between two points, rounded down.
pub open spec fn euclid_distance(p: (i64, i64), q: (i64, i64)) -> nat {
    floor_sqrt(square_distance(p, q))
}

/// `n`, or the largest `u64` where `n` does not fit.
pub open spec fn clamped(n: nat) -> u64 {
    if n > u64::MAX {
        u64::MAX
    } else {
        n as u64
    }
}

proof fn lemma_square_monotone(a: nat, b: nat)
    requires
        a <= b,
    ensures
        a * a <= b * b,
{
    assert(a * a <= b * b) by (nonlinear_arith)
        requires
            a <= b,
    ;
}

/// A number has at most one integer square root.
pub proof fn lemma_floor_sqrt_unique(n: nat, a: nat, b: nat)
    requires
        is_floor_sqrt(a, n),
        is_floor_sqrt(b, n),
    ensures
        a == b,
{
    if a < b {
        lemma_square_monotone(a + 1, b);
    } else if b < a {
        lemma_square_monotone(b + 1, a);
    }
}

/// Every number has an integer square root.
pub proof fn lemma_floor_sqrt_exists(n: nat)
    ensures
        is_floor_sqrt(floor_sqrt(n), n),
    decreases n,
{
    if n == 0 {
        assert(0nat * 0nat <= 0nat < (0nat + 1) * (0nat + 1)) by (nonlinear_arith);
        assert(is_floor_sqrt(0, 0));
    } else {
        lemma_floor_sqrt_exists((n - 1) as nat);
        let r = floor_sqrt((n - 1) as nat);
        if n < (r + 1) * (r + 1) {
            assert(is_floor_sqrt(r, n));
        } else {
            assert((r + 2) * (r + 2) > (r + 1) * (r + 1)) by (nonlinear_arith);
            assert(is_floor_sqrt(r + 1, n));
        }
    }
}

/// The number that squares to at most `n` and whose successor does not is
/// the integer square root of `n`.
pub proof fn lemma_floor_sqrt_is(n: nat, r: nat)
    requires
        is_floor_sqrt(r, n),
    ensures
        floor_sqrt(n) == r,
{
    lemma_floor_sqrt_exists(n);
    lemma_floor_sqrt_unique(n, r, floor_sqrt(n));
}

/// The integer square root of `n`.
pub fn integer_sqrt(n: u128) -> (r: u64)
    ensures
        r == floor_sqrt(n as nat),
{
    let mut low: u128 = 0;
    let mut high: u128 = 0x1_0000_0000_0000_0000;
    assert(high * high > n) by (nonlinear_arith)
        requires
            high == 0x1_0000_0000_0000_0000,
            n <= u128::MAX,
    ;
    while high - low > 1
        invariant
            low < high <= 0x1_0000_0000_0000_0000,
            low * low <= n < high * high,
        decreases high - low,
    {
        let mid: u128 = low + (high - low) / 2;
        assert(mid * mid <= 0xffff_ffff_ffff_ffff * 0xffff_ffff_ffff_ffff) by (nonlinear_arith)
            requires
                mid <= 0xffff_ffff_ffff_ffff,
        ;
        if mid * mid <= n {
            low = mid;
        } else {
            high = mid;
        }
    }
    proof {
        lemma_floor_sqrt_is(n as nat, low as nat);
    }
    low as u64
}

fn gap(a: i64, b: i64) -> (r: u128)
    ensures
        r == (if a >= b {
            a - b
        } else {
            b - a
        }),
        r <= 0xffff_ffff_ffff_ffff,
{
    if a >= b {
        (a as i128 - b as i128) as u128
    } else {
        (b as i128 - a as i128) as u128
    }
}

/// The Euclidean distance between two points of the plane, rounded down; the
/// largest `u64` where the distance does not fit.
pub fn calculate_euclid_distance(pos1: &(i64, i64), pos2: &(i64, i64)) -> (r: u64)
    ensures
        r == clamped(euclid_distance(*pos1, *pos2)),
{
    let dx = gap(pos1.0, pos2.0);
    let dy = gap(pos1.1, pos2.1);
    assert(dx * dx <= 0xffff_ffff_ffff_ffff * 0xffff_ffff_ffff_ffff) by (nonlinear_arith)
        requires
            dx <= 0xffff_ffff_ffff_ffff,
    ;
    assert(dy * dy <= 0xffff_ffff_ffff_ffff * 0xffff_ffff_ffff_ffff) by (nonlinear_arith)
        requires
            dy <= 0xffff_ffff_ffff_ffff,
    ;
    assert(dx * dx == (pos1.0 - pos2.0) * (pos1.0 - pos2.0)) by (nonlinear_arith)
        requires
            dx == pos1.0 - pos2.0 || dx == pos2.0 - pos1.0,
    ;
    assert(dy * dy == (pos1.1 - pos2.1) * (pos1.1 - pos2.1)) by (nonlinear_arith)
        requires
            dy == pos1.1 - pos2.1 || dy == pos2.1 - pos1.1,
    ;
    let dx2: u128 = dx * dx;
    let dy2: u128 = dy * dy;
    if dx2 > u128::MAX - dy2 {
        proof {
            let n = square_distance(*pos1, *pos2);
            lemma_floor_sqrt_exists(n);
            let root = floor_sqrt(n);
            if root <= u64::MAX {
                lemma_square_monotone(root + 1, 0x1_0000_0000_0000_0000);
                assert(0x1_0000_0000_0000_0000nat * 0x1_0000_0000_0000_0000nat
                    == 0x1_0000_0000_0000_0000_0000_0000_0000_0000nat) by (nonlinear_arith);
            }
        }
        u64::MAX
    } else {
        integer_sqrt(dx2 + dy2)
    }
}

/// A copy of `items` as a vector.
pub fn copy_of<T: Copy>(items: &[T]) -> (r: Vec<T>)
    ensures
        r@ == items@,
{
    let mut r: Vec<T> = Vec::new();
    let mut i: usize = 0;
    while i < items.len()
        invariant
            i <= items.len(),
            r@ == items@.take(i as int),
        decreases items.len() - i,
    {
        r.push(items[i]);
        i += 1;
    }
    r
}

} // verus!
