//! Finite-field arithmetic: the extended Euclidean algorithm and the modular
//! inverse derived from it.

use vstd::arithmetic::div_mod::lemma_add_mod_noop;
use vstd::arithmetic::div_mod::lemma_div_nonincreasing;
use vstd::arithmetic::div_mod::lemma_div_pos_is_pos;
use vstd::arithmetic::div_mod::lemma_fundamental_div_mod;
use vstd::arithmetic::div_mod::lemma_mod_bound;
use vstd::arithmetic::div_mod::lemma_mod_multiples_vanish;
use vstd::arithmetic::div_mod::lemma_mod_self_0;
use vstd::arithmetic::div_mod::lemma_mul_mod_noop_left;
use vstd::arithmetic::div_mod::lemma_mul_mod_noop_right;
use vstd::arithmetic::div_mod::lemma_small_mod;
use vstd::math::abs;
use vstd::math::max;
use vstd::prelude::*;

use crate::gate::VoteError;

verus! {

/// Largest modulus (and largest dividend) the Euclidean entry points accept.
/// Keeping both arguments at or below this bound keeps every intermediate
/// Bezout coefficient, and every product formed from one, inside `i64`.
pub const MAX_MODULUS: u64 = 0x7fff_ffff;

/// Greatest common divisor by the Euclidean recursion.
pub open spec fn gcd(a: nat, b: nat) -> nat
    decreases b,
{
    if b == 0 {
        a
    } else {
        gcd(b, a % b)
    }
}

/// `p` is at least 2 and has no divisor strictly between 1 and itself.
pub open spec fn is_prime(p: int) -> bool {
    2 <= p && forall|d: int| 2 <= d < p ==> #[trigger] (p % d) != 0
}

/// `x` is the canonical representative of the multiplicative inverse of `a`
/// modulo `p`.
pub open spec fn is_inverse_of(a: int, x: int, p: int) -> bool {
    0 <= x < p && (a * x) % p == 1
}

/// The multiplicative inverse of `a` modulo `p`, where one exists; an
/// arbitrary value where none does.
pub open spec fn inv_mod(a: int, p: int) -> int {
    choose|x: int| is_inverse_of(a, x, p)
}

/// The greatest common divisor divides both of its arguments.
pub proof fn lemma_gcd_divides(a: nat, b: nat)
    ensures
        gcd(a, b) > 0 ==> a % gcd(a, b) == 0,
        gcd(a, b) > 0 ==> b % gcd(a, b) == 0,
    decreases b,
{
    let g: nat = gcd(a, b);
    if b == 0 {
        if g > 0 {
            lemma_mod_self_0(g as int);
            lemma_small_mod(0, g);
        }
    } else {
        lemma_gcd_divides(b, a % b);
        if g > 0 {
            let q: int = a as int / b as int;
            let r: int = a as int % b as int;
            lemma_fundamental_div_mod(a as int, b as int);
            // b and the remainder are both multiples of g, hence so is a.
            assert(g == gcd(b, a % b));
            assert(b % g == 0);
            assert((b as int) % (g as int) == 0);
            lemma_mul_mod_noop_left(b as int, q, g as int);
            assert(((b as int % g as int) * q) % (g as int) == (b as int * q) % (g as int));
            assert((b as int % g as int) * q == 0) by (nonlinear_arith)
                requires
                    (b as int) % (g as int) == 0,
            ;
            lemma_small_mod(0, g);
            assert((b as int * q) % (g as int) == 0);
            lemma_add_mod_noop(b as int * q, r, g as int);
            assert((b as int * q + r) % (g as int) == 0);
        }
    }
}

/// A gcd of a positive pair is positive.
pub proof fn lemma_gcd_pos(a: nat, b: nat)
    requires
        a > 0 || b > 0,
    ensures
        gcd(a, b) > 0,
    decreases b,
{
    if b > 0 {
        lemma_mod_bound(a as int, b as int);
        lemma_gcd_pos(b, a % b);
    }
}

/// A positive divisor of a positive number is no larger than it.
pub proof fn lemma_divisor_le(d: nat, n: nat)
    requires
        d > 0,
        n > 0,
        n % d == 0,
    ensures
        d <= n,
{
    lemma_fundamental_div_mod(n as int, d as int);
    lemma_div_pos_is_pos(n as int, d as int);
    assert(n as int == d as int * (n as int / d as int));
    assert(d <= n) by (nonlinear_arith)
        requires
            n as int == d as int * (n as int / d as int),
            n > 0,
            d > 0,
            n as int / d as int >= 0,
    ;
}

/// In a prime field every nonzero element is coprime to the modulus.
pub proof fn lemma_prime_gcd_one(a: nat, p: nat)
    requires
        is_prime(p as int),
        1 <= a < p,
    ensures
        gcd(a, p) == 1,
{
    let g: nat = gcd(a, p);
    lemma_gcd_pos(a, p);
    lemma_gcd_divides(a, p);
    lemma_divisor_le(g, a);
    if g >= 2 {
        assert(2 <= g as int && g < p);
        assert((p as int) % (g as int) != 0);
        assert((p as int) % (g as int) == 0);
    }
}

/// The canonical inverse modulo `p` is unique, so any witness pins `inv_mod`.
pub proof fn lemma_inv_mod_unique(a: int, p: int, r: int)
    requires
        2 <= p,
        is_inverse_of(a, r, p),
    ensures
        inv_mod(a, p) == r,
{
    assert(exists|x: int| is_inverse_of(a, x, p));
    let w: int = inv_mod(a, p);
    assert(is_inverse_of(a, w, p));
    // r == r * ((a * w) % p) % p == (r * a * w) % p, and symmetrically for w,
    // so the two representatives coincide.
    lemma_mul_mod_noop_right(r, a * w, p);
    assert((r * (a * w)) % p == (r * ((a * w) % p)) % p);
    lemma_small_mod(r as nat, p as nat);
    assert((r * ((a * w) % p)) % p == r);
    lemma_mul_mod_noop_right(w, a * r, p);
    assert((w * (a * r)) % p == (w * ((a * r) % p)) % p);
    lemma_small_mod(w as nat, p as nat);
    assert((w * ((a * r) % p)) % p == w);
    assert(r * (a * w) == w * (a * r)) by (nonlinear_arith);
    assert(w == r);
}

/// For `q >= 0`, scaling distributes over the absolute value.
proof fn lemma_abs_scale(q: int, v: int)
    requires
        q >= 0,
    ensures
        abs(q * v) == q * abs(v),
{
    if v >= 0 {
        assert(q * v >= 0) by (nonlinear_arith)
            requires
                q >= 0,
                v >= 0,
        ;
    } else {
        assert(q * v <= 0) by (nonlinear_arith)
            requires
                q >= 0,
                v <= 0,
        ;
        assert(q * v == -(q * (-v))) by (nonlinear_arith);
    }
}

/// When `u` and `v` do not have the same strict sign, the magnitude of
/// `u - q * v` is the sum of the magnitudes of its parts.
proof fn lemma_abs_opposite_signs(u: int, v: int, q: int)
    requires
        u * v <= 0,
        q >= 0,
    ensures
        abs(u - q * v) == abs(u) + q * abs(v),
{
    lemma_abs_scale(q, v);
    if v == 0 {
        assert(q * v == 0) by (nonlinear_arith)
            requires
                v == 0,
        ;
    } else if v > 0 {
        assert(u <= 0) by (nonlinear_arith)
            requires
                u * v <= 0,
                v > 0,
        ;
        assert(q * v >= 0) by (nonlinear_arith)
            requires
                q >= 0,
                v > 0,
        ;
    } else {
        assert(u >= 0) by (nonlinear_arith)
            requires
                u * v <= 0,
                v < 0,
        ;
        assert(q * v <= 0) by (nonlinear_arith)
            requires
                q >= 0,
                v < 0,
        ;
    }
}

/// Iterative extended Euclidean algorithm.  Returns `(g, x, y)` with
/// `g == gcd(a, b)` and `a * x + b * y == g`, together with bounds on the
/// Bezout coefficients that let callers normalize them without overflow.
pub fn extended_gcd(a: i64, b: i64) -> (res: (i64, i64, i64))
    requires
        0 <= a <= MAX_MODULUS,
        0 <= b <= MAX_MODULUS,
    ensures
        res.0 == gcd(a as nat, b as nat),
        a * res.1 + b * res.2 == res.0,
        abs(res.1 as int) <= max(b as int, 1),
        abs(res.2 as int) <= max(a as int, 1),
{
    let ghost init_a: int = a as int;
    let ghost init_b: int = b as int;
    let mut r0: i64 = a;
    let mut r1: i64 = b;
    let mut x0: i64 = 1;
    let mut y0: i64 = 0;
    let mut x1: i64 = 0;
    let mut y1: i64 = 1;

    while r1 != 0
        invariant
            0 <= init_a <= MAX_MODULUS,
            0 <= init_b <= MAX_MODULUS,
            0 <= r0 <= MAX_MODULUS,
            0 <= r1 <= MAX_MODULUS,
            gcd(r0 as nat, r1 as nat) == gcd(init_a as nat, init_b as nat),
            init_a * x0 + init_b * y0 == r0,
            init_a * x1 + init_b * y1 == r1,
            x0 * x1 <= 0,
            y0 * y1 <= 0,
            r1 * abs(x0 as int) + r0 * abs(x1 as int) == init_b,
            r1 * abs(y0 as int) + r0 * abs(y1 as int) == init_a,
            abs(x0 as int) <= max(init_b, 1),
            abs(x1 as int) <= max(init_b, 1),
            abs(y0 as int) <= max(init_a, 1),
            abs(y1 as int) <= max(init_a, 1),
        decreases r1,
    {
        let ghost old_r0: int = r0 as int;
        let ghost old_r1: int = r1 as int;
        let ghost ax0: int = abs(x0 as int) as int;
        let ghost ax1: int = abs(x1 as int) as int;
        let ghost ay0: int = abs(y0 as int) as int;
        let ghost ay1: int = abs(y1 as int) as int;

        let q_wide: u64 = (r0 as u64) / (r1 as u64);
        let rem_wide: u64 = (r0 as u64) % (r1 as u64);
        proof {
            lemma_fundamental_div_mod(old_r0, old_r1);
            lemma_mod_bound(old_r0, old_r1);
            lemma_div_pos_is_pos(old_r0, old_r1);
            lemma_div_nonincreasing(old_r0, old_r1);
            assert(q_wide == old_r0 / old_r1);
            assert(rem_wide == old_r0 % old_r1);
        }
        let q: i64 = q_wide as i64;
        let rem: i64 = rem_wide as i64;
        proof {
            assert(q == old_r0 / old_r1);
            assert(rem == old_r0 % old_r1);
            assert(q >= 0 && q * old_r1 <= old_r0) by (nonlinear_arith)
                requires
                    old_r0 >= 0,
                    old_r1 >= 1,
                    q == old_r0 / old_r1,
                    old_r0 == old_r1 * q + old_r0 % old_r1,
                    0 <= old_r0 % old_r1 < old_r1,
            ;
            // The running magnitudes keep every product small.
            assert(old_r0 * ax1 <= init_b) by (nonlinear_arith)
                requires
                    old_r1 * ax0 + old_r0 * ax1 == init_b,
                    old_r1 >= 0,
                    ax0 >= 0,
            ;
            assert(q * ax1 <= old_r0 * ax1) by (nonlinear_arith)
                requires
                    0 <= q <= old_r0,
                    ax1 >= 0,
            ;
            assert(old_r0 * ay1 <= init_a) by (nonlinear_arith)
                requires
                    old_r1 * ay0 + old_r0 * ay1 == init_a,
                    old_r1 >= 0,
                    ay0 >= 0,
            ;
            assert(q * ay1 <= old_r0 * ay1) by (nonlinear_arith)
                requires
                    0 <= q <= old_r0,
                    ay1 >= 0,
            ;
            lemma_abs_scale(q as int, x1 as int);
            lemma_abs_scale(q as int, y1 as int);
        }

        let tx: i64 = q * x1;
        let ty: i64 = q * y1;
        let new_x1: i64 = x0 - tx;
        let new_y1: i64 = y0 - ty;

        proof {
            lemma_abs_opposite_signs(x0 as int, x1 as int, q as int);
            lemma_abs_opposite_signs(y0 as int, y1 as int, q as int);
            // Bezout identities carry over to the new pair.
            assert(init_a * new_x1 + init_b * new_y1 == rem) by (nonlinear_arith)
                requires
                    init_a * x0 + init_b * y0 == old_r0,
                    init_a * x1 + init_b * y1 == old_r1,
                    old_r0 == old_r1 * (q as int) + rem,
                    new_x1 == x0 - (q as int) * x1,
                    new_y1 == y0 - (q as int) * y1,
            ;
            // Sign alternation survives one step.
            assert(x1 * new_x1 <= 0) by (nonlinear_arith)
                requires
                    x0 * x1 <= 0,
                    q >= 0,
                    new_x1 == x0 - (q as int) * x1,
            ;
            assert(y1 * new_y1 <= 0) by (nonlinear_arith)
                requires
                    y0 * y1 <= 0,
                    q >= 0,
                    new_y1 == y0 - (q as int) * y1,
            ;
            // The magnitude identity survives one step.
            assert(rem * ax1 + old_r1 * (ax0 + (q as int) * ax1) == init_b) by (nonlinear_arith)
                requires
                    old_r1 * ax0 + old_r0 * ax1 == init_b,
                    old_r0 == old_r1 * (q as int) + rem,
            ;
            assert(rem * ay1 + old_r1 * (ay0 + (q as int) * ay1) == init_a) by (nonlinear_arith)
                requires
                    old_r1 * ay0 + old_r0 * ay1 == init_a,
                    old_r0 == old_r1 * (q as int) + rem,
            ;
            // New magnitudes stay within the initial bounds.
            assert(abs(new_x1 as int) <= init_b || (init_b == 0 && abs(new_x1 as int) <= 1))
                by (nonlinear_arith)
                requires
                    rem * ax1 + old_r1 * abs(new_x1 as int) == init_b,
                    rem >= 0,
                    ax1 >= 0,
                    old_r1 >= 1,
                    abs(new_x1 as int) >= 0,
            ;
            assert(abs(new_y1 as int) <= init_a || (init_a == 0 && abs(new_y1 as int) <= 1))
                by (nonlinear_arith)
                requires
                    rem * ay1 + old_r1 * abs(new_y1 as int) == init_a,
                    rem >= 0,
                    ay1 >= 0,
                    old_r1 >= 1,
                    abs(new_y1 as int) >= 0,
            ;
            // One Euclidean step preserves the gcd by definition.
            assert(gcd(old_r0 as nat, old_r1 as nat) == gcd(old_r1 as nat, (old_r0 % old_r1) as nat));
        }

        r0 = r1;
        r1 = rem;
        x0 = x1;
        x1 = new_x1;
        y0 = y1;
        y1 = new_y1;
    }

    proof {
        assert(gcd(r0 as nat, 0) == r0 as nat);
    }
    (r0, x0, y0)
}

/// Modular inverse through the extended Euclidean algorithm.  Fails with
/// `NonInvertible` exactly when `gcd(a, modulus) != 1`; on success the result
/// is the canonical inverse in `[0, modulus)`.
pub fn mod_inverse(a: u64, modulus: u64) -> (res: Result<u64, VoteError>)
    requires
        2 <= modulus <= MAX_MODULUS,
        a <= MAX_MODULUS,
    ensures
        res is Ok <==> gcd(a as nat, modulus as nat) == 1,
        res is Ok ==> is_inverse_of(a as int, res->Ok_0 as int, modulus as int),
        res is Ok ==> res->Ok_0 == inv_mod(a as int, modulus as int),
        res is Err ==> res == Err::<u64, VoteError>(VoteError::NonInvertible),
{
    let (g, x, y) = extended_gcd(a as i64, modulus as i64);
    if g != 1 {
        return Err(VoteError::NonInvertible);
    }
    let m: i64 = modulus as i64;
    proof {
        // abs(x) <= m, and |x| == m is impossible since a*x + m*y == 1 would
        // then make 1 a multiple of m.
        assert(max(m as int, 1) == m as int);
        if x == m || x == -m {
            let s: int = if x == m {
                (a as int) + (y as int)
            } else {
                (y as int) - (a as int)
            };
            assert((m as int) * s == 1) by (nonlinear_arith)
                requires
                    (a as int) * (x as int) + (m as int) * (y as int) == 1,
                    (x == m && s == (a as int) + (y as int)) || (x == -(m as int) && s == (
                    y as int) - (a as int)),
            ;
            assert(false) by (nonlinear_arith)
                requires
                    m >= 2,
                    (m as int) * s == 1,
            ;
        }
        assert(-m < x < m);
    }
    let xn: i64 = if x < 0 {
        x + m
    } else {
        x
    };
    let res: u64 = xn as u64;
    proof {
        // a * xn differs from a * x by a multiple of m, and a * x is 1 plus a
        // multiple of m, so a * xn is congruent to 1.
        let ai = a as int;
        let mi = m as int;
        assert(ai * (x as int) == 1 - mi * (y as int));
        if x < 0 {
            assert(ai * (xn as int) == 1 + mi * (ai - (y as int))) by (nonlinear_arith)
                requires
                    xn == x + mi,
                    ai * (x as int) == 1 - mi * (y as int),
            ;
            lemma_mod_multiples_vanish(ai - (y as int), 1, mi);
        } else {
            assert(ai * (xn as int) == 1 + mi * (-(y as int))) by (nonlinear_arith)
                requires
                    xn == x,
                    ai * (x as int) == 1 - mi * (y as int),
            ;
            lemma_mod_multiples_vanish(-(y as int), 1, mi);
        }
        lemma_small_mod(1nat, mi as nat);
        assert((ai * (res as int)) % mi == 1);
        lemma_inv_mod_unique(ai, mi, res as int);
    }
    Ok(res)
}

} // verus!
