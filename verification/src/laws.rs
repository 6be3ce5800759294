//! The library's stated laws, proved once and for all: totality of the
//! modular inverse over a prime field, the exact value reconstructed from a
//! freshly shared polynomial, failure on duplicate evaluation points, and
//! stability of the vote gate decision under re-evaluation.

use vstd::arithmetic::div_mod::lemma_add_mod_noop;
use vstd::arithmetic::div_mod::lemma_add_mod_noop_right;
use vstd::arithmetic::div_mod::lemma_fundamental_div_mod;
use vstd::arithmetic::div_mod::lemma_mod_multiples_basic;
use vstd::arithmetic::div_mod::lemma_mod_multiples_vanish;
use vstd::arithmetic::div_mod::lemma_mod_self_0;
use vstd::arithmetic::div_mod::lemma_small_mod;
use vstd::prelude::*;

use crate::field::gcd;
use crate::field::is_prime;
use crate::field::lemma_inv_mod_unique;
use crate::field::lemma_prime_gcd_one;
use crate::gate::VoteState;
use crate::reconstruct::den_invertible_at;
use crate::reconstruct::den_prod;
use crate::reconstruct::dens_invertible;
use crate::reconstruct::lagrange_coeff;
use crate::reconstruct::lagrange_eval;
use crate::reconstruct::lagrange_partial;
use crate::reconstruct::num_prod;

verus! {

/// The demonstration field's modulus, 2089, is prime: any factorization
/// would have a factor of at most 45, and no candidate up to 45 divides it.
pub proof fn lemma_prime_2089()
    ensures
        is_prime(2089),
{
    assert forall|d: int| 2 <= d < 2089 implies #[trigger] (2089int % d) != 0 by {
        if 2089int % d == 0 {
            lemma_fundamental_div_mod(2089, d);
            let e: int = 2089int / d;
            assert(d * e == 2089);
            assert(e >= 2) by (nonlinear_arith)
                requires
                    d * e == 2089,
                    2 <= d < 2089,
            ;
            let f: int = if d <= 45 { d } else { e };
            assert(2 <= f <= 45) by (nonlinear_arith)
                requires
                    d * e == 2089,
                    d >= 2,
                    e >= 2,
                    f == if d <= 45 { d } else { e },
            ;
            if d <= 45 {
            } else {
                lemma_mod_multiples_basic(d, e);
                assert(2089int % e == 0);
            }
            assert(2089int % f == 0);
            if f == 2 {
                assert(2089int % 2int != 0);
            } else if f == 3 {
                assert(2089int % 3int != 0);
            } else if f == 4 {
                assert(2089int % 4int != 0);
            } else if f == 5 {
                assert(2089int % 5int != 0);
            } else if f == 6 {
                assert(2089int % 6int != 0);
            } else if f == 7 {
                assert(2089int % 7int != 0);
            } else if f == 8 {
                assert(2089int % 8int != 0);
            } else if f == 9 {
                assert(2089int % 9int != 0);
            } else if f == 10 {
                assert(2089int % 10int != 0);
            } else if f == 11 {
                assert(2089int % 11int != 0);
            } else if f == 12 {
                assert(2089int % 12int != 0);
            } else if f == 13 {
                assert(2089int % 13int != 0);
            } else if f == 14 {
                assert(2089int % 14int != 0);
            } else if f == 15 {
                assert(2089int % 15int != 0);
            } else if f == 16 {
                assert(2089int % 16int != 0);
            } else if f == 17 {
                assert(2089int % 17int != 0);
            } else if f == 18 {
                assert(2089int % 18int != 0);
            } else if f == 19 {
                assert(2089int % 19int != 0);
            } else if f == 20 {
                assert(2089int % 20int != 0);
            } else if f == 21 {
                assert(2089int % 21int != 0);
            } else if f == 22 {
                assert(2089int % 22int != 0);
            } else if f == 23 {
                assert(2089int % 23int != 0);
            } else if f == 24 {
                assert(2089int % 24int != 0);
            } else if f == 25 {
                assert(2089int % 25int != 0);
            } else if f == 26 {
                assert(2089int % 26int != 0);
            } else if f == 27 {
                assert(2089int % 27int != 0);
            } else if f == 28 {
                assert(2089int % 28int != 0);
            } else if f == 29 {
                assert(2089int % 29int != 0);
            } else if f == 30 {
                assert(2089int % 30int != 0);
            } else if f == 31 {
                assert(2089int % 31int != 0);
            } else if f == 32 {
                assert(2089int % 32int != 0);
            } else if f == 33 {
                assert(2089int % 33int != 0);
            } else if f == 34 {
                assert(2089int % 34int != 0);
            } else if f == 35 {
                assert(2089int % 35int != 0);
            } else if f == 36 {
                assert(2089int % 36int != 0);
            } else if f == 37 {
                assert(2089int % 37int != 0);
            } else if f == 38 {
                assert(2089int % 38int != 0);
            } else if f == 39 {
                assert(2089int % 39int != 0);
            } else if f == 40 {
                assert(2089int % 40int != 0);
            } else if f == 41 {
                assert(2089int % 41int != 0);
            } else if f == 42 {
                assert(2089int % 42int != 0);
            } else if f == 43 {
                assert(2089int % 43int != 0);
            } else if f == 44 {
                assert(2089int % 44int != 0);
            } else if f == 45 {
                assert(2089int % 45int != 0);
            } else {
                assert(false);
            }
            assert(false);
        }
    };
}

/// Law: in the prime field every nonzero element is invertible.  Together
/// with the contract of `mod_inverse`, for every `a` in `[1, 2089)` the call
/// `mod_inverse(a, 2089)` returns `Ok(r)` with `(a * r) % 2089 == 1`.
pub proof fn lemma_inverse_total_in_field(a: u64)
    requires
        1 <= a < 2089,
    ensures
        gcd(a as nat, 2089nat) == 1,
{
    lemma_prime_2089();
    lemma_prime_gcd_one(a as nat, 2089nat);
}

/// Once some factor of a denominator product is zero modulo `p`, the whole
/// running product is zero.
proof fn lemma_den_prod_zero(xs: Seq<u64>, p: int, i: int, j: int, k: int)
    requires
        2 <= p,
        0 <= i < xs.len(),
        0 <= j < xs.len(),
        i != j,
        xs[i] == xs[j],
        j < k <= xs.len(),
    ensures
        den_prod(xs, i, p, k) == 0,
    decreases k,
{
    lemma_mod_self_0(p);
    lemma_small_mod(0, p as nat);
    if k == j + 1 {
        assert((xs[i] + p - xs[j]) % p == 0);
        assert(den_prod(xs, i, p, k) == (den_prod(xs, i, p, k - 1) * ((xs[i] + p - xs[k - 1])
            % p)) % p);
        assert(den_prod(xs, i, p, k - 1) * 0 == 0) by (nonlinear_arith);
    } else {
        lemma_den_prod_zero(xs, p, i, j, k - 1);
        if k - 1 == i {
        } else {
            assert(den_prod(xs, i, p, k) == (den_prod(xs, i, p, k - 1) * ((xs[i] + p - xs[k - 1])
                % p)) % p);
            assert(0 * ((xs[i] + p - xs[k - 1]) % p) == 0) by (nonlinear_arith);
        }
    }
}

/// Law: two coinciding evaluation points make the interpolation basis
/// singular.  Together with the contract of `reconstruct_secret`, any point
/// set holding a duplicated x-value is rejected with `NonInvertible`.
pub proof fn lemma_duplicate_points_fail(xs: Seq<u64>, p: int, i: int, j: int)
    requires
        2 <= p,
        0 <= i < xs.len(),
        0 <= j < xs.len(),
        i != j,
        xs[i] == xs[j],
    ensures
        !dens_invertible(xs, p),
{
    lemma_den_prod_zero(xs, p, i, j, xs.len() as int);
    lemma_small_mod(0, p as nat);
    assert(gcd(0, p as nat) == gcd(p as nat, 0));
    assert(gcd(p as nat, 0) == p as nat);
    assert(!den_invertible_at(xs, p, i));
    assert(!dens_invertible(xs, p));
}

/// Law: re-evaluating the vote gate with an unchanged vote record decides the
/// same value: the decision reads nothing that caching the decision writes.
pub proof fn lemma_gate_decision_stable(s: VoteState, gate: bool)
    ensures
        s.with_gate(gate).gate_decision() == s.gate_decision(),
{
}


/// Evaluates the three denominator products for the share points 1, 2, 3.
proof fn lemma_round_trip_dens(xs: Seq<u64>)
    requires
        xs =~= seq![1u64, 2u64, 3u64],
    ensures
        den_prod(xs, 0, 2089, 3) == 2,
        den_prod(xs, 1, 2089, 3) == 2088,
        den_prod(xs, 2, 2089, 3) == 2,
{
    assert(xs[0] == 1u64 && xs[1] == 2u64 && xs[2] == 3u64);
    assert(den_prod(xs, 0, 2089, 0) == 1);
    assert(den_prod(xs, 0, 2089, 1) == 1);
    assert(den_prod(xs, 0, 2089, 2) == (1 * ((1 + 2089 - 2) % 2089)) % 2089);
    assert(den_prod(xs, 0, 2089, 3) == (2088 * ((1 + 2089 - 3) % 2089)) % 2089);
    assert(den_prod(xs, 1, 2089, 0) == 1);
    assert(den_prod(xs, 1, 2089, 1) == (1 * ((2 + 2089 - 1) % 2089)) % 2089);
    assert(den_prod(xs, 1, 2089, 2) == 1);
    assert(den_prod(xs, 1, 2089, 3) == (1 * ((2 + 2089 - 3) % 2089)) % 2089);
    assert(den_prod(xs, 2, 2089, 0) == 1);
    assert(den_prod(xs, 2, 2089, 1) == (1 * ((3 + 2089 - 1) % 2089)) % 2089);
    assert(den_prod(xs, 2, 2089, 2) == (2 * ((3 + 2089 - 2) % 2089)) % 2089);
    assert(den_prod(xs, 2, 2089, 3) == 2);
}

/// Evaluates the three numerator products for the share points 1, 2, 3.
proof fn lemma_round_trip_nums(xs: Seq<u64>)
    requires
        xs =~= seq![1u64, 2u64, 3u64],
    ensures
        num_prod(xs, 0, 2089, 3) == 6,
        num_prod(xs, 1, 2089, 3) == 3,
        num_prod(xs, 2, 2089, 3) == 2,
{
    assert(xs[0] == 1u64 && xs[1] == 2u64 && xs[2] == 3u64);
    assert(num_prod(xs, 0, 2089, 0) == 1);
    assert(num_prod(xs, 0, 2089, 1) == 1);
    assert(num_prod(xs, 0, 2089, 2) == (1 * (2089 - 2)) % 2089);
    assert(num_prod(xs, 0, 2089, 3) == (2087 * (2089 - 3)) % 2089);
    assert(num_prod(xs, 0, 2089, 3) == 6);
    assert(num_prod(xs, 1, 2089, 0) == 1);
    assert(num_prod(xs, 1, 2089, 1) == (1 * (2089 - 1)) % 2089);
    assert(num_prod(xs, 1, 2089, 2) == 2088);
    assert(num_prod(xs, 1, 2089, 3) == (2088 * (2089 - 3)) % 2089);
    assert(num_prod(xs, 1, 2089, 3) == 3);
    assert(num_prod(xs, 2, 2089, 0) == 1);
    assert(num_prod(xs, 2, 2089, 1) == (1 * (2089 - 1)) % 2089);
    assert(num_prod(xs, 2, 2089, 2) == (2088 * (2089 - 2)) % 2089);
    assert(num_prod(xs, 2, 2089, 3) == 2);
}

/// The two gcd values the round trip meets are 1.
proof fn lemma_round_trip_gcds()
    ensures
        gcd(2, 2089) == 1,
        gcd(2088, 2089) == 1,
{
    assert(gcd(2, 2089) == gcd(2089, 2));
    assert(gcd(2089, 2) == gcd(2, 1));
    assert(gcd(2, 1) == gcd(1, 0));
    assert(gcd(1, 0) == 1);
    assert(gcd(2088, 2089) == gcd(2089, 2088));
    assert(gcd(2089, 2088) == gcd(2088, 1));
    assert(gcd(2088, 1) == gcd(1, 0));
}

/// Law: sharing, then reconstructing, is the identity on the secret.  For
/// every secret and every pair of nonzero coefficients, the three shares
/// `(x, (secret + c1 * x + c2 * x^2) mod 2089)` at `x = 1, 2, 3`
/// interpolate, and the value reconstructed from them is exactly the
/// secret.  Together with the contract of `reconstruct_secret`, the call on
/// those shares returns `Ok(secret)`.
pub proof fn lemma_reconstruction_round_trip(secret: u64, c1: u64, c2: u64)
    requires
        secret < 2089,
        1 <= c1 < 2089,
        1 <= c2 < 2089,
    ensures
        ({
            let xs = seq![1u64, 2u64, 3u64];
            let ys = seq![
                ((secret + c1 + c2) % 2089) as u64,
                ((secret + 2 * c1 + 4 * c2) % 2089) as u64,
                ((secret + 3 * c1 + 9 * c2) % 2089) as u64,
            ];
            dens_invertible(xs, 2089) && lagrange_eval(xs, ys, 2089) == secret
        }),
{
    let p: int = 2089;
    let xs = seq![1u64, 2u64, 3u64];
    let s1: int = secret + c1 + c2;
    let s2: int = secret + 2 * c1 + 4 * c2;
    let s3: int = secret + 3 * c1 + 9 * c2;
    let ys = seq![(s1 % p) as u64, (s2 % p) as u64, (s3 % p) as u64];
    assert(xs.len() == 3 && ys.len() == 3);
    lemma_round_trip_dens(xs);
    lemma_round_trip_nums(xs);
    lemma_round_trip_gcds();

    // Both denominator values are invertible, with known inverses.
    assert((2int * 1045) % p == 1);
    assert((2088int * 2088) % p == 1);
    lemma_inv_mod_unique(2, p, 1045);
    lemma_inv_mod_unique(2088, p, 2088);
    assert forall|i: int| 0 <= i < xs.len() implies #[trigger] den_invertible_at(xs, p, i) by {
        if i == 0 || i == 2 {
            assert(gcd(den_prod(xs, i, p, xs.len() as int) as nat, p as nat) == gcd(2, 2089));
        } else {
            assert(i == 1);
            assert(gcd(den_prod(xs, i, p, xs.len() as int) as nat, p as nat) == gcd(2088, 2089));
        }
    };
    assert(dens_invertible(xs, p));

    // The three Lagrange coefficients at the origin are 3, -3 and 1 mod p.
    assert(lagrange_coeff(xs, 0, p) == (6int * 1045) % p);
    assert(lagrange_coeff(xs, 1, p) == (3int * 2088) % p);
    assert(lagrange_coeff(xs, 2, p) == (2int * 1045) % p);
    assert(lagrange_coeff(xs, 0, p) == 3);
    assert(lagrange_coeff(xs, 1, p) == 2086);
    assert(lagrange_coeff(xs, 2, p) == 1);

    // Push the per-share reductions outward: the running sum is the plain
    // integer combination of the share values, reduced once.
    let a: int = s1 * 3;
    let b: int = s2 * 2086;
    let c: int = s3 * 1;
    assert(ys[0] == (s1 % p) as u64 && ys[1] == (s2 % p) as u64 && ys[2] == (s3 % p) as u64);
    assert(lagrange_partial(xs, ys, p, 0) == 0);
    assert(lagrange_partial(xs, ys, p, 1) == (0 + ys[0] * lagrange_coeff(xs, 0, p)) % p);
    assert(lagrange_partial(xs, ys, p, 1) == ((s1 % p) * 3) % p);
    vstd::arithmetic::div_mod::lemma_mul_mod_noop_left(s1, 3, p);
    assert(lagrange_partial(xs, ys, p, 1) == a % p);
    assert(lagrange_partial(xs, ys, p, 2) == (a % p + (s2 % p) * 2086) % p);
    vstd::arithmetic::div_mod::lemma_mul_mod_noop_left(s2, 2086, p);
    assert(((s2 % p) * 2086) % p == b % p);
    lemma_add_mod_noop_right((s2 % p) * 2086, a, p);
    assert((a % p + (s2 % p) * 2086) % p == ((s2 % p) * 2086 + a) % p);
    assert(((s2 % p) * 2086 + a) % p == (a + (s2 % p) * 2086) % p);
    lemma_add_mod_noop_right(a, (s2 % p) * 2086, p);
    assert((a + (s2 % p) * 2086) % p == (a + (((s2 % p) * 2086) % p)) % p);
    assert((a + (((s2 % p) * 2086) % p)) % p == (a + (b % p)) % p);
    lemma_add_mod_noop_right(a, b, p);
    assert(lagrange_partial(xs, ys, p, 2) == (a + b) % p);
    assert(lagrange_partial(xs, ys, p, 3) == ((a + b) % p + (s3 % p) * 1) % p);
    assert((s3 % p) * 1 == s3 % p);
    lemma_add_mod_noop((a + b), s3, p);
    assert(lagrange_partial(xs, ys, p, 3) == (a + b + s3) % p);

    // The integer combination collapses to the secret plus a multiple of p.
    assert(a + b + c == secret + 2089 * (secret + 2 * c1 + 4 * c2));
    lemma_mod_multiples_vanish(secret + 2 * c1 + 4 * c2, secret as int, p);
    lemma_small_mod(secret as nat, p as nat);
    assert(lagrange_partial(xs, ys, p, 3) == secret);
    assert(lagrange_eval(xs, ys, p) == secret);
}

/// Law: under the record invariant, a quorum of affirmative votes exists
/// exactly when the point set is full.  Every affirmative vote increments
/// the yes tally and, below the threshold, deposits one share, so the
/// threshold-th affirmative vote completes the point set.
pub proof fn lemma_quorum_iff_full_point_set(s: VoteState)
    requires
        s.wf(),
    ensures
        s.quorum_reached() <==> s.shares_collected == s.threshold,
{
}

} // verus!
