//! Secret reconstruction: Lagrange interpolation at the origin over a prime
//! field, expressed as running products and sums modulo the prime.

use vstd::prelude::*;

use crate::field::MAX_MODULUS;
use crate::field::gcd;
use crate::field::inv_mod;
use crate::field::mod_inverse;
use crate::gate::VoteError;

verus! {

/// Numerator product of the `i`-th Lagrange basis polynomial at the origin,
/// over the first `k` points: the product of `p - x_j` for `j < k`, `j != i`,
/// reduced modulo `p` at every step.
pub open spec fn num_prod(xs: Seq<u64>, i: int, p: int, k: int) -> int
    decreases k,
{
    if k <= 0 {
        1
    } else if k - 1 == i {
        num_prod(xs, i, p, k - 1)
    } else {
        (num_prod(xs, i, p, k - 1) * (p - xs[k - 1])) % p
    }
}

/// Denominator product of the `i`-th Lagrange basis polynomial, over the
/// first `k` points: the product of `(x_i + p - x_j) % p` for `j < k`,
/// `j != i`, reduced modulo `p` at every step.
pub open spec fn den_prod(xs: Seq<u64>, i: int, p: int, k: int) -> int
    decreases k,
{
    if k <= 0 {
        1
    } else if k - 1 == i {
        den_prod(xs, i, p, k - 1)
    } else {
        (den_prod(xs, i, p, k - 1) * ((xs[i] + p - xs[k - 1]) % p)) % p
    }
}

/// The `i`-th Lagrange coefficient at the origin.
pub open spec fn lagrange_coeff(xs: Seq<u64>, i: int, p: int) -> int {
    (num_prod(xs, i, p, xs.len() as int) * inv_mod(den_prod(xs, i, p, xs.len() as int), p)) % p
}

/// The interpolated value at the origin, accumulated over the first `k`
/// points.
pub open spec fn lagrange_partial(xs: Seq<u64>, ys: Seq<u64>, p: int, k: int) -> int
    decreases k,
{
    if k <= 0 {
        0
    } else {
        (lagrange_partial(xs, ys, p, k - 1) + ys[k - 1] * lagrange_coeff(xs, k - 1, p)) % p
    }
}

/// The interpolated value at the origin over all points: the reconstructed
/// secret.
pub open spec fn lagrange_eval(xs: Seq<u64>, ys: Seq<u64>, p: int) -> int {
    lagrange_partial(xs, ys, p, xs.len() as int)
}

/// The `i`-th denominator product is invertible modulo `p`.
pub open spec fn den_invertible_at(xs: Seq<u64>, p: int, i: int) -> bool {
    gcd(den_prod(xs, i, p, xs.len() as int) as nat, p as nat) == 1
}

/// Every denominator product is invertible modulo `p`; reconstruction
/// succeeds exactly under this condition.
pub open spec fn dens_invertible(xs: Seq<u64>, p: int) -> bool {
    forall|i: int| 0 <= i < xs.len() ==> #[trigger] den_invertible_at(xs, p, i)
}

/// Reconstructs the shared secret from `threshold` points by Lagrange
/// interpolation at the origin.  Fails with `NonInvertible` exactly when some
/// denominator product has no inverse modulo `prime`, which is how duplicate
/// evaluation points surface.
pub fn reconstruct_secret(x_values: &Vec<u64>, y_values: &Vec<u64>, prime: u64) -> (res: Result<
    u64,
    VoteError,
>)
    requires
        x_values@.len() == y_values@.len(),
        2 <= prime <= MAX_MODULUS,
        forall|k: int| 0 <= k < x_values@.len() ==> #[trigger] x_values@[k] < prime,
        forall|k: int| 0 <= k < y_values@.len() ==> #[trigger] y_values@[k] < prime,
    ensures
        res is Ok <==> dens_invertible(x_values@, prime as int),
        res is Ok ==> res->Ok_0 < prime && res->Ok_0 == lagrange_eval(
            x_values@,
            y_values@,
            prime as int,
        ),
        res is Err ==> res == Err::<u64, VoteError>(VoteError::NonInvertible),
{
    let threshold: usize = x_values.len();
    let mut secret: u64 = 0;
    let mut i: usize = 0;

    while i < threshold
        invariant
            x_values@.len() == y_values@.len(),
            threshold == x_values@.len(),
            2 <= prime <= MAX_MODULUS,
            forall|k: int| 0 <= k < x_values@.len() ==> #[trigger] x_values@[k] < prime,
            forall|k: int| 0 <= k < y_values@.len() ==> #[trigger] y_values@[k] < prime,
            0 <= i <= threshold,
            secret < prime,
            secret == lagrange_partial(x_values@, y_values@, prime as int, i as int),
            forall|k: int| 0 <= k < i ==> #[trigger] den_invertible_at(x_values@, prime as int, k),
        decreases threshold - i,
    {
        let mut numerator: u64 = 1;
        let mut denominator: u64 = 1;
        let mut j: usize = 0;

        while j < threshold
            invariant
                threshold == x_values@.len(),
                2 <= prime <= MAX_MODULUS,
                forall|k: int| 0 <= k < x_values@.len() ==> #[trigger] x_values@[k] < prime,
                0 <= i < threshold,
                0 <= j <= threshold,
                numerator < prime,
                denominator < prime,
                numerator == num_prod(x_values@, i as int, prime as int, j as int),
                denominator == den_prod(x_values@, i as int, prime as int, j as int),
            decreases threshold - j,
        {
            if i != j {
                proof {
                    assert(numerator * (prime - x_values@[j as int]) < 0x4000_0000_0000_0000)
                        by (nonlinear_arith)
                        requires
                            numerator < 0x8000_0000,
                            0 <= prime - x_values@[j as int] <= 0x8000_0000,
                    ;
                    assert(denominator * ((x_values@[i as int] + prime - x_values@[j as int]) % (
                    prime as int)) < 0x4000_0000_0000_0000) by (nonlinear_arith)
                        requires
                            denominator < 0x8000_0000,
                            0 <= (x_values@[i as int] + prime - x_values@[j as int]) % (
                            prime as int) < 0x8000_0000,
                    ;
                }
                numerator = (numerator * (prime - x_values[j])) % prime;
                denominator = (denominator * ((x_values[i] + prime - x_values[j]) % prime)) % prime;
            }
            j += 1;
        }

        let inv_denominator: u64 = match mod_inverse(denominator, prime) {
            Ok(v) => v,
            Err(e) => {
                proof {
                    assert(((prime as int) as nat) == prime as nat);
                    assert(!den_invertible_at(x_values@, prime as int, i as int));
                    assert(!dens_invertible(x_values@, prime as int));
                }
                return Err(e);
            },
        };
        proof {
            assert(numerator * inv_denominator < 0x4000_0000_0000_0000) by (nonlinear_arith)
                requires
                    numerator < 0x8000_0000,
                    inv_denominator < 0x8000_0000,
            ;
        }
        let lagrange_coefficient: u64 = (numerator * inv_denominator) % prime;
        proof {
            assert(((prime as int) as nat) == prime as nat);
            assert(den_invertible_at(x_values@, prime as int, i as int));
            assert(lagrange_coefficient == lagrange_coeff(x_values@, i as int, prime as int));
            assert(y_values@[i as int] * lagrange_coefficient < 0x4000_0000_0000_0000)
                by (nonlinear_arith)
                requires
                    y_values@[i as int] < 0x8000_0000,
                    lagrange_coefficient < 0x8000_0000,
            ;
        }
        secret = (secret + y_values[i] * lagrange_coefficient) % prime;
        i += 1;
    }

    Ok(secret)
}

} // verus!
