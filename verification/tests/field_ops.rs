use secure_voting::field::{extended_gcd, mod_inverse};
use secure_voting::gate::VoteError;
use secure_voting::reconstruct::reconstruct_secret;

const PRIME: u64 = 2089;

#[test]
fn extended_gcd_classic_pair() {
    let (g, x, y) = extended_gcd(240, 46);
    assert_eq!(g, 2);
    assert_eq!(240 * x + 46 * y, 2);
}

#[test]
fn extended_gcd_with_zero() {
    assert_eq!(extended_gcd(0, 7), (7, 0, 1));
    assert_eq!(extended_gcd(7, 0), (7, 1, 0));
}

#[test]
fn mod_inverse_exact_values() {
    assert_eq!(mod_inverse(2, PRIME), Ok(1045));
    assert_eq!(mod_inverse(2088, PRIME), Ok(2088));
    assert_eq!(mod_inverse(1, PRIME), Ok(1));
}

#[test]
fn mod_inverse_of_every_nonzero_element() {
    for a in 1..PRIME {
        let inv = mod_inverse(a, PRIME).unwrap();
        assert!(inv < PRIME);
        assert_eq!((a * inv) % PRIME, 1);
    }
}

#[test]
fn mod_inverse_rejects_multiples_of_the_modulus() {
    assert_eq!(mod_inverse(0, PRIME), Err(VoteError::NonInvertible));
    assert_eq!(mod_inverse(PRIME, PRIME), Err(VoteError::NonInvertible));
}

#[test]
fn mod_inverse_small_modulus() {
    // 4 shares a factor with 6, while 5 does not.
    assert_eq!(mod_inverse(4, 6), Err(VoteError::NonInvertible));
    assert_eq!(mod_inverse(5, 6), Ok(5));
}

#[test]
fn reconstruct_recovers_the_secret() {
    // Shares of f(x) = 11 + 5x + 9x^2 at x = 1, 2, 3.
    let xs = vec![1, 2, 3];
    let ys = vec![25, 57, 107];
    assert_eq!(reconstruct_secret(&xs, &ys, PRIME), Ok(11));
}

#[test]
fn reconstruct_is_order_independent() {
    let xs = vec![3, 1, 2];
    let ys = vec![107, 25, 57];
    assert_eq!(reconstruct_secret(&xs, &ys, PRIME), Ok(11));
}

#[test]
fn reconstruct_from_other_share_triples() {
    // Any three shares of the same polynomial determine the same secret.
    let xs = vec![2, 4, 5];
    let ys = vec![57, 175, 261];
    assert_eq!(reconstruct_secret(&xs, &ys, PRIME), Ok(11));
}

#[test]
fn reconstruct_round_trip_sample() {
    // secret = 1234, c1 = 77, c2 = 1500, evaluated at x = 1, 2, 3.
    let secret: u64 = 1234;
    let c1: u64 = 77;
    let c2: u64 = 1500;
    let mut xs = Vec::new();
    let mut ys = Vec::new();
    for x in 1..=3u64 {
        xs.push(x);
        ys.push((secret + c1 * x + c2 * x * x) % PRIME);
    }
    assert_eq!(reconstruct_secret(&xs, &ys, PRIME), Ok(secret));
}

#[test]
fn reconstruct_fails_on_duplicate_points() {
    let xs = vec![1, 1, 3];
    let ys = vec![25, 999, 107];
    assert_eq!(reconstruct_secret(&xs, &ys, PRIME), Err(VoteError::NonInvertible));
}

#[test]
fn reconstruct_trivial_cases() {
    // A single point pins a degree-zero polynomial; an empty set sums to 0.
    assert_eq!(reconstruct_secret(&vec![5], &vec![42], PRIME), Ok(42));
    assert_eq!(reconstruct_secret(&vec![], &vec![], PRIME), Ok(0));
}
