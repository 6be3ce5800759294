//! The vote-gate state machine: dealer setup, per-participant shares, vote
//! submission, gate evaluation, and the one-way upgrade side effect.
//!
//! Signature checks and record storage belong to the hosting runtime; the
//! engine receives plain identities and plain values, and the host is
//! expected to have verified that a caller really holds the identity it
//! presents.

use vstd::prelude::*;

use crate::field::MAX_MODULUS;
use crate::reconstruct::dens_invertible;
use crate::reconstruct::lagrange_eval;
use crate::reconstruct::reconstruct_secret;

verus! {

/// Size in bytes of the fixed buffer the upgrade writes into.
pub const UPGRADE_FILE_CAPACITY: usize = 64;

/// Every failure the engine can surface.  Each is detected before any state
/// is mutated, so a failed operation leaves its records unchanged.
#[derive(Clone, Copy, Debug, PartialEq, Eq, Structural)]
pub enum VoteError {
    /// The participant has already cast its single vote.
    AlreadyVoted,
    /// Too few shares were deposited to reconstruct the secret.
    InsufficientShares,
    /// A field element with no multiplicative inverse was encountered.
    NonInvertible,
    /// The upgrade was requested while the vote gate is closed.
    UpgradeNotApproved,
    /// The payload does not fit the upgrade file's fixed buffer.
    ContentTooLarge,
    /// The dealer supplied the wrong number of coefficients.
    InvalidPolynomialDegree,
}

impl VoteError {
    /// A human-readable description of the failure.
    pub fn message(&self) -> &'static str {
        match self {
            VoteError::AlreadyVoted => "Voter has already voted",
            VoteError::InsufficientShares => "Insufficient shares to compute the result",
            VoteError::NonInvertible => "Non-invertible element encountered",
            VoteError::UpgradeNotApproved => "Upgrade has not been approved",
            VoteError::ContentTooLarge => "Content is too large for the UpgradeFile account",
            VoteError::InvalidPolynomialDegree => "Invalid polynomial degree",
        }
    }
}

/// One participant: an identity, one share, and the single-vote flag.
#[derive(Debug, Clone, PartialEq, Eq)]
pub struct Voter {
    pub has_voted: bool,
    pub share_x: u64,
    pub share_y: u64,
    pub authority: u64,
}

/// The fixed-size buffer the approved upgrade overwrites.
#[derive(Debug, Clone, PartialEq, Eq)]
pub struct UpgradeFile {
    pub content: Vec<u8>,
}

/// The vote gate's single record: configuration, collected shares, vote tallies,
/// and the cached gate flag.
#[derive(Debug, Clone, PartialEq, Eq)]
pub struct VoteState {
    pub threshold: u64,
    pub total_voters: u64,
    pub shares_collected: u64,
    pub x_values: Vec<u64>,
    pub y_values: Vec<u64>,
    pub upgrade_occurred: bool,
    pub coefficients: Vec<u64>,
    pub dealer_authority: Option<u64>,
    pub yes_votes: u64,
    pub total_votes: u64,
    pub prime: u64,
    pub expected_secret: u64,
}

/// Builds a zeroed byte buffer of the requested size.
fn zeroed_bytes(n: usize) -> (v: Vec<u8>)
    ensures
        v@.len() == n,
        forall|k: int| 0 <= k < n ==> v@[k] == 0,
{
    let mut v: Vec<u8> = Vec::new();
    while v.len() < n
        invariant
            v@.len() <= n,
            forall|k: int| 0 <= k < v@.len() ==> v@[k] == 0,
        decreases n - v@.len(),
    {
        v.push(0);
    }
    v
}

/// Builds a zeroed field-element buffer of the requested size.
fn zeroed_elements(n: usize) -> (v: Vec<u64>)
    ensures
        v@.len() == n,
        forall|k: int| 0 <= k < n ==> v@[k] == 0,
{
    let mut v: Vec<u64> = Vec::new();
    while v.len() < n
        invariant
            v@.len() <= n,
            forall|k: int| 0 <= k < v@.len() ==> v@[k] == 0,
        decreases n - v@.len(),
    {
        v.push(0);
    }
    v
}

impl UpgradeFile {
    /// Overwrites the front of the buffer with `bytes`, leaving the rest as
    /// it was; a payload longer than the buffer is rejected whole, with no
    /// partial write.
    pub fn write_content(&mut self, bytes: &Vec<u8>) -> (res: Result<(), VoteError>)
        ensures
            res is Ok <==> bytes@.len() <= old(self).content@.len(),
            res is Err ==> res == Err::<(), VoteError>(VoteError::ContentTooLarge) && *final(self)
                == *old(self),
            res is Ok ==> ({
                &&& final(self).content@.len() == old(self).content@.len()
                &&& forall|k: int|
                    0 <= k < bytes@.len() ==> final(self).content@[k] == bytes@[k]
                &&& forall|k: int|
                    bytes@.len() <= k < old(self).content@.len() ==> final(self).content@[k] == old(self).content@[k]
            }),
    {
        if bytes.len() > self.content.len() {
            return Err(VoteError::ContentTooLarge);
        }
        let mut i: usize = 0;
        while i < bytes.len()
            invariant
                bytes@.len() <= old(self).content@.len(),
                self.content@.len() == old(self).content@.len(),
                0 <= i <= bytes@.len(),
                forall|k: int| 0 <= k < i ==> self.content@[k] == bytes@[k],
                forall|k: int|
                    i <= k < self.content@.len() ==> self.content@[k] == old(self).content@[k],
            decreases bytes@.len() - i,
        {
            self.content.set(i, bytes[i]);
            i += 1;
        }
        Ok(())
    }
}

impl VoteState {
    /// Structural soundness of a gate record: buffers sized by the
    /// threshold, collected shares tracking the yes-vote count up to the
    /// threshold, every stored value a field element, and unused slots
    /// zeroed.
    pub open spec fn wf(self) -> bool {
        &&& self.x_values@.len() == self.threshold as int
        &&& self.y_values@.len() == self.threshold as int
        &&& 2 <= self.prime <= MAX_MODULUS
        &&& self.shares_collected == if self.yes_votes <= self.threshold {
            self.yes_votes
        } else {
            self.threshold
        }
        &&& self.yes_votes <= self.total_votes
        &&& forall|k: int| 0 <= k < self.threshold ==> #[trigger] self.x_values@[k] < self.prime
        &&& forall|k: int| 0 <= k < self.threshold ==> #[trigger] self.y_values@[k] < self.prime
        &&& forall|k: int|
            self.shares_collected <= k < self.threshold ==> #[trigger] self.x_values@[k] == 0
                && self.y_values@[k] == 0
    }

    /// Enough affirmative votes have landed to attempt reconstruction.
    pub open spec fn quorum_reached(self) -> bool {
        self.yes_votes >= self.threshold
    }

    /// What a (re)computation of the result decides: the vote gate opens exactly
    /// when a quorum exists, the collected points interpolate, and the
    /// reconstructed value is the expected secret.
    pub open spec fn gate_decision(self) -> bool {
        &&& self.quorum_reached()
        &&& dens_invertible(self.x_values@, self.prime as int)
        &&& lagrange_eval(self.x_values@, self.y_values@, self.prime as int)
            == self.expected_secret as int
    }

    /// The same record with the vote gate flag replaced.
    pub open spec fn with_gate(self, gate: bool) -> VoteState {
        VoteState { upgrade_occurred: gate, ..self }
    }

    /// Dealer gives the polynomial to the vote gate.  The hosting runtime has
    /// already checked that the caller is the stored dealer authority; the
    /// precondition that the authority is still present is the
    /// "not yet configured" state.  Exactly `threshold` coefficients are
    /// accepted, and the dealer authority is then cleared for good.
    pub fn create_polynomial_and_distribute_shares(&mut self, coefficients: Vec<u64>) -> (res:
        Result<(), VoteError>)
        requires
            old(self).wf(),
            old(self).dealer_authority is Some,
        ensures
            final(self).wf(),
            res is Ok <==> coefficients@.len() == old(self).threshold as int,
            res is Err ==> res == Err::<(), VoteError>(VoteError::InvalidPolynomialDegree) && *final(self) == *old(self),
            res is Ok ==> *final(self) == (VoteState {
                coefficients,
                dealer_authority: None,
                ..*old(self)
            }),
    {
        if coefficients.len() as u64 != self.threshold {
            return Err(VoteError::InvalidPolynomialDegree);
        }
        self.coefficients = coefficients;
        self.dealer_authority = None;
        Ok(())
    }

    /// One participant casts its single vote.  A second submission is
    /// rejected before anything is mutated.  An affirmative vote is tallied
    /// and, while fewer than `threshold` shares are collected, deposits the
    /// voter's share in the next free slot.
    pub fn submit_vote(&mut self, voter: &mut Voter, vote: bool) -> (res: Result<(), VoteError>)
        requires
            old(self).wf(),
            old(voter).share_x < old(self).prime,
            old(voter).share_y < old(self).prime,
            old(self).total_votes < u64::MAX,
        ensures
            final(self).wf(),
            old(voter).has_voted ==> res == Err::<(), VoteError>(VoteError::AlreadyVoted) && *final(self) == *old(self) && *final(voter) == *old(voter),
            !old(voter).has_voted ==> {
                &&& res is Ok
                &&& *final(voter) == (Voter { has_voted: true, ..*old(voter) })
                &&& final(self).threshold == old(self).threshold
                &&& final(self).total_voters == old(self).total_voters
                &&& final(self).prime == old(self).prime
                &&& final(self).expected_secret == old(self).expected_secret
                &&& final(self).coefficients == old(self).coefficients
                &&& final(self).dealer_authority == old(self).dealer_authority
                &&& final(self).upgrade_occurred == old(self).upgrade_occurred
                &&& final(self).total_votes == old(self).total_votes + 1
                &&& final(self).yes_votes == old(self).yes_votes + if vote {
                    1int
                } else {
                    0int
                }
            },
            !old(voter).has_voted && vote && old(self).shares_collected < old(self).threshold
                ==> {
                &&& final(self).shares_collected == old(self).shares_collected + 1
                &&& final(self).x_values@ == old(self).x_values@.update(
                    old(self).shares_collected as int,
                    old(voter).share_x,
                )
                &&& final(self).y_values@ == old(self).y_values@.update(
                    old(self).shares_collected as int,
                    old(voter).share_y,
                )
            },
            !old(voter).has_voted && !(vote && old(self).shares_collected < old(self).threshold)
                ==> {
                &&& final(self).shares_collected == old(self).shares_collected
                &&& final(self).x_values@ == old(self).x_values@
                &&& final(self).y_values@ == old(self).y_values@
            },
    {
        if voter.has_voted {
            return Err(VoteError::AlreadyVoted);
        }
        voter.has_voted = true;
        self.total_votes = self.total_votes + 1;
        if vote {
            self.yes_votes = self.yes_votes + 1;
            if self.shares_collected < self.threshold {
                let cap: usize = self.x_values.len();
                proof {
                    assert(self.shares_collected < cap);
                }
                let index: usize = self.shares_collected as usize;
                self.x_values.set(index, voter.share_x);
                self.y_values.set(index, voter.share_y);
                self.shares_collected = self.shares_collected + 1;
                proof {
                    assert forall|k: int|
                        0 <= k < self.threshold implies #[trigger] self.x_values@[k]
                        < self.prime by {
                        if k != index as int {
                            assert(self.x_values@[k] == old(self).x_values@[k]);
                        }
                    };
                    assert forall|k: int|
                        0 <= k < self.threshold implies #[trigger] self.y_values@[k]
                        < self.prime by {
                        if k != index as int {
                            assert(self.y_values@[k] == old(self).y_values@[k]);
                        }
                    };
                    assert forall|k: int|
                        self.shares_collected <= k < self.threshold implies #[trigger] self
                            .x_values@[k] == 0 && self.y_values@[k] == 0 by {
                        assert(self.x_values@[k] == old(self).x_values@[k]);
                        assert(self.y_values@[k] == old(self).y_values@[k]);
                        assert(old(self).x_values@[k] == 0 && old(self).y_values@[k] == 0);
                    };
                }
            }
        }
        proof {
            assert(self.wf());
        }
        Ok(())
    }

    /// Recomputes the vote gate flag.  With a quorum of affirmative votes the
    /// collected points are interpolated and the vote gate opens exactly when the
    /// reconstructed value is the expected secret; without a quorum the vote gate
    /// is closed without attempting reconstruction.  A singular point set
    /// surfaces as `NonInvertible` and leaves the record unchanged.
    pub fn compute_result(&mut self) -> (res: Result<(), VoteError>)
        requires
            old(self).wf(),
        ensures
            final(self).wf(),
            res is Ok <==> (!old(self).quorum_reached() || dens_invertible(
                old(self).x_values@,
                old(self).prime as int,
            )),
            res is Ok ==> *final(self) == old(self).with_gate(old(self).gate_decision()),
            res is Err ==> res == Err::<(), VoteError>(VoteError::NonInvertible) && *final(self)
                == *old(self),
    {
        if self.yes_votes >= self.threshold {
            let secret: u64 = match reconstruct_secret(&self.x_values, &self.y_values, self.prime) {
                Ok(v) => v,
                Err(e) => {
                    return Err(e);
                },
            };
            self.upgrade_occurred = secret == self.expected_secret;
        } else {
            self.upgrade_occurred = false;
        }
        Ok(())
    }
}

/// Creates the vote gate record and the upgrade file, the latter holding
/// `initial_content` followed by zeroes.  The dealer keeps its authority
/// until it commits the polynomial.
pub fn initialize(
    dealer: u64,
    threshold: u64,
    total_voters: u64,
    prime: u64,
    expected_secret: u64,
    initial_content: &Vec<u8>,
) -> (res: Result<(VoteState, UpgradeFile), VoteError>)
    requires
        2 <= prime <= MAX_MODULUS,
        threshold <= usize::MAX,
    ensures
        res is Ok <==> initial_content@.len() <= UPGRADE_FILE_CAPACITY,
        res is Err ==> res == Err::<(VoteState, UpgradeFile), VoteError>(
            VoteError::ContentTooLarge,
        ),
        res is Ok ==> ({
            let state = res->Ok_0.0;
            let file = res->Ok_0.1;
            &&& state.wf()
            &&& state.threshold == threshold
            &&& state.total_voters == total_voters
            &&& state.prime == prime
            &&& state.expected_secret == expected_secret
            &&& state.dealer_authority == Some(dealer)
            &&& state.upgrade_occurred == false
            &&& state.shares_collected == 0
            &&& state.yes_votes == 0
            &&& state.total_votes == 0
            &&& state.coefficients@.len() == 0
            &&& file.content@.len() == UPGRADE_FILE_CAPACITY
            &&& forall|k: int|
                0 <= k < initial_content@.len() ==> file.content@[k] == initial_content@[k]
            &&& forall|k: int|
                initial_content@.len() <= k < UPGRADE_FILE_CAPACITY ==> file.content@[k] == 0
        }),
{
    let mut file = UpgradeFile { content: zeroed_bytes(UPGRADE_FILE_CAPACITY) };
    match file.write_content(initial_content) {
        Ok(_) => {},
        Err(e) => {
            return Err(e);
        },
    }
    let state = VoteState {
        threshold,
        total_voters,
        shares_collected: 0,
        x_values: zeroed_elements(threshold as usize),
        y_values: zeroed_elements(threshold as usize),
        upgrade_occurred: false,
        coefficients: Vec::new(),
        dealer_authority: Some(dealer),
        yes_votes: 0,
        total_votes: 0,
        prime,
        expected_secret,
    };
    Ok((state, file))
}

/// Creates one participant record holding its externally issued share.
pub fn initialize_voter(authority: u64, share_x: u64, share_y: u64) -> (v: Voter)
    ensures
        v == (Voter { has_voted: false, share_x, share_y, authority }),
{
    Voter { has_voted: false, share_x, share_y, authority }
}

/// Performs the one-way side effect: overwrites the upgrade file's buffer
/// with the new content.  Rejected while the vote gate is closed, and rejected
/// whole when the payload does not fit the buffer.
pub fn apply_upgrade(
    vote_state: &VoteState,
    upgrade_file: &mut UpgradeFile,
    new_content: &Vec<u8>,
) -> (res: Result<(), VoteError>)
    ensures
        !vote_state.upgrade_occurred ==> res == Err::<(), VoteError>(VoteError::UpgradeNotApproved)
            && *final(upgrade_file) == *old(upgrade_file),
        vote_state.upgrade_occurred && new_content@.len() > old(upgrade_file).content@.len()
            ==> res == Err::<(), VoteError>(VoteError::ContentTooLarge) && *final(upgrade_file)
            == *old(upgrade_file),
        vote_state.upgrade_occurred && new_content@.len() <= old(upgrade_file).content@.len()
            ==> {
            &&& res is Ok
            &&& final(upgrade_file).content@.len() == old(upgrade_file).content@.len()
            &&& forall|k: int|
                0 <= k < new_content@.len() ==> final(upgrade_file).content@[k] == new_content@[k]
            &&& forall|k: int|
                new_content@.len() <= k < old(upgrade_file).content@.len() ==> final(upgrade_file).content@[k] == old(upgrade_file).content@[k]
        },
{
    if !vote_state.upgrade_occurred {
        return Err(VoteError::UpgradeNotApproved);
    }
    upgrade_file.write_content(new_content)
}

} // verus!
