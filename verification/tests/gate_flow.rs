use secure_voting::gate::{
    apply_upgrade, initialize, initialize_voter, UpgradeFile, VoteError, VoteState,
    UPGRADE_FILE_CAPACITY,
};

const PRIME: u64 = 2089;
const SECRET: u64 = 11;
const THRESHOLD: u64 = 3;
const TOTAL_VOTERS: u64 = 5;
const DEALER: u64 = 42;

/// Shares of f(x) = 11 + 5x + 9x^2 over the field.
fn share(x: u64) -> (u64, u64) {
    (x, (SECRET + 5 * x + 9 * x * x) % PRIME)
}

fn fresh_gate() -> (VoteState, UpgradeFile) {
    let initial = b"Before upgrading".to_vec();
    let (mut state, file) =
        initialize(DEALER, THRESHOLD, TOTAL_VOTERS, PRIME, SECRET, &initial).unwrap();
    state
        .create_polynomial_and_distribute_shares(vec![SECRET, 5, 9])
        .unwrap();
    (state, file)
}

#[test]
fn initialize_sets_up_state_and_file() {
    let initial = b"Before upgrading".to_vec();
    let (state, file) =
        initialize(DEALER, THRESHOLD, TOTAL_VOTERS, PRIME, SECRET, &initial).unwrap();
    assert_eq!(state.threshold, THRESHOLD);
    assert_eq!(state.total_voters, TOTAL_VOTERS);
    assert_eq!(state.shares_collected, 0);
    assert_eq!(state.yes_votes, 0);
    assert_eq!(state.total_votes, 0);
    assert!(!state.upgrade_occurred);
    assert_eq!(state.dealer_authority, Some(DEALER));
    assert_eq!(state.x_values, vec![0, 0, 0]);
    assert_eq!(state.y_values, vec![0, 0, 0]);
    assert_eq!(file.content.len(), UPGRADE_FILE_CAPACITY);
    assert_eq!(&file.content[..16], b"Before upgrading");
    assert!(file.content[16..].iter().all(|&b| b == 0));
}

#[test]
fn initialize_rejects_oversized_initial_content() {
    let too_big = vec![7u8; UPGRADE_FILE_CAPACITY + 1];
    assert_eq!(
        initialize(DEALER, THRESHOLD, TOTAL_VOTERS, PRIME, SECRET, &too_big).unwrap_err(),
        VoteError::ContentTooLarge
    );
}

#[test]
fn configure_rejects_wrong_coefficient_count() {
    let initial = b"Before upgrading".to_vec();
    let (mut state, _file) =
        initialize(DEALER, THRESHOLD, TOTAL_VOTERS, PRIME, SECRET, &initial).unwrap();
    let before = state.clone();
    assert_eq!(
        state.create_polynomial_and_distribute_shares(vec![SECRET, 5]),
        Err(VoteError::InvalidPolynomialDegree)
    );
    assert_eq!(state, before);
    assert_eq!(state.dealer_authority, Some(DEALER));
}

#[test]
fn configure_clears_dealer_authority() {
    let (state, _file) = fresh_gate();
    assert_eq!(state.dealer_authority, None);
    assert_eq!(state.coefficients, vec![SECRET, 5, 9]);
}

#[test]
fn voting_collects_shares_up_to_threshold() {
    let (mut state, _file) = fresh_gate();
    for id in 1..=4u64 {
        let (x, y) = share(id);
        let mut voter = initialize_voter(100 + id, x, y);
        state.submit_vote(&mut voter, true).unwrap();
        assert!(voter.has_voted);
    }
    assert_eq!(state.total_votes, 4);
    assert_eq!(state.yes_votes, 4);
    // Only the first three affirmative votes deposit their shares.
    assert_eq!(state.shares_collected, 3);
    assert_eq!(state.x_values, vec![1, 2, 3]);
    assert_eq!(state.y_values, vec![25, 57, 107]);
}

#[test]
fn negative_votes_do_not_collect_shares() {
    let (mut state, _file) = fresh_gate();
    let (x, y) = share(1);
    let mut voter = initialize_voter(101, x, y);
    state.submit_vote(&mut voter, false).unwrap();
    assert_eq!(state.total_votes, 1);
    assert_eq!(state.yes_votes, 0);
    assert_eq!(state.shares_collected, 0);
    assert_eq!(state.x_values, vec![0, 0, 0]);
}

#[test]
fn second_vote_is_rejected_without_any_mutation() {
    let (mut state, _file) = fresh_gate();
    let (x, y) = share(1);
    let mut voter = initialize_voter(101, x, y);
    state.submit_vote(&mut voter, true).unwrap();
    let state_before = state.clone();
    let voter_before = voter.clone();
    assert_eq!(state.submit_vote(&mut voter, true), Err(VoteError::AlreadyVoted));
    assert_eq!(state, state_before);
    assert_eq!(voter, voter_before);
    assert_eq!(state.submit_vote(&mut voter, false), Err(VoteError::AlreadyVoted));
    assert_eq!(state, state_before);
}

#[test]
fn quorum_of_matching_shares_opens_the_gate() {
    let (mut state, mut file) = fresh_gate();
    for id in 1..=3u64 {
        let (x, y) = share(id);
        let mut voter = initialize_voter(100 + id, x, y);
        state.submit_vote(&mut voter, true).unwrap();
    }
    state.compute_result().unwrap();
    assert!(state.upgrade_occurred);
    let new_content = b"Successfully implemented upgrading file".to_vec();
    apply_upgrade(&state, &mut file, &new_content).unwrap();
    assert_eq!(&file.content[..new_content.len()], new_content.as_slice());
}

#[test]
fn evaluation_is_stable_under_recomputation() {
    let (mut state, _file) = fresh_gate();
    for id in 1..=3u64 {
        let (x, y) = share(id);
        let mut voter = initialize_voter(100 + id, x, y);
        state.submit_vote(&mut voter, true).unwrap();
    }
    state.compute_result().unwrap();
    assert!(state.upgrade_occurred);
    state.compute_result().unwrap();
    assert!(state.upgrade_occurred);
}

#[test]
fn wrong_shares_keep_the_gate_closed() {
    let (mut state, _file) = fresh_gate();
    for id in 1..=3u64 {
        let (x, _) = share(id);
        // Shares that disagree with the committed polynomial's secret.
        let mut voter = initialize_voter(100 + id, x, (7 * x + 1) % PRIME);
        state.submit_vote(&mut voter, true).unwrap();
    }
    state.compute_result().unwrap();
    assert!(!state.upgrade_occurred);
}

#[test]
fn insufficient_quorum_keeps_the_gate_closed() {
    let (mut state, mut file) = fresh_gate();
    for id in 1..=TOTAL_VOTERS {
        let (x, y) = share(id);
        let mut voter = initialize_voter(100 + id, x, y);
        // Only two of the five participants vote yes.
        state.submit_vote(&mut voter, id <= 2).unwrap();
    }
    assert_eq!(state.total_votes, 5);
    assert_eq!(state.yes_votes, 2);
    state.compute_result().unwrap();
    assert!(!state.upgrade_occurred);
    let content_before = file.content.clone();
    let new_content = b"Successfully implemented upgrading file".to_vec();
    assert_eq!(
        apply_upgrade(&state, &mut file, &new_content),
        Err(VoteError::UpgradeNotApproved)
    );
    assert_eq!(file.content, content_before);
}

#[test]
fn duplicate_shares_make_evaluation_fail() {
    let (mut state, _file) = fresh_gate();
    let (x, y) = share(1);
    for id in 1..=3u64 {
        // Three distinct participants were issued the same share point.
        let mut voter = initialize_voter(100 + id, x, y);
        state.submit_vote(&mut voter, true).unwrap();
    }
    let state_before = state.clone();
    assert_eq!(state.compute_result(), Err(VoteError::NonInvertible));
    assert_eq!(state, state_before);
}

#[test]
fn oversized_payload_is_rejected_with_no_partial_write() {
    let (mut state, mut file) = fresh_gate();
    for id in 1..=3u64 {
        let (x, y) = share(id);
        let mut voter = initialize_voter(100 + id, x, y);
        state.submit_vote(&mut voter, true).unwrap();
    }
    state.compute_result().unwrap();
    assert!(state.upgrade_occurred);
    let content_before = file.content.clone();
    let too_big = vec![9u8; UPGRADE_FILE_CAPACITY + 1];
    assert_eq!(
        apply_upgrade(&state, &mut file, &too_big),
        Err(VoteError::ContentTooLarge)
    );
    assert_eq!(file.content, content_before);
}

#[test]
fn error_messages_match_their_variants() {
    assert_eq!(VoteError::AlreadyVoted.message(), "Voter has already voted");
    assert_eq!(
        VoteError::InsufficientShares.message(),
        "Insufficient shares to compute the result"
    );
    assert_eq!(VoteError::NonInvertible.message(), "Non-invertible element encountered");
    assert_eq!(VoteError::UpgradeNotApproved.message(), "Upgrade has not been approved");
    assert_eq!(
        VoteError::ContentTooLarge.message(),
        "Content is too large for the UpgradeFile account"
    );
    assert_eq!(VoteError::InvalidPolynomialDegree.message(), "Invalid polynomial degree");
}

#[test]
fn payload_of_exactly_the_capacity_is_accepted() {
    let (mut state, mut file) = fresh_gate();
    for id in 1..=3u64 {
        let (x, y) = share(id);
        let mut voter = initialize_voter(100 + id, x, y);
        state.submit_vote(&mut voter, true).unwrap();
    }
    state.compute_result().unwrap();
    let full = vec![3u8; UPGRADE_FILE_CAPACITY];
    apply_upgrade(&state, &mut file, &full).unwrap();
    assert_eq!(file.content, full);
}

#[test]
fn quorum_is_reached_exactly_at_the_threshold() {
    let (mut state, _file) = fresh_gate();
    for id in 1..=2u64 {
        let (x, y) = share(id);
        let mut voter = initialize_voter(100 + id, x, y);
        state.submit_vote(&mut voter, true).unwrap();
    }
    state.compute_result().unwrap();
    assert!(!state.upgrade_occurred);
    let (x, y) = share(3);
    let mut third = initialize_voter(103, x, y);
    state.submit_vote(&mut third, true).unwrap();
    state.compute_result().unwrap();
    assert!(state.upgrade_occurred);
}
