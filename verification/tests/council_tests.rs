use asset_bridge::council::{CouncilState, Proposal};
use asset_bridge::Error;

fn setup_council_members() -> CouncilState {
    let (first_council_member, second_council_member, third_council_member) = get_council_members();
    CouncilState::with_members(vec![
        first_council_member,
        second_council_member,
        third_council_member,
    ])
}

fn get_council_members() -> (u64, u64, u64) {
    let first_council_member = 1;
    let second_council_member = 2;
    let third_council_member = 3;
    (first_council_member, second_council_member, third_council_member)
}

#[test]
fn test_add_member_returns_ok() {
    let mut council = setup_council_members();
    let (first_council_member, second_council_member, _) = get_council_members();
    let new_member = 4;
    assert!(council.add_member(first_council_member, new_member).is_ok());
    // Check total votes
    let proposal = Proposal::Admit(new_member);
    let expected_votes = vec![first_council_member];
    assert_eq!(council.proposal_votes(proposal), Some(expected_votes));
    // Second vote
    assert!(council.add_member(second_council_member, new_member).is_ok());
    let pending_set = &council.pending;
    assert!(pending_set.iter().find(|m| **m == new_member).is_some());
    // The proposal is deleted the instant it passes
    assert!(council.proposal_votes(proposal).is_none());
}

#[test]
fn test_add_member_returns_sender_not_council_member() {
    let mut council = CouncilState::new();
    let wrong_council_member = 1;
    let new_member = 4;
    assert_eq!(
        council.add_member(wrong_council_member, new_member),
        Err(Error::NotCouncilMember)
    );
}

#[test]
fn test_add_member_sender_already_voted() {
    let mut council = setup_council_members();
    let (first_council_member, _, _) = get_council_members();
    let new_member = 4;
    assert!(council.add_member(first_council_member, new_member).is_ok());
    assert_eq!(
        council.add_member(first_council_member, new_member),
        Err(Error::AlreadyVoted)
    );
}

#[test]
fn test_remove_member_returns_ok() {
    let mut council = setup_council_members();
    let (first_council_member, second_council_member, member_to_be_removed) = get_council_members();
    assert!(council
        .remove_member(first_council_member, member_to_be_removed)
        .is_ok());
    assert!(council
        .remove_member(second_council_member, member_to_be_removed)
        .is_ok());
    let active_set = &council.active;
    assert!(!active_set.contains(&member_to_be_removed));
}

#[test]
fn test_claim_membership_returns_ok() {
    let mut council = setup_council_members();
    let (first_council_member, second_council_member, _) = get_council_members();
    let new_member = 4;
    assert!(council.add_member(first_council_member, new_member).is_ok());
    assert!(council.add_member(second_council_member, new_member).is_ok());
    assert!(council.claim_membership(new_member).is_ok());
    let active_set = &council.active;
    assert!(active_set.contains(&new_member));
}

#[test]
fn test_claim_membership_with_unregistered_pending_member_returns_not_pending_member() {
    let mut council = CouncilState::new();
    let not_a_pending_member = 1;
    assert_eq!(
        council.claim_membership(not_a_pending_member),
        Err(Error::NotPendingMember)
    );
}

#[test]
fn quorum_of_two_member_council_is_one_vote() {
    // With two active members the quorum is floor(4/3) = 1: a single vote
    // passes any proposal at once.
    let mut council = CouncilState::with_members(vec![1, 2]);
    assert!(council.add_member(1, 5).is_ok());
    assert!(council.pending.contains(&5));
    assert!(council.proposal_votes(Proposal::Admit(5)).is_none());
}

#[test]
fn quorum_of_three_member_council_is_two_votes() {
    // With three active members the quorum is floor(6/3) = 2: one vote does
    // not pass, two do.
    let mut council = CouncilState::with_members(vec![1, 2, 3]);
    assert!(council.add_member(1, 5).is_ok());
    assert!(!council.pending.contains(&5));
    assert_eq!(council.proposal_votes(Proposal::Admit(5)), Some(vec![1]));
    assert!(council.add_member(2, 5).is_ok());
    assert!(council.pending.contains(&5));
    assert!(council.proposal_votes(Proposal::Admit(5)).is_none());
}

#[test]
fn admit_expel_claim_scenario() {
    // Council of three: A proposes admitting D; one vote is short of quorum,
    // the second applies the proposal; D then claims membership.
    let (a, b, c, d) = (1, 2, 3, 4);
    let mut council = CouncilState::with_members(vec![a, b, c]);
    assert!(council.add_member(a, d).is_ok());
    assert_eq!(council.proposal_votes(Proposal::Admit(d)), Some(vec![a]));
    assert!(council.pending.is_empty());
    assert!(council.add_member(b, d).is_ok());
    assert_eq!(council.pending, vec![d]);
    assert!(council.proposal_votes(Proposal::Admit(d)).is_none());
    assert!(council.claim_membership(d).is_ok());
    assert_eq!(council.active, vec![a, b, c, d]);
    assert!(council.pending.is_empty());
    assert!(council.proposals.is_empty());
}

#[test]
fn expel_vote_for_absent_member_returns_not_active_member() {
    // A single-member council has quorum zero, so the first expel vote
    // applies at once and finds no such member.
    let mut council = CouncilState::with_members(vec![1]);
    assert_eq!(council.remove_member(1, 99), Err(Error::NotActiveMember));
    assert_eq!(council.active, vec![1]);
    assert!(council.proposals.is_empty());
}

#[test]
fn admit_vote_with_full_pending_set_returns_storage_overflow() {
    // The passing vote is consumed and the proposal deleted even though the
    // pending set is full and the candidate is not admitted.
    let mut council = CouncilState::with_members(vec![1]);
    for candidate in 10..20 {
        assert!(council.add_member(1, candidate).is_ok());
    }
    assert_eq!(council.pending.len(), 10);
    assert_eq!(council.add_member(1, 50), Err(Error::StorageOverflow));
    assert_eq!(council.pending.len(), 10);
    assert!(!council.pending.contains(&50));
    assert!(council.proposals.is_empty());
}

#[test]
fn claim_with_full_active_set_returns_storage_overflow() {
    let mut council = CouncilState::with_members(vec![1, 2, 3, 4, 5, 6, 7, 8, 9, 10]);
    council.pending.push(11);
    assert_eq!(council.claim_membership(11), Err(Error::StorageOverflow));
    assert!(council.pending.contains(&11));
    assert!(!council.active.contains(&11));
}
