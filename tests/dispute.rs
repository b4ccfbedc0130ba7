use split_settlement::dispute::{DisputeContract, VOTING_PERIOD};
use split_settlement::dispute_types::{DisputeResult, DisputeStatus, Error};
use split_settlement::ident::generate_dispute_id;

fn s(text: &str) -> String {
    text.to_string()
}

fn raise(contract: &mut DisputeContract, split_id: &str, reason: &str, now: u64) -> String {
    contract.raise_dispute(s(split_id), s("GRAISER"), s(reason), now, 0).unwrap()
}

#[test]
fn test_raise_dispute() {
    let mut contract = DisputeContract::new();
    let id = raise(&mut contract, "split_001", "Payment was incorrect", 1000);

    let dispute = contract.get_dispute(id).unwrap();
    assert_eq!(dispute.status, DisputeStatus::Voting);
    assert_eq!(dispute.votes_for, 0);
    assert_eq!(dispute.votes_against, 0);
    assert_eq!(dispute.voting_ends_at, 1000 + 604_800);
}

#[test]
fn test_vote_for_dispute() {
    let mut contract = DisputeContract::new();
    let id = raise(&mut contract, "split_002", "Wrong amount", 1000);

    contract.vote_on_dispute(id.clone(), s("GVOTER"), true, 1000).unwrap();

    let dispute = contract.get_dispute(id).unwrap();
    assert_eq!(dispute.votes_for, 1);
    assert_eq!(dispute.votes_against, 0);
}

#[test]
fn test_vote_against_dispute() {
    let mut contract = DisputeContract::new();
    let id = raise(&mut contract, "split_003", "Unfair split", 1000);

    contract.vote_on_dispute(id.clone(), s("GVOTER"), false, 1000).unwrap();

    let dispute = contract.get_dispute(id).unwrap();
    assert_eq!(dispute.votes_for, 0);
    assert_eq!(dispute.votes_against, 1);
}

#[test]
fn test_double_vote_fails() {
    let mut contract = DisputeContract::new();
    let id = raise(&mut contract, "split_004", "Duplicate payment", 1000);

    contract.vote_on_dispute(id.clone(), s("GVOTER"), true, 1000).unwrap();
    assert_eq!(
        contract.vote_on_dispute(id.clone(), s("GVOTER"), true, 1000),
        Err(Error::AlreadyVoted)
    );
    let dispute = contract.get_dispute(id).unwrap();
    assert_eq!(dispute.votes_for, 1);
    assert_eq!(dispute.votes_against, 0);
    assert_eq!(dispute.voters.len(), 1);
}

#[test]
fn test_resolve_upheld() {
    let mut contract = DisputeContract::new();
    let id = raise(&mut contract, "split_005", "Missing funds", 1000);

    contract.vote_on_dispute(id.clone(), s("GVOTER1"), true, 1000).unwrap();
    contract.vote_on_dispute(id.clone(), s("GVOTER2"), true, 1000).unwrap();

    let result = contract.resolve_dispute(id.clone(), 1000 + 604_801).unwrap();
    assert_eq!(result, DisputeResult::UpheldForRaiser);

    let dispute = contract.get_dispute(id).unwrap();
    assert_eq!(dispute.status, DisputeStatus::Resolved);
}

#[test]
fn test_resolve_dismissed() {
    let mut contract = DisputeContract::new();
    let id = raise(&mut contract, "split_006", "Wrong recipient", 1000);

    contract.vote_on_dispute(id.clone(), s("GVOTER1"), false, 1000).unwrap();
    contract.vote_on_dispute(id.clone(), s("GVOTER2"), false, 1000).unwrap();

    let result = contract.resolve_dispute(id, 1000 + 604_801).unwrap();
    assert_eq!(result, DisputeResult::DismissedForRaiser);
}

#[test]
fn test_resolve_tied() {
    let mut contract = DisputeContract::new();
    let id = raise(&mut contract, "split_007", "Unclear terms", 1000);

    contract.vote_on_dispute(id.clone(), s("GVOTER1"), true, 1000).unwrap();
    contract.vote_on_dispute(id.clone(), s("GVOTER2"), false, 1000).unwrap();

    let result = contract.resolve_dispute(id, 1000 + 604_801).unwrap();
    assert_eq!(result, DisputeResult::Tied);
}

#[test]
fn test_resolve_before_voting_ends_fails() {
    let mut contract = DisputeContract::new();
    let id = raise(&mut contract, "split_008", "Too early", 1000);

    assert_eq!(contract.resolve_dispute(id, 1000), Err(Error::VotingPeriodActive));
}

#[test]
fn test_vote_after_period_fails() {
    let mut contract = DisputeContract::new();
    let id = raise(&mut contract, "split_009", "Late vote", 1000);

    assert_eq!(
        contract.vote_on_dispute(id, s("GVOTER"), true, 1000 + 604_801),
        Err(Error::VotingPeriodEnded)
    );
}

#[test]
fn upheld_scenario_rejects_early_resolution_then_upholds() {
    let mut contract = DisputeContract::new();
    let id = raise(&mut contract, "split_100", "Overcharged", 1000);
    assert_eq!(VOTING_PERIOD, 604_800);

    contract.vote_on_dispute(id.clone(), s("GA"), true, 1000).unwrap();
    contract.vote_on_dispute(id.clone(), s("GB"), true, 1000).unwrap();
    assert_eq!(contract.resolve_dispute(id.clone(), 1000), Err(Error::VotingPeriodActive));
    assert_eq!(
        contract.resolve_dispute(id.clone(), 1000 + 604_801),
        Ok(DisputeResult::UpheldForRaiser)
    );
    let dispute = contract.get_dispute(id).unwrap();
    assert_eq!(dispute.result, Some(DisputeResult::UpheldForRaiser));
    assert_eq!(dispute.voters, vec![s("GA"), s("GB")]);
}

#[test]
fn one_vote_each_way_ties() {
    let mut contract = DisputeContract::new();
    let id = raise(&mut contract, "split_101", "Unclear", 1000);
    contract.vote_on_dispute(id.clone(), s("GA"), true, 1000).unwrap();
    contract.vote_on_dispute(id.clone(), s("GB"), false, 1000).unwrap();
    assert_eq!(contract.resolve_dispute(id, 1000 + 604_801), Ok(DisputeResult::Tied));
}

#[test]
fn no_votes_ties() {
    let mut contract = DisputeContract::new();
    let id = raise(&mut contract, "split_102", "Nobody cares", 1000);
    assert_eq!(contract.resolve_dispute(id, 1000 + 604_801), Ok(DisputeResult::Tied));
}

#[test]
fn resolving_twice_is_refused() {
    let mut contract = DisputeContract::new();
    let id = raise(&mut contract, "split_103", "Twice", 1000);
    contract.resolve_dispute(id.clone(), 1000 + 604_801).unwrap();
    assert_eq!(contract.resolve_dispute(id.clone(), 1000 + 604_802), Err(Error::DisputeClosed));
    assert_eq!(
        contract.vote_on_dispute(id, s("GA"), true, 1000 + 604_802),
        Err(Error::DisputeClosed)
    );
}

#[test]
fn window_boundaries() {
    let mut contract = DisputeContract::new();
    let id = raise(&mut contract, "split_104", "Edges", 1000);
    let end = 1000 + 604_800;
    contract.vote_on_dispute(id.clone(), s("GA"), true, end - 1).unwrap();
    contract.vote_on_dispute(id.clone(), s("GB"), true, end).unwrap();
    assert_eq!(
        contract.vote_on_dispute(id.clone(), s("GC"), true, end + 1),
        Err(Error::VotingPeriodEnded)
    );
    assert_eq!(contract.resolve_dispute(id.clone(), end), Err(Error::VotingPeriodActive));
    assert_eq!(contract.resolve_dispute(id, end + 1), Ok(DisputeResult::UpheldForRaiser));
}

#[test]
fn unknown_dispute_is_not_found() {
    let mut contract = DisputeContract::new();
    assert!(contract.get_dispute(s("dis_0000000000000000")).is_err());
    assert_eq!(
        contract.vote_on_dispute(s("dis_0000000000000000"), s("GA"), true, 0),
        Err(Error::NotFound)
    );
    assert_eq!(contract.resolve_dispute(s("dis_0000000000000000"), 0), Err(Error::NotFound));
}

#[test]
fn same_split_and_sequence_collide() {
    let mut contract = DisputeContract::new();
    let first = contract.raise_dispute(s("split_105"), s("GA"), s("One"), 1000, 3).unwrap();
    assert_eq!(
        contract.raise_dispute(s("split_105"), s("GB"), s("Two"), 2000, 3),
        Err(Error::AlreadyExists)
    );
    let second = contract.raise_dispute(s("split_105"), s("GB"), s("Two"), 2000, 4).unwrap();
    assert_ne!(first, second);
    assert_eq!(contract.get_all_disputes(), vec![first, second]);
}

fn id_bytes(id: &str) -> Vec<u8> {
    id.chars()
        .map(|c| {
            assert!((c as u32) < 256);
            c as u32 as u8
        })
        .collect()
}

#[test]
fn dispute_ids_follow_the_digest() {
    let first = generate_dispute_id(&s("split_001"), 0);
    assert_eq!(first.chars().count(), 12);
    assert_eq!(id_bytes(&first), b"dis_\xec\xda\x56\xb8\x40\xe3\xcc\xf9".to_vec());
    assert_eq!(
        id_bytes(&generate_dispute_id(&s("split_001"), 7)),
        b"dis_\x38\x1e\x57\xdb\x1e\x7d\xb9\x36".to_vec()
    );
    assert_eq!(id_bytes(&generate_dispute_id(&s(""), 0)), b"dis_\xdf\x3f\x61\x98\x04\xa9\x2f\xdb".to_vec());
    assert_eq!(generate_dispute_id(&s("split_001"), 0), first);
}

#[test]
fn result_is_unset_until_resolution() {
    let mut contract = DisputeContract::new();
    let id = raise(&mut contract, "split_106", "Pending", 1000);
    contract.vote_on_dispute(id.clone(), s("GA"), false, 1000).unwrap();
    assert_eq!(contract.get_dispute(id.clone()).unwrap().result, None);
    contract.resolve_dispute(id.clone(), 1000 + 604_801).unwrap();
    let dispute = contract.get_dispute(id).unwrap();
    assert_eq!(dispute.status, DisputeStatus::Resolved);
    assert_eq!(dispute.result, Some(DisputeResult::DismissedForRaiser));
}
