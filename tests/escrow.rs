use split_settlement::escrow::{
    create_escrow, EscrowError, EscrowParticipant, EscrowStatus, SplitEscrow,
    SplitEscrowContract, SplitStatus,
};

fn s(text: &str) -> String {
    text.to_string()
}

fn single_participant_split(contract: &mut SplitEscrowContract, owed: i128) -> u64 {
    contract
        .create_split(s("GCREATOR"), s("Test split"), owed, vec![s("GPAYER")], vec![owed], 500)
        .unwrap()
}

#[test]
fn test_create_split() {
    let mut contract = SplitEscrowContract::new();
    let total_amount: i128 = 100_0000000;
    let split_id = contract
        .create_split(
            s("GCREATOR"),
            s("Dinner at Joe's"),
            total_amount,
            vec![s("GP1"), s("GP2")],
            vec![50_0000000i128, 50_0000000i128],
            500,
        )
        .unwrap();

    assert_eq!(split_id, 1);

    let split = contract.get_split(split_id).unwrap();
    assert_eq!(split.split_id, 1);
    assert_eq!(split.creator, s("GCREATOR"));
    assert_eq!(split.total_amount, total_amount);
    assert_eq!(split.status, SplitStatus::Pending);
    assert_eq!(split.participants.len(), 2);
}

#[test]
fn test_create_split_invalid_shares() {
    let mut contract = SplitEscrowContract::new();
    let result = contract.create_split(
        s("GCREATOR"),
        s("Bad split"),
        100_0000000,
        vec![s("GP1")],
        vec![50_0000000i128],
        500,
    );
    assert_eq!(result, Err(EscrowError::InvalidShares));
    assert_eq!(contract.get_escrow_count(), 0);
}

#[test]
fn test_create_split_no_participants() {
    let mut contract = SplitEscrowContract::new();
    let result = contract.create_split(s("GCREATOR"), s("Empty split"), 0, vec![], vec![], 500);
    assert_eq!(result, Err(EscrowError::InvalidParticipants));
}

#[test]
fn test_deposit() {
    let mut contract = SplitEscrowContract::new();
    let split_id = single_participant_split(&mut contract, 100_0000000);

    contract.deposit(split_id, &s("GPAYER"), 50_0000000, 600).unwrap();
    let split = contract.get_split(split_id).unwrap();
    assert_eq!(split.status, SplitStatus::Active);
    assert_eq!(split.amount_collected, 50_0000000);

    contract.deposit(split_id, &s("GPAYER"), 50_0000000, 700).unwrap();
    let split = contract.get_split(split_id).unwrap();
    assert_eq!(split.status, SplitStatus::Completed);
    assert_eq!(split.amount_collected, 100_0000000);
}

#[test]
fn test_deposit_exceeds_share() {
    let mut contract = SplitEscrowContract::new();
    let split_id = single_participant_split(&mut contract, 100_0000000);
    assert_eq!(
        contract.deposit(split_id, &s("GPAYER"), 150_0000000, 600),
        Err(EscrowError::DepositExceedsRemaining)
    );
    let split = contract.get_split(split_id).unwrap();
    assert_eq!(split.amount_collected, 0);
    assert_eq!(split.participants[0].amount_paid, 0);
}

#[test]
fn test_cancel_split() {
    let mut contract = SplitEscrowContract::new();
    let split_id = single_participant_split(&mut contract, 100_0000000);

    contract.cancel_split(split_id).unwrap();
    let split = contract.get_split(split_id).unwrap();
    assert_eq!(split.status, SplitStatus::Cancelled);
}

#[test]
fn test_release_funds() {
    let mut contract = SplitEscrowContract::new();
    let split_id = single_participant_split(&mut contract, 100_0000000);

    contract.deposit(split_id, &s("GPAYER"), 100_0000000, 600).unwrap();
    contract.release_funds(split_id).unwrap();
}

#[test]
fn test_release_incomplete_split() {
    let mut contract = SplitEscrowContract::new();
    let split_id = single_participant_split(&mut contract, 100_0000000);
    assert_eq!(contract.release_funds(split_id), Err(EscrowError::SplitNotCompleted));
}

#[test]
fn test_escrow_status_values() {
    let active = EscrowStatus::Active;
    let completed = EscrowStatus::Completed;
    let cancelled = EscrowStatus::Cancelled;
    let expired = EscrowStatus::Expired;

    assert_eq!(active, EscrowStatus::Active);
    assert_ne!(active, completed);
    assert_ne!(completed, cancelled);
    assert_ne!(cancelled, expired);
}

#[test]
fn test_escrow_participant_creation() {
    let participant = EscrowParticipant::new(s("GADDR"), 100_0000000);

    assert_eq!(participant.address, s("GADDR"));
    assert_eq!(participant.amount_owed, 100_0000000);
    assert_eq!(participant.amount_paid, 0);
    assert!(participant.paid_at.is_none());
}

#[test]
fn test_escrow_participant_validation() {
    let valid = EscrowParticipant { address: s("GADDR"), amount_owed: 100, amount_paid: 50, paid_at: None };
    assert!(valid.validate().is_ok());

    let overpaid = EscrowParticipant { address: s("GADDR"), amount_owed: 100, amount_paid: 150, paid_at: None };
    assert!(overpaid.validate().is_err());

    let negative = EscrowParticipant { address: s("GADDR"), amount_owed: -100, amount_paid: 0, paid_at: None };
    assert!(negative.validate().is_err());
}

#[test]
fn test_escrow_participant_helpers() {
    let participant = EscrowParticipant { address: s("GADDR"), amount_owed: 100, amount_paid: 60, paid_at: None };
    assert!(!participant.has_fully_paid());
    assert_eq!(participant.remaining_owed(), 40);

    let fully_paid =
        EscrowParticipant { address: s("GADDR"), amount_owed: 100, amount_paid: 100, paid_at: Some(12345) };
    assert!(fully_paid.has_fully_paid());
    assert_eq!(fully_paid.remaining_owed(), 0);
}

#[test]
fn test_split_escrow_creation() {
    let participants = vec![
        EscrowParticipant::new(s("GP1"), 50_0000000),
        EscrowParticipant::new(s("GP2"), 50_0000000),
    ];
    let escrow = create_escrow(1, s("GCREATOR"), s("Team dinner"), 100_0000000, participants, 1735689600, 1000);

    assert_eq!(escrow.total_amount, 100_0000000);
    assert_eq!(escrow.amount_collected, 0);
    assert_eq!(escrow.status, EscrowStatus::Active);
    assert_eq!(escrow.creator, s("GCREATOR"));
    assert_eq!(escrow.participants.len(), 2);
}

fn record(total: i128, collected: i128, participants: Vec<EscrowParticipant>, status: EscrowStatus) -> SplitEscrow {
    SplitEscrow {
        split_id: 1,
        creator: s("GCREATOR"),
        description: s("Test"),
        total_amount: total,
        amount_collected: collected,
        participants,
        status,
        deadline: Some(99999999),
        created_at: 1000,
    }
}

#[test]
fn test_split_escrow_validation() {
    let participants =
        vec![EscrowParticipant { address: s("GP"), amount_owed: 100, amount_paid: 50, paid_at: None }];

    let valid = record(100, 50, participants.clone(), EscrowStatus::Active);
    assert!(valid.validate().is_ok());

    let over_collected = record(100, 150, participants, EscrowStatus::Active);
    assert!(over_collected.validate().is_err());
}

#[test]
fn test_split_escrow_expiry() {
    let mut escrow = record(100, 0, vec![], EscrowStatus::Active);
    escrow.deadline = Some(1000);
    escrow.created_at = 500;

    assert!(!escrow.is_expired(999));
    assert!(!escrow.is_expired(1000));
    assert!(escrow.is_expired(1001));
    assert!(escrow.is_expired(2000));
}

#[test]
fn test_split_escrow_funding_helpers() {
    let partially_funded = record(100, 60, vec![], EscrowStatus::Active);
    assert!(!partially_funded.is_fully_funded());
    assert_eq!(partially_funded.remaining_amount(), 40);

    let fully_funded = record(100, 100, vec![], EscrowStatus::Completed);
    assert!(fully_funded.is_fully_funded());
    assert_eq!(fully_funded.remaining_amount(), 0);
}

#[test]
fn test_escrow_count_storage() {
    let mut contract = SplitEscrowContract::new();
    assert_eq!(contract.get_escrow_count(), 0);
    assert_eq!(single_participant_split(&mut contract, 10), 1);
    assert_eq!(single_participant_split(&mut contract, 20), 2);
    assert_eq!(contract.get_escrow_count(), 2);
}

#[test]
fn two_participants_pay_in_full_then_release() {
    let mut contract = SplitEscrowContract::new();
    let split_id = contract
        .create_split(s("GC"), s("Shared"), 100, vec![s("GA"), s("GB")], vec![50, 50], 10)
        .unwrap();
    assert_eq!(contract.release_funds(split_id), Err(EscrowError::SplitNotCompleted));

    contract.deposit(split_id, &s("GA"), 50, 20).unwrap();
    let split = contract.get_split(split_id).unwrap();
    assert_eq!(split.status, EscrowStatus::Active);
    assert_eq!(split.amount_collected, 50);
    assert_eq!(split.participants[0].paid_at, Some(20));
    assert_eq!(split.participants[1].paid_at, None);

    contract.deposit(split_id, &s("GB"), 50, 30).unwrap();
    let split = contract.get_split(split_id).unwrap();
    assert_eq!(split.status, EscrowStatus::Completed);
    assert_eq!(split.amount_collected, 100);
    assert_eq!(contract.release_funds(split_id), Ok(()));
}

#[test]
fn partial_payment_leaves_paid_at_unset() {
    let mut contract = SplitEscrowContract::new();
    let split_id = single_participant_split(&mut contract, 100);
    contract.deposit(split_id, &s("GPAYER"), 30, 40).unwrap();
    let split = contract.get_split(split_id).unwrap();
    assert_eq!(split.participants[0].amount_paid, 30);
    assert_eq!(split.participants[0].paid_at, None);
    contract.deposit(split_id, &s("GPAYER"), 70, 41).unwrap();
    let split = contract.get_split(split_id).unwrap();
    assert_eq!(split.participants[0].paid_at, Some(41));
}

#[test]
fn collected_equals_sum_of_payments() {
    let mut contract = SplitEscrowContract::new();
    let split_id = contract
        .create_split(s("GC"), s("Three"), 60, vec![s("GA"), s("GB"), s("GD")], vec![10, 20, 30], 1)
        .unwrap();
    contract.deposit(split_id, &s("GB"), 5, 2).unwrap();
    contract.deposit(split_id, &s("GD"), 30, 3).unwrap();
    contract.deposit(split_id, &s("GB"), 15, 4).unwrap();
    let split = contract.get_split(split_id).unwrap();
    let paid: i128 = split.participants.iter().map(|p| p.amount_paid).sum();
    assert_eq!(split.amount_collected, paid);
    assert_eq!(split.amount_collected, 50);
    assert!(split.amount_collected <= split.total_amount);
}

#[test]
fn deposits_after_a_terminal_state_are_refused() {
    let mut contract = SplitEscrowContract::new();
    let done = single_participant_split(&mut contract, 10);
    contract.deposit(done, &s("GPAYER"), 10, 1).unwrap();
    assert_eq!(contract.deposit(done, &s("GPAYER"), 1, 2), Err(EscrowError::SplitClosed));
    assert_eq!(contract.cancel_split(done), Err(EscrowError::SplitClosed));

    let cancelled = single_participant_split(&mut contract, 10);
    contract.cancel_split(cancelled).unwrap();
    assert_eq!(contract.deposit(cancelled, &s("GPAYER"), 1, 2), Err(EscrowError::SplitClosed));
}

#[test]
fn deposit_errors_by_kind() {
    let mut contract = SplitEscrowContract::new();
    let split_id = single_participant_split(&mut contract, 10);
    assert_eq!(contract.deposit(99, &s("GPAYER"), 1, 1), Err(EscrowError::NotFound));
    assert_eq!(contract.deposit(split_id, &s("GPAYER"), 0, 1), Err(EscrowError::InvalidAmount));
    assert_eq!(contract.deposit(split_id, &s("GSTRANGER"), 1, 1), Err(EscrowError::NotAuthorized));
    contract.deposit(split_id, &s("GPAYER"), 6, 1).unwrap();
    assert_eq!(
        contract.deposit(split_id, &s("GPAYER"), 5, 1),
        Err(EscrowError::DepositExceedsRemaining)
    );
    assert_eq!(contract.get_split(split_id).unwrap().amount_collected, 6);
    assert_eq!(contract.get_split(99).err(), Some(EscrowError::NotFound));
    assert_eq!(contract.cancel_split(99), Err(EscrowError::NotFound));
    assert_eq!(contract.release_funds(99), Err(EscrowError::NotFound));
}

#[test]
fn creation_rejects_bad_shares() {
    let mut contract = SplitEscrowContract::new();
    assert_eq!(
        contract.create_split(s("GC"), s("Mismatch"), 10, vec![s("GA")], vec![5, 5], 1),
        Err(EscrowError::InvalidParticipants)
    );
    assert_eq!(
        contract.create_split(s("GC"), s("Zero"), 10, vec![s("GA"), s("GB")], vec![10, 0], 1),
        Err(EscrowError::InvalidShares)
    );
    assert_eq!(
        contract.create_split(
            s("GC"),
            s("Overflow"),
            i128::MAX,
            vec![s("GA"), s("GB")],
            vec![i128::MAX, 1],
            1
        ),
        Err(EscrowError::InvalidShares)
    );
    assert_eq!(contract.get_escrow_count(), 0);
}

#[test]
fn repeated_address_is_refused() {
    let mut contract = SplitEscrowContract::new();
    assert_eq!(
        contract.create_split(s("GC"), s("Twice"), 20, vec![s("GA"), s("GB"), s("GA")], vec![5, 10, 5], 1),
        Err(EscrowError::InvalidParticipants)
    );
    assert_eq!(contract.get_escrow_count(), 0);
}

#[test]
fn overpaying_a_later_participant_is_refused() {
    let mut contract = SplitEscrowContract::new();
    let split_id = contract
        .create_split(s("GC"), s("Pair"), 30, vec![s("GA"), s("GB")], vec![10, 20], 1)
        .unwrap();
    assert_eq!(contract.deposit(split_id, &s("GB"), 21, 2), Err(EscrowError::DepositExceedsRemaining));
    contract.deposit(split_id, &s("GB"), 20, 3).unwrap();
    let split = contract.get_split(split_id).unwrap();
    assert_eq!(split.participants[1].amount_paid, 20);
    assert_eq!(split.participants[0].amount_paid, 0);
}
