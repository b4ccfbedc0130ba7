//! The escrow ledger: one record per split, tracking what each participant owes
//! and has paid, with the invariant that collected funds equal the sum of
//! payments and never exceed what is owed.

use vstd::prelude::*;

verus! {

/// Lifecycle of an escrow record.
#[derive(Clone, Copy, Debug, PartialEq, Eq, Structural)]
pub enum EscrowStatus {
    Pending,
    Active,
    Completed,
    Cancelled,
    Expired,
}

/// Status of a split created through the ledger; the same lifecycle as an escrow.
pub type SplitStatus = EscrowStatus;

/// Errors of the escrow ledger.
#[derive(Clone, Copy, Debug, PartialEq, Eq, Structural)]
pub enum EscrowError {
    NotFound,
    NotAuthorized,
    InvalidParticipants,
    InvalidShares,
    InvalidAmount,
    DepositExceedsRemaining,
    SplitClosed,
    SplitNotCompleted,
}

impl EscrowStatus {
    /// Completed, Cancelled and Expired admit no further change.
    pub open spec fn is_terminal(self) -> bool {
        self == EscrowStatus::Completed || self == EscrowStatus::Cancelled || self
            == EscrowStatus::Expired
    }
}

/// One party's obligation within an escrow.
#[derive(Clone, Debug)]
pub struct EscrowParticipant {
    pub address: String,
    pub amount_owed: i128,
    pub amount_paid: i128,
    pub paid_at: Option<u64>,
}

impl EscrowParticipant {
    /// Owes a positive amount, has paid between nothing and all of it, and carries
    /// a payment time exactly when fully paid.
    pub open spec fn wf(self) -> bool {
        &&& self.amount_owed > 0
        &&& 0 <= self.amount_paid <= self.amount_owed
        &&& (self.paid_at is Some <==> self.amount_paid == self.amount_owed)
    }

    /// A participant who owes `amount_owed` and has paid nothing yet.
    pub fn new(address: String, amount_owed: i128) -> (r: Self)
        ensures
            r.address == address,
            r.amount_owed == amount_owed,
            r.amount_paid == 0,
            r.paid_at is None,
    {
        EscrowParticipant { address, amount_owed, amount_paid: 0, paid_at: None }
    }

    /// Accepts a participant who owes a positive amount and has paid between
    /// nothing and that amount.
    pub fn validate(&self) -> (r: Result<(), EscrowError>)
        ensures
            r is Ok <==> (self.amount_owed > 0 && 0 <= self.amount_paid <= self.amount_owed),
            r is Err ==> r == Err::<(), EscrowError>(EscrowError::InvalidAmount),
    {
        if self.amount_owed <= 0 || self.amount_paid < 0 || self.amount_paid > self.amount_owed {
            Err(EscrowError::InvalidAmount)
        } else {
            Ok(())
        }
    }

    /// Whether the whole obligation has been paid.
    pub fn has_fully_paid(&self) -> (r: bool)
        ensures
            r == (self.amount_paid >= self.amount_owed),
    {
        self.amount_paid >= self.amount_owed
    }

    /// What is still owed.
    pub fn remaining_owed(&self) -> (r: i128)
        requires
            i128::MIN <= self.amount_owed - self.amount_paid <= i128::MAX,
        ensures
            r == self.amount_owed - self.amount_paid,
    {
        self.amount_owed - self.amount_paid
    }
}

/// Sum of what the participants owe.
pub open spec fn sum_owed(s: Seq<EscrowParticipant>) -> int
    decreases s.len(),
{
    if s.len() == 0 {
        0
    } else {
        sum_owed(s.drop_last()) + s.last().amount_owed
    }
}

/// Sum of what the participants have paid.
pub open spec fn sum_paid(s: Seq<EscrowParticipant>) -> int
    decreases s.len(),
{
    if s.len() == 0 {
        0
    } else {
        sum_paid(s.drop_last()) + s.last().amount_paid
    }
}

/// Sum of a list of shares.
pub open spec fn share_sum(s: Seq<i128>) -> int
    decreases s.len(),
{
    if s.len() == 0 {
        0
    } else {
        share_sum(s.drop_last()) + s.last()
    }
}

/// No address occurs twice.
pub open spec fn distinct_addresses(a: Seq<String>) -> bool {
    forall|i: int, j: int|
        0 <= i < a.len() && 0 <= j < a.len() && i != j ==> (#[trigger] a[i])@ != (#[trigger] a[j])@
}

/// The ledger's rule on the participant list: at least one address, no address
/// twice, and one share per address.
pub open spec fn valid_participant_list(addresses: Seq<String>, shares: Seq<i128>) -> bool {
    &&& addresses.len() > 0
    &&& addresses.len() == shares.len()
    &&& distinct_addresses(addresses)
}

/// The ledger's rule on creation input: a valid participant list, every share
/// positive, and shares summing to the total exactly.
pub open spec fn valid_split_input(addresses: Seq<String>, shares: Seq<i128>, total: i128) -> bool {
    &&& valid_participant_list(addresses, shares)
    &&& forall|i: int| 0 <= i < shares.len() ==> shares[i] > 0
    &&& share_sum(shares) == total
}

/// The slot of the first participant with the given address, or -1.
pub open spec fn participant_index(s: Seq<EscrowParticipant>, a: Seq<char>) -> int {
    if exists|i: int| 0 <= i < s.len() && s[i].address@ == a {
        choose|i: int|
            0 <= i < s.len() && s[i].address@ == a && forall|j: int|
                0 <= j < i ==> s[j].address@ != a
    } else {
        -1
    }
}

/// One escrow record.
#[derive(Clone, Debug)]
pub struct SplitEscrow {
    pub split_id: u64,
    pub creator: String,
    pub description: String,
    pub total_amount: i128,
    pub amount_collected: i128,
    pub participants: Vec<EscrowParticipant>,
    pub status: EscrowStatus,
    pub deadline: Option<u64>,
    pub created_at: u64,
}

impl SplitEscrow {
    /// The record's invariant: the total is the sum of obligations, the amount
    /// collected is the sum of payments, every participant is within bounds, and
    /// the record is Completed exactly when everything has been collected.
    pub open spec fn wf(self) -> bool {
        &&& self.total_amount == sum_owed(self.participants@)
        &&& self.amount_collected == sum_paid(self.participants@)
        &&& forall|i: int| 0 <= i < self.participants@.len() ==> (#[trigger] self.participants@[i]).wf()
        &&& forall|i: int, j: int|
            0 <= i < self.participants@.len() && 0 <= j < self.participants@.len() && i != j
                ==> (#[trigger] self.participants@[i]).address@ != (
            #[trigger] self.participants@[j]).address@
        &&& (self.status == EscrowStatus::Completed <==> self.amount_collected == self.total_amount)
    }

    /// Whether the deadline, if any, lies strictly before `now`.
    pub open spec fn expired_at(self, now: u64) -> bool {
        match self.deadline {
            Some(d) => now > d,
            None => false,
        }
    }

    /// Accepts a record whose collected amount lies between nothing and the total
    /// and whose participants are each within bounds.
    pub fn validate(&self) -> (r: Result<(), EscrowError>)
        ensures
            r is Ok <==> (0 <= self.amount_collected <= self.total_amount && forall|i: int|
                0 <= i < self.participants@.len() ==> self.participants@[i].amount_owed > 0
                    && 0 <= self.participants@[i].amount_paid
                    <= self.participants@[i].amount_owed),
            r is Err ==> r == Err::<(), EscrowError>(EscrowError::InvalidAmount),
    {
        if self.amount_collected < 0 || self.amount_collected > self.total_amount {
            return Err(EscrowError::InvalidAmount);
        }
        let mut i: usize = 0;
        while i < self.participants.len()
            invariant
                i <= self.participants@.len(),
                forall|j: int|
                    0 <= j < i ==> self.participants@[j].amount_owed > 0 && 0
                        <= self.participants@[j].amount_paid <= self.participants@[j].amount_owed,
            decreases self.participants@.len() - i,
        {
            if self.participants[i].validate().is_err() {
                return Err(EscrowError::InvalidAmount);
            }
            i = i + 1;
        }
        Ok(())
    }

    /// Whether the deadline has passed: true only strictly after it.
    pub fn is_expired(&self, now: u64) -> (r: bool)
        ensures
            r == self.expired_at(now),
    {
        match self.deadline {
            Some(d) => now > d,
            None => false,
        }
    }

    /// Whether everything owed has been collected.
    pub fn is_fully_funded(&self) -> (r: bool)
        ensures
            r == (self.amount_collected >= self.total_amount),
    {
        self.amount_collected >= self.total_amount
    }

    /// What is still to be collected.
    pub fn remaining_amount(&self) -> (r: i128)
        requires
            i128::MIN <= self.total_amount - self.amount_collected <= i128::MAX,
        ensures
            r == self.total_amount - self.amount_collected,
    {
        self.total_amount - self.amount_collected
    }
}

/// Build an escrow record that is open for payment and has collected nothing.
pub fn create_escrow(
    split_id: u64,
    creator: String,
    description: String,
    total_amount: i128,
    participants: Vec<EscrowParticipant>,
    deadline: u64,
    created_at: u64,
) -> (r: SplitEscrow)
    ensures
        r.split_id == split_id,
        r.creator == creator,
        r.description == description,
        r.total_amount == total_amount,
        r.amount_collected == 0,
        r.participants == participants,
        r.status == EscrowStatus::Active,
        r.deadline == Some(deadline),
        r.created_at == created_at,
{
    SplitEscrow {
        split_id,
        creator,
        description,
        total_amount,
        amount_collected: 0,
        participants,
        status: EscrowStatus::Active,
        deadline: Some(deadline),
        created_at,
    }
}

proof fn lemma_sums_update(s: Seq<EscrowParticipant>, i: int, p: EscrowParticipant)
    requires
        0 <= i < s.len(),
        p.amount_owed == s[i].amount_owed,
    ensures
        sum_owed(s.update(i, p)) == sum_owed(s),
        sum_paid(s.update(i, p)) == sum_paid(s) - s[i].amount_paid + p.amount_paid,
    decreases s.len(),
{
    let t = s.update(i, p);
    if i < s.len() - 1 {
        lemma_sums_update(s.drop_last(), i, p);
        assert(t.drop_last() == s.drop_last().update(i, p));
    } else {
        assert(t.drop_last() == s.drop_last());
    }
}

proof fn lemma_paid_within_owed(s: Seq<EscrowParticipant>)
    requires
        forall|i: int| 0 <= i < s.len() ==> (#[trigger] s[i]).wf(),
    ensures
        0 <= sum_paid(s) <= sum_owed(s),
    decreases s.len(),
{
    if s.len() > 0 {
        let t = s.drop_last();
        assert forall|i: int| 0 <= i < t.len() implies (#[trigger] t[i]).wf() by {
            assert(t[i] == s[i]);
        }
        lemma_paid_within_owed(t);
        assert(s.last().wf());
    }
}

proof fn lemma_share_prefix(s: Seq<i128>, j: int)
    requires
        0 <= j <= s.len(),
        forall|i: int| 0 <= i < s.len() ==> s[i] > 0,
    ensures
        share_sum(s.subrange(0, j)) <= share_sum(s),
    decreases s.len(),
{
    if j < s.len() {
        let t = s.drop_last();
        assert(t.subrange(0, j) == s.subrange(0, j));
        lemma_share_prefix(t, j);
    } else {
        assert(s.subrange(0, j) == s);
    }
}

/// The participants that a split starts with: one per address, owing its share.
pub open spec fn initial_participants(addresses: Seq<String>, shares: Seq<i128>) -> Seq<
    EscrowParticipant,
> {
    Seq::new(
        shares.len(),
        |i: int|
            EscrowParticipant {
                address: addresses[i],
                amount_owed: shares[i],
                amount_paid: 0,
                paid_at: None,
            },
    )
}

proof fn lemma_initial_sums(addresses: Seq<String>, shares: Seq<i128>)
    ensures
        sum_owed(initial_participants(addresses, shares)) == share_sum(shares),
        sum_paid(initial_participants(addresses, shares)) == 0,
    decreases shares.len(),
{
    if shares.len() > 0 {
        lemma_initial_sums(addresses, shares.drop_last());
        assert(initial_participants(addresses, shares).drop_last() =~= initial_participants(
            addresses,
            shares.drop_last(),
        ));
    }
}

/// `e` is the record that `create_split` makes under `split_id`.
pub open spec fn is_new_split(
    e: SplitEscrow,
    split_id: u64,
    creator: String,
    description: String,
    total_amount: i128,
    addresses: Seq<String>,
    shares: Seq<i128>,
    now: u64,
) -> bool {
    &&& e.split_id == split_id
    &&& e.creator == creator
    &&& e.description == description
    &&& e.total_amount == total_amount
    &&& e.amount_collected == 0
    &&& e.participants@ == initial_participants(addresses, shares)
    &&& e.status == EscrowStatus::Pending
    &&& e.deadline is None
    &&& e.created_at == now
}

/// A participant after paying `amount` at time `now`: the payment time is set
/// when this payment completes the obligation.
pub open spec fn after_payment(p: EscrowParticipant, amount: i128, now: u64) -> EscrowParticipant {
    EscrowParticipant {
        address: p.address,
        amount_owed: p.amount_owed,
        amount_paid: (p.amount_paid + amount) as i128,
        paid_at: if p.amount_paid + amount == p.amount_owed {
            Some(now)
        } else {
            p.paid_at
        },
    }
}

/// `e2` is `e` after the participant in slot `i` paid `amount` at time `now`.
pub open spec fn is_deposit_of(
    e: SplitEscrow,
    e2: SplitEscrow,
    i: int,
    amount: i128,
    now: u64,
) -> bool {
    &&& e2.split_id == e.split_id
    &&& e2.creator == e.creator
    &&& e2.description == e.description
    &&& e2.total_amount == e.total_amount
    &&& e2.deadline == e.deadline
    &&& e2.created_at == e.created_at
    &&& e2.participants@ == e.participants@.update(i, after_payment(e.participants@[i], amount, now))
    &&& e2.amount_collected == e.amount_collected + amount
    &&& e2.status == if e.amount_collected + amount == e.total_amount {
        EscrowStatus::Completed
    } else {
        EscrowStatus::Active
    }
}

/// The escrow ledger: every split created so far, numbered from 1 in order of
/// creation. Records are never removed; terminal ones are kept for audit.
pub struct SplitEscrowContract {
    escrows: Vec<SplitEscrow>,
}

impl SplitEscrowContract {
    /// The records, the split numbered `k + 1` in slot `k`.
    pub closed spec fn records(&self) -> Seq<SplitEscrow> {
        self.escrows@
    }

    /// Every record sits in the slot of its number and keeps its invariant.
    pub open spec fn wf(&self) -> bool {
        forall|k: int|
            0 <= k < self.records().len() ==> (#[trigger] self.records()[k]).split_id == k + 1
                && self.records()[k].wf()
    }

    /// Whether `split_id` numbers a split of the ledger.
    pub open spec fn has_split(&self, split_id: u64) -> bool {
        1 <= split_id <= self.records().len()
    }

    /// The record of a split that `has_split` admits.
    pub open spec fn split(&self, split_id: u64) -> SplitEscrow {
        self.records()[split_id - 1]
    }

    /// An empty ledger.
    pub fn new() -> (r: Self)
        ensures
            r.wf(),
            r.records() == Seq::<SplitEscrow>::empty(),
    {
        SplitEscrowContract { escrows: Vec::new() }
    }

    /// How many splits have been created, which is also the last number issued.
    pub fn get_escrow_count(&self) -> (r: u64)
        requires
            self.records().len() <= u64::MAX,
        ensures
            r == self.records().len(),
    {
        self.escrows.len() as u64
    }

    /// The record of a split.
    pub fn get_split(&self, split_id: u64) -> (r: Result<&SplitEscrow, EscrowError>)
        ensures
            r is Ok <==> self.has_split(split_id),
            r matches Ok(e) ==> *e == self.split(split_id),
            r is Err ==> r == Err::<&SplitEscrow, EscrowError>(EscrowError::NotFound),
    {
        if split_id == 0 || split_id > self.escrows.len() as u64 {
            return Err(EscrowError::NotFound);
        }
        Ok(&self.escrows[(split_id - 1) as usize])
    }

    /// Create a split in which each address owes its share. It is numbered one past
    /// the last split and starts Pending with nothing collected.
    pub fn create_split(
        &mut self,
        creator: String,
        description: String,
        total_amount: i128,
        addresses: Vec<String>,
        shares: Vec<i128>,
        now: u64,
    ) -> (r: Result<u64, EscrowError>)
        requires
            old(self).wf(),
            old(self).records().len() < u64::MAX,
        ensures
            final(self).wf(),
            r is Ok <==> valid_split_input(addresses@, shares@, total_amount),
            r == Err::<u64, EscrowError>(EscrowError::InvalidParticipants) <==> !valid_participant_list(
                addresses@,
                shares@,
            ),
            r matches Ok(id) ==> id == old(self).records().len() + 1 && final(self).records().len()
                == id && final(self).records().drop_last() == old(self).records() && is_new_split(
                final(self).records().last(),
                id,
                creator,
                description,
                total_amount,
                addresses@,
                shares@,
                now,
            ),
            r is Err ==> r == Err::<u64, EscrowError>(EscrowError::InvalidParticipants) || r
                == Err::<u64, EscrowError>(EscrowError::InvalidShares),
            r is Err ==> final(self).records() == old(self).records(),
    {
        if addresses.len() == 0 || addresses.len() != shares.len() {
            return Err(EscrowError::InvalidParticipants);
        }
        let mut a: usize = 0;
        while a < addresses.len()
            invariant
                a <= addresses@.len(),
                old(self).wf(),
                self.escrows@ == old(self).escrows@,
                forall|i: int, j: int|
                    0 <= i < a && 0 <= j < addresses@.len() && i != j ==> (#[trigger] addresses@[i])@
                        != (#[trigger] addresses@[j])@,
            decreases addresses@.len() - a,
        {
            let mut b: usize = a + 1;
            while b < addresses.len()
                invariant
                    a < addresses@.len(),
                    a + 1 <= b <= addresses@.len(),
                    old(self).wf(),
                    self.escrows@ == old(self).escrows@,
                    forall|j: int| a < j < b ==> addresses@[a as int]@ != (#[trigger] addresses@[j])@,
                decreases addresses@.len() - b,
            {
                if addresses[a] == addresses[b] {
                    proof {
                        assert(addresses@[a as int]@ == addresses@[b as int]@);
                    }
                    return Err(EscrowError::InvalidParticipants);
                }
                b = b + 1;
            }
            proof {
                assert forall|i: int, j: int|
                    0 <= i < a + 1 && 0 <= j < addresses@.len() && i != j implies (
                    #[trigger] addresses@[i])@ != (#[trigger] addresses@[j])@ by {
                    if i == a && j < a {
                        assert(addresses@[j]@ != addresses@[i]@);
                    }
                }
            }
            a = a + 1;
        }
        let mut sum: i128 = 0;
        let mut i: usize = 0;
        while i < shares.len()
            invariant
                i <= shares@.len(),
                0 < addresses@.len() == shares@.len(),
                distinct_addresses(addresses@),
                old(self).wf(),
                self.escrows@ == old(self).escrows@,
                sum == share_sum(shares@.subrange(0, i as int)),
                forall|j: int| 0 <= j < i ==> shares@[j] > 0,
            decreases shares@.len() - i,
        {
            proof {
                assert(shares@.subrange(0, i + 1).drop_last() == shares@.subrange(0, i as int));
            }
            if shares[i] <= 0 {
                return Err(EscrowError::InvalidShares);
            }
            match sum.checked_add(shares[i]) {
                Some(s) => {
                    sum = s;
                },
                None => {
                    proof {
                        if forall|j: int| 0 <= j < shares@.len() ==> shares@[j] > 0 {
                            lemma_share_prefix(shares@, i + 1);
                        }
                    }
                    return Err(EscrowError::InvalidShares);
                },
            }
            i = i + 1;
        }
        proof {
            assert(shares@.subrange(0, shares@.len() as int) == shares@);
        }
        if sum != total_amount {
            return Err(EscrowError::InvalidShares);
        }
        let mut participants: Vec<EscrowParticipant> = Vec::new();
        let mut k: usize = 0;
        while k < shares.len()
            invariant
                k <= shares@.len(),
                0 < shares@.len() == addresses@.len(),
                distinct_addresses(addresses@),
                old(self).wf(),
                self.escrows@ == old(self).escrows@,
                forall|j: int| 0 <= j < shares@.len() ==> shares@[j] > 0,
                share_sum(shares@) == total_amount,
                participants@ == initial_participants(addresses@, shares@.subrange(0, k as int)),
            decreases shares@.len() - k,
        {
            participants.push(EscrowParticipant::new(addresses[k].clone(), shares[k]));
            proof {
                assert(participants@ =~= initial_participants(
                    addresses@,
                    shares@.subrange(0, k + 1),
                ));
            }
            k = k + 1;
        }
        proof {
            assert(shares@.subrange(0, shares@.len() as int) == shares@);
            lemma_initial_sums(addresses@, shares@);
            lemma_share_prefix(shares@, 1);
            assert(shares@.subrange(0, 1).drop_last() == Seq::<i128>::empty());
            assert(share_sum(Seq::<i128>::empty()) == 0);
            assert(share_sum(shares@.subrange(0, 1)) == shares@[0]);
        }
        let split_id = self.escrows.len() as u64 + 1;
        let record = SplitEscrow {
            split_id,
            creator,
            description,
            total_amount,
            amount_collected: 0,
            participants,
            status: EscrowStatus::Pending,
            deadline: None,
            created_at: now,
        };
        proof {
            assert forall|j: int|
                0 <= j < record.participants@.len() implies (#[trigger] record.participants@[j]).wf() by {
                assert(shares@[j] > 0);
            }
            assert(record.wf());
        }
        self.escrows.push(record);
        proof {
            assert(self.escrows@.drop_last() == old(self).escrows@);
            assert forall|j: int| 0 <= j < self.records().len() implies (#[trigger] self.records()[j]).split_id
                == j + 1 && self.records()[j].wf() by {
                if j < old(self).records().len() {
                    assert(self.records()[j] == old(self).records()[j]);
                }
            }
        }
        Ok(split_id)
    }


    /// The error that `deposit` reports, in the order the checks are made, or
    /// `None` when the payment is accepted.
    pub open spec fn deposit_error(
        &self,
        split_id: u64,
        participant: Seq<char>,
        amount: i128,
    ) -> Option<EscrowError> {
        if !self.has_split(split_id) {
            Some(EscrowError::NotFound)
        } else if self.split(split_id).status.is_terminal() {
            Some(EscrowError::SplitClosed)
        } else if amount <= 0 {
            Some(EscrowError::InvalidAmount)
        } else if participant_index(self.split(split_id).participants@, participant) < 0 {
            Some(EscrowError::NotAuthorized)
        } else if amount > remaining_of(self.split(split_id), participant) {
            Some(EscrowError::DepositExceedsRemaining)
        } else {
            None
        }
    }

    /// Record a payment of `amount` by `participant` at time `now`. The payment
    /// must be positive and at most what the participant still owes; the split
    /// must exist and still be open. The split becomes Active, or Completed once
    /// everything is collected.
    pub fn deposit(&mut self, split_id: u64, participant: &String, amount: i128, now: u64) -> (r:
        Result<(), EscrowError>)
        requires
            old(self).wf(),
        ensures
            final(self).wf(),
            old(self).deposit_error(split_id, participant@, amount) matches Some(err) ==> r == Err::<
                (),
                EscrowError,
            >(err),
            r is Ok <==> old(self).deposit_error(split_id, participant@, amount) is None,
            r is Ok ==> final(self).records() == old(self).records().update(
                split_id - 1,
                final(self).split(split_id),
            ) && is_deposit_of(
                old(self).split(split_id),
                final(self).split(split_id),
                participant_index(old(self).split(split_id).participants@, participant@),
                amount,
                now,
            ),
            r is Err ==> final(self).records() == old(self).records(),
            old(self).has_split(split_id) && participant_index(
                old(self).split(split_id).participants@,
                participant@,
            ) >= 0 && amount > remaining_of(old(self).split(split_id), participant@) ==> r is Err,
            old(self).has_split(split_id) && old(self).split(split_id).status.is_terminal()
                ==> r == Err::<(), EscrowError>(EscrowError::SplitClosed),
    {
        if split_id == 0 || split_id > self.escrows.len() as u64 {
            return Err(EscrowError::NotFound);
        }
        let k = (split_id - 1) as usize;
        let status = self.escrows[k].status;
        if status == EscrowStatus::Completed || status == EscrowStatus::Cancelled || status
            == EscrowStatus::Expired {
            return Err(EscrowError::SplitClosed);
        }
        if amount <= 0 {
            return Err(EscrowError::InvalidAmount);
        }
        let ghost e = self.escrows@[k as int];
        let mut i: usize = 0;
        let mut found: bool = false;
        while i < self.escrows[k].participants.len()
            invariant_except_break
                !found,
            invariant
                k < self.escrows@.len(),
                self.escrows@ == old(self).escrows@,
                e == self.escrows@[k as int],
                i <= e.participants@.len(),
                forall|j: int| 0 <= j < i ==> e.participants@[j].address@ != participant@,
            ensures
                k < self.escrows@.len(),
                self.escrows@ == old(self).escrows@,
                e == self.escrows@[k as int],
                i <= e.participants@.len(),
                forall|j: int| 0 <= j < i ==> e.participants@[j].address@ != participant@,
                found ==> i < e.participants@.len() && e.participants@[i as int].address@
                    == participant@,
                !found ==> i == e.participants@.len(),
            decreases e.participants@.len() - i,
        {
            if self.escrows[k].participants[i].address == *participant {
                found = true;
                break;
            }
            i = i + 1;
        }
        if !found {
            proof {
                assert(!exists|j: int| 0 <= j < e.participants@.len() && e.participants@[j].address@ == participant@);
            }
            return Err(EscrowError::NotAuthorized);
        }
        proof {
            lemma_first_index(e.participants@, participant@, i as int);
            assert(e.wf());
            assert(e.participants@[i as int].wf());
        }
        let owed = self.escrows[k].participants[i].amount_owed;
        let paid = self.escrows[k].participants[i].amount_paid;
        if amount > owed - paid {
            return Err(EscrowError::DepositExceedsRemaining);
        }
        let new_paid = paid + amount;
        let paid_at = if new_paid == owed {
            Some(now)
        } else {
            self.escrows[k].participants[i].paid_at
        };
        let updated = EscrowParticipant {
            address: self.escrows[k].participants[i].address.clone(),
            amount_owed: owed,
            amount_paid: new_paid,
            paid_at,
        };
        proof {
            assert(updated == after_payment(e.participants@[i as int], amount, now));
            lemma_sums_update(e.participants@, i as int, updated);
            let t = e.participants@.update(i as int, updated);
            assert forall|j: int| 0 <= j < t.len() implies (#[trigger] t[j]).wf() by {
                if j != i {
                    assert(t[j] == e.participants@[j]);
                    assert(e.participants@[j].wf());
                }
            }
            lemma_paid_within_owed(t);
        }
        let collected = self.escrows[k].amount_collected + amount;
        let total = self.escrows[k].total_amount;
        let escrow = &mut self.escrows[k];
        escrow.participants[i] = updated;
        escrow.amount_collected = collected;
        escrow.status = if collected == total {
            EscrowStatus::Completed
        } else {
            EscrowStatus::Active
        };
        proof {
            let e2 = self.escrows@[k as int];
            assert(is_deposit_of(e, e2, i as int, amount, now));
            assert(e2.wf());
            assert forall|j: int| 0 <= j < self.records().len() implies (#[trigger] self.records()[j]).split_id
                == j + 1 && self.records()[j].wf() by {
                if j != k {
                    assert(self.records()[j] == old(self).records()[j]);
                }
            }
            assert(self.escrows@ == old(self).escrows@.update(k as int, e2));
        }
        Ok(())
    }

    /// Cancel a split that is Pending or Active. What was collected stays on the
    /// record for audit.
    pub fn cancel_split(&mut self, split_id: u64) -> (r: Result<(), EscrowError>)
        requires
            old(self).wf(),
        ensures
            final(self).wf(),
            !old(self).has_split(split_id) ==> r == Err::<(), EscrowError>(EscrowError::NotFound),
            old(self).has_split(split_id) && old(self).split(split_id).status.is_terminal()
                ==> r == Err::<(), EscrowError>(EscrowError::SplitClosed),
            r is Ok <==> old(self).has_split(split_id) && !old(self).split(
                split_id,
            ).status.is_terminal(),
            r is Ok ==> final(self).records() == old(self).records().update(
                split_id - 1,
                final(self).split(split_id),
            ) && final(self).split(split_id) == (SplitEscrow {
                status: EscrowStatus::Cancelled,
                ..old(self).split(split_id)
            }),
            r is Err ==> final(self).records() == old(self).records(),
    {
        if split_id == 0 || split_id > self.escrows.len() as u64 {
            return Err(EscrowError::NotFound);
        }
        let k = (split_id - 1) as usize;
        let status = self.escrows[k].status;
        if status == EscrowStatus::Completed || status == EscrowStatus::Cancelled || status
            == EscrowStatus::Expired {
            return Err(EscrowError::SplitClosed);
        }
        proof {
            assert(old(self).records()[k as int].wf());
        }
        let escrow = &mut self.escrows[k];
        escrow.status = EscrowStatus::Cancelled;
        proof {
            assert forall|j: int| 0 <= j < self.records().len() implies (#[trigger] self.records()[j]).split_id
                == j + 1 && self.records()[j].wf() by {
                if j != k {
                    assert(self.records()[j] == old(self).records()[j]);
                }
            }
            assert(self.escrows@ == old(self).escrows@.update(k as int, self.escrows@[k as int]));
        }
        Ok(())
    }

    /// Authorise disbursement of a Completed split's funds. Moving the funds is the
    /// caller's part; the ledger does not change, so the call may be repeated.
    pub fn release_funds(&self, split_id: u64) -> (r: Result<(), EscrowError>)
        ensures
            !self.has_split(split_id) ==> r == Err::<(), EscrowError>(EscrowError::NotFound),
            self.has_split(split_id) && self.split(split_id).status != EscrowStatus::Completed
                ==> r == Err::<(), EscrowError>(EscrowError::SplitNotCompleted),
            r is Ok <==> self.has_split(split_id) && self.split(split_id).status
                == EscrowStatus::Completed,
    {
        if split_id == 0 || split_id > self.escrows.len() as u64 {
            return Err(EscrowError::NotFound);
        }
        if self.escrows[(split_id - 1) as usize].status != EscrowStatus::Completed {
            return Err(EscrowError::SplitNotCompleted);
        }
        Ok(())
    }
}

/// What the first participant with address `a` still owes.
pub open spec fn remaining_of(e: SplitEscrow, a: Seq<char>) -> int {
    e.participants@[participant_index(e.participants@, a)].amount_owed
        - e.participants@[participant_index(e.participants@, a)].amount_paid
}

proof fn lemma_first_index(s: Seq<EscrowParticipant>, a: Seq<char>, i: int)
    requires
        0 <= i < s.len(),
        s[i].address@ == a,
        forall|j: int| 0 <= j < i ==> s[j].address@ != a,
    ensures
        participant_index(s, a) == i,
{
    let c = participant_index(s, a);
    assert(0 <= c < s.len() && s[c].address@ == a && forall|j: int| 0 <= j < c ==> s[j].address@ != a);
    if c < i {
        assert(s[c].address@ != a);
    }
    if c > i {
        assert(s[i].address@ != a);
    }
}

/// Conservation: in every well-formed record the amount collected is the sum of
/// what the participants have paid, and lies between nothing and the total.
pub proof fn lemma_conservation(e: SplitEscrow)
    requires
        e.wf(),
    ensures
        e.amount_collected == sum_paid(e.participants@),
        0 <= e.amount_collected <= e.total_amount,
        forall|i: int|
            0 <= i < e.participants@.len() ==> 0 <= #[trigger] e.participants@[i].amount_paid
                <= e.participants@[i].amount_owed,
{
    lemma_paid_within_owed(e.participants@);
    assert forall|i: int|
        0 <= i < e.participants@.len() implies 0 <= #[trigger] e.participants@[i].amount_paid
        <= e.participants@[i].amount_owed by {
        assert(e.participants@[i].wf());
    }
}

/// Conservation over the whole ledger: every split's amount collected is the
/// sum of its participants' payments, lies between nothing and its total, and no
/// participant has paid more than they owe. Every operation of the ledger keeps
/// `wf`, so this holds after any sequence of them.
pub proof fn lemma_ledger_conservation(c: &SplitEscrowContract, split_id: u64)
    requires
        c.wf(),
        c.has_split(split_id),
    ensures
        c.split(split_id).amount_collected == sum_paid(c.split(split_id).participants@),
        0 <= c.split(split_id).amount_collected <= c.split(split_id).total_amount,
        forall|i: int|
            0 <= i < c.split(split_id).participants@.len() ==> 0
                <= #[trigger] c.split(split_id).participants@[i].amount_paid
                <= c.split(split_id).participants@[i].amount_owed,
{
    assert(c.records()[split_id - 1].wf());
    lemma_conservation(c.split(split_id));
}

/// No overpayment: a payment of more than a participant still owes is refused,
/// whichever slot the participant holds; on an open split the refusal is
/// `DepositExceedsRemaining`. `deposit` leaves every record as it was on any
/// refusal, so no part of such a payment is taken.
pub proof fn lemma_no_overpay(c: &SplitEscrowContract, split_id: u64, k: int, amount: i128)
    requires
        c.wf(),
        c.has_split(split_id),
        0 <= k < c.split(split_id).participants@.len(),
        amount > c.split(split_id).participants@[k].amount_owed
            - c.split(split_id).participants@[k].amount_paid,
    ensures
        c.deposit_error(split_id, c.split(split_id).participants@[k].address@, amount) is Some,
        !c.split(split_id).status.is_terminal() ==> c.deposit_error(
            split_id,
            c.split(split_id).participants@[k].address@,
            amount,
        ) == Some(EscrowError::DepositExceedsRemaining),
{
    let e = c.split(split_id);
    assert(c.records()[split_id - 1].wf());
    assert forall|j: int| 0 <= j < k implies e.participants@[j].address@
        != e.participants@[k].address@ by {
        assert(e.participants@[j].address@ != e.participants@[k].address@);
    }
    lemma_first_index(e.participants@, e.participants@[k].address@, k);
    assert(e.participants@[k].wf());
}

} // verus!
