//! The dispute engine: any party may raise a dispute against a split; each
//! address votes at most once within a fixed window; after the window the
//! dispute resolves, once, by simple majority.

use vstd::prelude::*;
use crate::dispute_store::{
    add_to_list, get_dispute, get_list, has_dispute, has_voted, record_vote, save_dispute,
    DisputeStore,
};
use crate::dispute_types::{Dispute, DisputeResult, DisputeStatus, Error};
use crate::ident::{dispute_id_of, generate_dispute_id, MAX_SPLIT_ID_BYTES};
use vstd::utf8::encode_utf8;

verus! {

/// Length of the voting window: seven days, in seconds.
pub const VOTING_PERIOD: u64 = 604800;

/// The majority rule: more votes for upholds, more against dismisses, and equal
/// counts, none included, tie.
pub open spec fn outcome(votes_for: u32, votes_against: u32) -> DisputeResult {
    if votes_for > votes_against {
        DisputeResult::UpheldForRaiser
    } else if votes_against > votes_for {
        DisputeResult::DismissedForRaiser
    } else {
        DisputeResult::Tied
    }
}

/// `d` is the record that `raise_dispute` makes.
pub open spec fn is_new_dispute(
    d: Dispute,
    dispute_id: Seq<char>,
    split_id: String,
    raiser: String,
    reason: String,
    now: u64,
) -> bool {
    &&& d.dispute_id@ == dispute_id
    &&& d.split_id == split_id
    &&& d.raiser == raiser
    &&& d.reason == reason
    &&& d.status == DisputeStatus::Voting
    &&& d.votes_for == 0
    &&& d.votes_against == 0
    &&& d.voters@ == Seq::<String>::empty()
    &&& d.created_at == now
    &&& d.voting_ends_at == now + VOTING_PERIOD
    &&& d.result is None
}

/// `d2` is `d` after `voter` voted: one more vote on the chosen side, and the
/// voter appended to the audit list.
pub open spec fn is_vote_of(d: Dispute, d2: Dispute, voter: String, support: bool) -> bool {
    &&& d2.dispute_id == d.dispute_id
    &&& d2.split_id == d.split_id
    &&& d2.raiser == d.raiser
    &&& d2.reason == d.reason
    &&& d2.status == d.status
    &&& d2.votes_for == d.votes_for + (if support {
        1int
    } else {
        0int
    })
    &&& d2.votes_against == d.votes_against + (if support {
        0int
    } else {
        1int
    })
    &&& d2.voters@ == d.voters@.push(voter)
    &&& d2.created_at == d.created_at
    &&& d2.voting_ends_at == d.voting_ends_at
    &&& d2.result == d.result
}

/// `d2` is `d` resolved with `result`: nothing else changes.
pub open spec fn is_resolution_of(d: Dispute, d2: Dispute, result: DisputeResult) -> bool {
    &&& d2.dispute_id == d.dispute_id
    &&& d2.split_id == d.split_id
    &&& d2.raiser == d.raiser
    &&& d2.reason == d.reason
    &&& d2.status == DisputeStatus::Resolved
    &&& d2.votes_for == d.votes_for
    &&& d2.votes_against == d.votes_against
    &&& d2.voters@ == d.voters@
    &&& d2.created_at == d.created_at
    &&& d2.voting_ends_at == d.voting_ends_at
    &&& d2.result == Some(result)
}

/// Whether `voter` is on the dispute's audit list.
pub open spec fn on_list(d: Dispute, voter: Seq<char>) -> bool {
    exists|j: int| 0 <= j < d.voters@.len() && (#[trigger] d.voters@[j])@ == voter
}

/// The dispute's counts add up to the length of its audit list, which names
/// each voter once.
pub open spec fn tally_consistent(d: Dispute) -> bool {
    &&& d.votes_for + d.votes_against == d.voters@.len()
    &&& forall|i: int, j: int|
        0 <= i < d.voters@.len() && 0 <= j < d.voters@.len() && i != j ==> (#[trigger] d.voters@[i])@
            != (#[trigger] d.voters@[j])@
}

/// A dispute has no result exactly while it is open for voting, and has one
/// once it is resolved; no other status occurs.
pub open spec fn result_consistent(d: Dispute) -> bool {
    ||| (d.status == DisputeStatus::Voting && d.result is None)
    ||| (d.status == DisputeStatus::Resolved && d.result is Some)
}

proof fn lemma_on_list_push(d: Dispute, d2: Dispute, voter: String)
    requires
        d2.voters@ == d.voters@.push(voter),
    ensures
        forall|v: Seq<char>| #[trigger] on_list(d2, v) <==> (on_list(d, v) || v == voter@),
{
    assert forall|v: Seq<char>| #[trigger] on_list(d2, v) <==> (on_list(d, v) || v == voter@) by {
        if on_list(d, v) {
            let j = choose|j: int| 0 <= j < d.voters@.len() && (#[trigger] d.voters@[j])@ == v;
            assert(d2.voters@[j] == d.voters@[j]);
        }
        if v == voter@ {
            assert(d2.voters@[d.voters@.len() as int] == voter);
        }
        if on_list(d2, v) {
            let j = choose|j: int| 0 <= j < d2.voters@.len() && (#[trigger] d2.voters@[j])@ == v;
            if j < d.voters@.len() {
                assert(d2.voters@[j] == d.voters@[j]);
            }
        }
    }
}

fn clone_strings(v: &Vec<String>) -> (r: Vec<String>)
    ensures
        r@ == v@,
{
    let mut out: Vec<String> = Vec::new();
    let mut i: usize = 0;
    while i < v.len()
        invariant
            i <= v@.len(),
            out@ == v@.subrange(0, i as int),
        decreases v@.len() - i,
    {
        out.push(v[i].clone());
        proof {
            assert(out@ =~= v@.subrange(0, i + 1));
        }
        i = i + 1;
    }
    proof {
        assert(v@.subrange(0, v@.len() as int) =~= v@);
    }
    out
}

/// The dispute engine and the state it owns.
pub struct DisputeContract {
    store: DisputeStore,
}

impl DisputeContract {
    /// The disputes, by identifier.
    pub closed spec fn disputes(&self) -> Map<Seq<char>, Dispute> {
        self.store.records()
    }

    /// The identifiers of all disputes, in the order they were raised.
    pub closed spec fn list(&self) -> Seq<String> {
        self.store.list()
    }

    /// Whether `voter` has a vote recorded on the dispute `dispute_id`.
    pub closed spec fn voted(&self, dispute_id: Seq<char>, voter: Seq<char>) -> bool {
        self.store.voted(dispute_id, voter)
    }

    /// The engine's state is consistent.
    pub closed spec fn wf(&self) -> bool {
        &&& self.store.wf()
        &&& forall|id: Seq<char>|
            #[trigger] self.disputes().contains_key(id) ==> tally_consistent(self.disputes()[id])
                && result_consistent(self.disputes()[id])
        &&& forall|id: Seq<char>, v: Seq<char>|
            #[trigger] self.voted(id, v) <==> (self.disputes().contains_key(id) && on_list(
                self.disputes()[id],
                v,
            ))
    }

    /// The error that `vote_on_dispute` reports, in the order the checks are made,
    /// or `None` when the vote is accepted.
    pub open spec fn vote_error(&self, dispute_id: Seq<char>, voter: Seq<char>, now: u64) -> Option<
        Error,
    > {
        if !self.disputes().contains_key(dispute_id) {
            Some(Error::NotFound)
        } else if self.disputes()[dispute_id].status != DisputeStatus::Voting {
            Some(Error::DisputeClosed)
        } else if now > self.disputes()[dispute_id].voting_ends_at {
            Some(Error::VotingPeriodEnded)
        } else if self.voted(dispute_id, voter) {
            Some(Error::AlreadyVoted)
        } else {
            None
        }
    }

    /// The error that `resolve_dispute` reports, in the order the checks are
    /// made, or `None` when the dispute resolves.
    pub open spec fn resolve_error(&self, dispute_id: Seq<char>, now: u64) -> Option<Error> {
        if !self.disputes().contains_key(dispute_id) {
            Some(Error::NotFound)
        } else if self.disputes()[dispute_id].status != DisputeStatus::Voting {
            Some(Error::DisputeClosed)
        } else if now <= self.disputes()[dispute_id].voting_ends_at {
            Some(Error::VotingPeriodActive)
        } else {
            None
        }
    }

    /// An engine with no disputes.
    pub fn new() -> (r: Self)
        ensures
            r.wf(),
            r.disputes() == Map::<Seq<char>, Dispute>::empty(),
            r.list() == Seq::<String>::empty(),
            forall|d: Seq<char>, v: Seq<char>| !r.voted(d, v),
    {
        DisputeContract { store: DisputeStore::new() }
    }

    /// Raise a dispute against `split_id` at time `now` and ledger sequence
    /// `sequence`. The dispute opens for voting until `now + VOTING_PERIOD`; its
    /// identifier is derived from the split and the sequence, and a clash with a
    /// stored dispute is refused. The split identifier is at most
    /// `MAX_SPLIT_ID_BYTES` long in UTF-8.
    pub fn raise_dispute(
        &mut self,
        split_id: String,
        raiser: String,
        reason: String,
        now: u64,
        sequence: u32,
    ) -> (r: Result<String, Error>)
        requires
            old(self).wf(),
            now <= u64::MAX - VOTING_PERIOD,
            encode_utf8(split_id@).len() <= MAX_SPLIT_ID_BYTES,
        ensures
            final(self).wf(),
            old(self).disputes().contains_key(dispute_id_of(split_id@, sequence)) ==> r == Err::<
                String,
                Error,
            >(Error::AlreadyExists) && final(self).disputes() == old(self).disputes()
                && final(self).list() == old(self).list(),
            !old(self).disputes().contains_key(dispute_id_of(split_id@, sequence)) ==> (r matches Ok(
                id,
            ) && id@ == dispute_id_of(split_id@, sequence) && final(self).disputes().contains_key(
                id@,
            ) && final(self).disputes() == old(self).disputes().insert(
                id@,
                final(self).disputes()[id@],
            ) && is_new_dispute(
                final(self).disputes()[id@],
                id@,
                split_id,
                raiser,
                reason,
                now,
            ) && final(self).list() == old(self).list().push(id)),
            forall|d: Seq<char>, v: Seq<char>| final(self).voted(d, v) == old(self).voted(d, v),
    {
        let dispute_id = generate_dispute_id(&split_id, sequence);
        if has_dispute(&self.store, &dispute_id) {
            return Err(Error::AlreadyExists);
        }
        let dispute = Dispute {
            dispute_id: dispute_id.clone(),
            split_id,
            raiser,
            reason,
            status: DisputeStatus::Voting,
            votes_for: 0,
            votes_against: 0,
            voters: Vec::new(),
            created_at: now,
            voting_ends_at: now + VOTING_PERIOD,
            result: None,
        };
        save_dispute(&mut self.store, dispute);
        add_to_list(&mut self.store, dispute_id.clone());
        proof {
            assert forall|k: Seq<char>| #[trigger] self.disputes().contains_key(k) implies tally_consistent(
                self.disputes()[k],
            ) && result_consistent(self.disputes()[k]) by {
                if k != dispute_id@ {
                    assert(old(self).disputes().contains_key(k));
                }
            }
            assert forall|k: Seq<char>, v: Seq<char>|
                #[trigger] self.voted(k, v) <==> (self.disputes().contains_key(k) && on_list(
                    self.disputes()[k],
                    v,
                )) by {
                assert(old(self).voted(k, v) <==> (old(self).disputes().contains_key(k) && on_list(
                    old(self).disputes()[k],
                    v,
                )));
                if k == dispute_id@ {
                    assert(!old(self).voted(k, v));
                    assert(self.disputes()[k].voters@.len() == 0);
                }
            }
        }
        Ok(dispute_id)
    }

    /// Cast `voter`'s vote on a dispute at time `now`: `support` for the dispute,
    /// or against it. The dispute must be Voting, its window open (`now` at most
    /// its end), and the voter must not have voted on it before.
    pub fn vote_on_dispute(&mut self, dispute_id: String, voter: String, support: bool, now: u64) -> (r:
        Result<(), Error>)
        requires
            old(self).wf(),
            old(self).vote_error(dispute_id@, voter@, now) is None ==> old(self).disputes()[dispute_id@].votes_for
                < u32::MAX && old(self).disputes()[dispute_id@].votes_against < u32::MAX,
        ensures
            final(self).wf(),
            old(self).vote_error(dispute_id@, voter@, now) matches Some(e) ==> r == Err::<(), Error>(
                e,
            ),
            r is Ok <==> old(self).vote_error(dispute_id@, voter@, now) is None,
            r is Ok ==> final(self).disputes() == old(self).disputes().insert(
                dispute_id@,
                final(self).disputes()[dispute_id@],
            ) && final(self).disputes().contains_key(dispute_id@) && is_vote_of(
                old(self).disputes()[dispute_id@],
                final(self).disputes()[dispute_id@],
                voter,
                support,
            ),
            r is Ok ==> forall|d: Seq<char>, v: Seq<char>|
                final(self).voted(d, v) == (old(self).voted(d, v) || (d == dispute_id@ && v
                    == voter@)),
            r is Err ==> final(self).disputes() == old(self).disputes() && forall|
                d: Seq<char>,
                v: Seq<char>,
            | final(self).voted(d, v) == old(self).voted(d, v),
            final(self).list() == old(self).list(),
    {
        let current = match get_dispute(&self.store, &dispute_id) {
            Ok(d) => d,
            Err(e) => {
                return Err(e);
            },
        };
        if current.status != DisputeStatus::Voting {
            return Err(Error::DisputeClosed);
        }
        if now > current.voting_ends_at {
            return Err(Error::VotingPeriodEnded);
        }
        if has_voted(&self.store, &dispute_id, &voter) {
            return Err(Error::AlreadyVoted);
        }
        let mut voters = clone_strings(&current.voters);
        voters.push(voter.clone());
        let updated = Dispute {
            dispute_id: current.dispute_id.clone(),
            split_id: current.split_id.clone(),
            raiser: current.raiser.clone(),
            reason: current.reason.clone(),
            status: current.status,
            votes_for: if support {
                current.votes_for + 1
            } else {
                current.votes_for
            },
            votes_against: if support {
                current.votes_against
            } else {
                current.votes_against + 1
            },
            voters,
            created_at: current.created_at,
            voting_ends_at: current.voting_ends_at,
            result: current.result,
        };
        record_vote(&mut self.store, &dispute_id, &voter);
        save_dispute(&mut self.store, updated);
        proof {
            let d = old(self).disputes()[dispute_id@];
            let d2 = self.disputes()[dispute_id@];
            assert(old(self).disputes().contains_key(dispute_id@));
            assert(tally_consistent(d));
            assert(!on_list(d, voter@));
            lemma_on_list_push(d, d2, voter);
            assert forall|i: int, j: int|
                0 <= i < d2.voters@.len() && 0 <= j < d2.voters@.len() && i != j implies (
                #[trigger] d2.voters@[i])@ != (#[trigger] d2.voters@[j])@ by {
                let n = d.voters@.len() as int;
                if i < n && j < n {
                    assert(d2.voters@[i] == d.voters@[i] && d2.voters@[j] == d.voters@[j]);
                } else if i < n {
                    assert(d2.voters@[i] == d.voters@[i]);
                    assert(d.voters@[i]@ != voter@);
                } else {
                    assert(d2.voters@[j] == d.voters@[j]);
                    assert(d.voters@[j]@ != voter@);
                }
            }
            assert(tally_consistent(d2));
            assert forall|k: Seq<char>| #[trigger] self.disputes().contains_key(k) implies tally_consistent(
                self.disputes()[k],
            ) && result_consistent(self.disputes()[k]) by {
                if k != dispute_id@ {
                    assert(old(self).disputes().contains_key(k));
                }
            }
            assert forall|k: Seq<char>, v: Seq<char>|
                #[trigger] self.voted(k, v) <==> (self.disputes().contains_key(k) && on_list(
                    self.disputes()[k],
                    v,
                )) by {
                if k == dispute_id@ {
                    assert(on_list(d2, v) <==> (on_list(d, v) || v == voter@));
                    assert(old(self).voted(k, v) <==> on_list(d, v));
                } else {
                    assert(old(self).voted(k, v) <==> (old(self).disputes().contains_key(k) && on_list(
                        old(self).disputes()[k],
                        v,
                    )));
                }
            }
        }
        Ok(())
    }

    /// Resolve a dispute once its window has closed (`now` strictly after its
    /// end). The result follows the majority rule and is final.
    pub fn resolve_dispute(&mut self, dispute_id: String, now: u64) -> (r: Result<
        DisputeResult,
        Error,
    >)
        requires
            old(self).wf(),
        ensures
            final(self).wf(),
            old(self).resolve_error(dispute_id@, now) matches Some(e) ==> r == Err::<
                DisputeResult,
                Error,
            >(e),
            r is Ok <==> old(self).resolve_error(dispute_id@, now) is None,
            r is Ok ==> old(self).disputes()[dispute_id@].result is None,
            r matches Ok(res) ==> res == outcome(
                old(self).disputes()[dispute_id@].votes_for,
                old(self).disputes()[dispute_id@].votes_against,
            ) && final(self).disputes() == old(self).disputes().insert(
                dispute_id@,
                final(self).disputes()[dispute_id@],
            ) && final(self).disputes().contains_key(dispute_id@) && is_resolution_of(
                old(self).disputes()[dispute_id@],
                final(self).disputes()[dispute_id@],
                res,
            ),
            r is Err ==> final(self).disputes() == old(self).disputes(),
            final(self).list() == old(self).list(),
            forall|d: Seq<char>, v: Seq<char>| final(self).voted(d, v) == old(self).voted(d, v),
    {
        let current = match get_dispute(&self.store, &dispute_id) {
            Ok(d) => d,
            Err(e) => {
                return Err(e);
            },
        };
        if current.status != DisputeStatus::Voting {
            return Err(Error::DisputeClosed);
        }
        if now <= current.voting_ends_at {
            return Err(Error::VotingPeriodActive);
        }
        let result = if current.votes_for > current.votes_against {
            DisputeResult::UpheldForRaiser
        } else if current.votes_against > current.votes_for {
            DisputeResult::DismissedForRaiser
        } else {
            DisputeResult::Tied
        };
        let updated = Dispute {
            dispute_id: current.dispute_id.clone(),
            split_id: current.split_id.clone(),
            raiser: current.raiser.clone(),
            reason: current.reason.clone(),
            status: DisputeStatus::Resolved,
            votes_for: current.votes_for,
            votes_against: current.votes_against,
            voters: clone_strings(&current.voters),
            created_at: current.created_at,
            voting_ends_at: current.voting_ends_at,
            result: Some(result),
        };
        save_dispute(&mut self.store, updated);
        proof {
            assert(old(self).disputes().contains_key(dispute_id@));
            assert forall|k: Seq<char>| #[trigger] self.disputes().contains_key(k) implies tally_consistent(
                self.disputes()[k],
            ) && result_consistent(self.disputes()[k]) by {
                if k != dispute_id@ {
                    assert(old(self).disputes().contains_key(k));
                }
            }
            assert forall|k: Seq<char>, v: Seq<char>|
                #[trigger] self.voted(k, v) <==> (self.disputes().contains_key(k) && on_list(
                    self.disputes()[k],
                    v,
                )) by {
                assert(old(self).voted(k, v) <==> (old(self).disputes().contains_key(k) && on_list(
                    old(self).disputes()[k],
                    v,
                )));
            }
        }
        Ok(result)
    }

    /// The dispute stored under `dispute_id`.
    pub fn get_dispute(&self, dispute_id: String) -> (r: Result<&Dispute, Error>)
        requires
            self.wf(),
        ensures
            r is Ok <==> self.disputes().contains_key(dispute_id@),
            r matches Ok(d) ==> *d == self.disputes()[dispute_id@],
            r is Err ==> r == Err::<&Dispute, Error>(Error::NotFound),
    {
        get_dispute(&self.store, &dispute_id)
    }

    /// The identifiers of all disputes, in the order they were raised.
    pub fn get_all_disputes(&self) -> (r: Vec<String>)
        ensures
            r@ == self.list(),
    {
        get_list(&self.store)
    }
}

/// The majority rule is a function of the two counts: a strict majority for
/// upholds, a strict majority against dismisses, and equal counts (none to none
/// included) tie.
pub proof fn lemma_majority(votes_for: u32, votes_against: u32)
    ensures
        votes_for > votes_against ==> outcome(votes_for, votes_against)
            == DisputeResult::UpheldForRaiser,
        votes_against > votes_for ==> outcome(votes_for, votes_against)
            == DisputeResult::DismissedForRaiser,
        votes_for == votes_against ==> outcome(votes_for, votes_against) == DisputeResult::Tied,
        outcome(0, 0) == DisputeResult::Tied,
{
}

/// Once a voter's vote on a dispute is recorded, no further vote by that voter on
/// it is accepted: while the dispute is still open for voting the attempt is
/// refused as a repeat, and otherwise an earlier check refuses it.
pub proof fn lemma_single_vote(c: DisputeContract, dispute_id: Seq<char>, voter: Seq<char>, now: u64)
    requires
        c.voted(dispute_id, voter),
    ensures
        c.vote_error(dispute_id, voter, now) is Some,
        c.disputes().contains_key(dispute_id) && c.disputes()[dispute_id].status
            == DisputeStatus::Voting && now <= c.disputes()[dispute_id].voting_ends_at
            ==> c.vote_error(dispute_id, voter, now) == Some(Error::AlreadyVoted),
{
}

/// Each address is counted at most once on a dispute: in every state the engine
/// reaches, the two counts add up to the length of the audit list, the list
/// names no address twice, and an address is on it exactly when its vote is
/// recorded.
pub proof fn lemma_one_vote_per_voter(c: DisputeContract, dispute_id: Seq<char>)
    requires
        c.wf(),
        c.disputes().contains_key(dispute_id),
    ensures
        tally_consistent(c.disputes()[dispute_id]),
        forall|v: Seq<char>| c.voted(dispute_id, v) <==> on_list(c.disputes()[dispute_id], v),
{
    assert forall|v: Seq<char>| c.voted(dispute_id, v) <==> on_list(c.disputes()[dispute_id], v) by {
        assert(c.voted(dispute_id, v) <==> (c.disputes().contains_key(dispute_id) && on_list(
            c.disputes()[dispute_id],
            v,
        )));
    }
}

/// A dispute's result is set once: in every state the engine reaches, a dispute
/// open for voting has no result and a resolved one has the result it was
/// resolved with; `resolve_dispute` moves it from the first to the second.
pub proof fn lemma_result_set_once(c: DisputeContract, dispute_id: Seq<char>)
    requires
        c.wf(),
        c.disputes().contains_key(dispute_id),
    ensures
        c.disputes()[dispute_id].status == DisputeStatus::Voting ==> c.disputes()[dispute_id].result is None,
        c.disputes()[dispute_id].status == DisputeStatus::Resolved ==> c.disputes()[dispute_id].result is Some,
        c.disputes()[dispute_id].status == DisputeStatus::Voting || c.disputes()[dispute_id].status
            == DisputeStatus::Resolved,
{
}

/// A resolved dispute accepts neither a second resolution nor any vote: both
/// are refused as closed.
pub proof fn lemma_resolved_is_final(
    c: DisputeContract,
    dispute_id: Seq<char>,
    voter: Seq<char>,
    now: u64,
)
    requires
        c.disputes().contains_key(dispute_id),
        c.disputes()[dispute_id].status == DisputeStatus::Resolved,
    ensures
        c.resolve_error(dispute_id, now) == Some(Error::DisputeClosed),
        c.vote_error(dispute_id, voter, now) == Some(Error::DisputeClosed),
{
}

/// The voting window of a dispute that is open for voting: a vote at or before
/// its end passes the time check, one after it is refused as late; a resolution at
/// or before its end is refused as early, and one after it succeeds.
pub proof fn lemma_voting_window(
    c: DisputeContract,
    dispute_id: Seq<char>,
    voter: Seq<char>,
    now: u64,
)
    requires
        c.disputes().contains_key(dispute_id),
        c.disputes()[dispute_id].status == DisputeStatus::Voting,
    ensures
        now <= c.disputes()[dispute_id].voting_ends_at && !c.voted(dispute_id, voter) ==> c.vote_error(
            dispute_id,
            voter,
            now,
        ) is None,
        now > c.disputes()[dispute_id].voting_ends_at ==> c.vote_error(dispute_id, voter, now)
            == Some(Error::VotingPeriodEnded),
        now <= c.disputes()[dispute_id].voting_ends_at ==> c.resolve_error(dispute_id, now)
            == Some(Error::VotingPeriodActive),
        now > c.disputes()[dispute_id].voting_ends_at ==> c.resolve_error(dispute_id, now) is None,
{
}

} // verus!
