//! The dispute engine's state: disputes keyed by identifier, the index of all
//! dispute identifiers in order of creation, and one marker per voter and dispute.

use vstd::prelude::*;
use crate::dispute_types::{dispute_key, Dispute, Error};
use crate::keyed::{
    lemma_table_get, lemma_table_has, lemma_table_push, lemma_table_update, table_map,
    unique_keys,
};

verus! {

/// The state that the dispute engine keeps.
pub struct DisputeStore {
    disputes: Vec<Dispute>,
    list: Vec<String>,
    votes: Vec<(String, String)>,
}

impl DisputeStore {
    /// The disputes, by identifier.
    pub closed spec fn records(&self) -> Map<Seq<char>, Dispute> {
        table_map(self.disputes@, dispute_key())
    }

    /// The identifiers of all disputes, in the order they were raised.
    pub closed spec fn list(&self) -> Seq<String> {
        self.list@
    }

    /// Whether `voter` has a vote recorded on the dispute `dispute_id`.
    pub closed spec fn voted(&self, dispute_id: Seq<char>, voter: Seq<char>) -> bool {
        exists|j: int|
            0 <= j < self.votes@.len() && (#[trigger] self.votes@[j]).0@ == dispute_id
                && self.votes@[j].1@ == voter
    }

    /// Each identifier is stored once.
    pub closed spec fn wf(&self) -> bool {
        unique_keys(self.disputes@, dispute_key())
    }

    /// A store with no disputes, an empty index and no votes.
    pub fn new() -> (r: Self)
        ensures
            r.wf(),
            r.records() == Map::<Seq<char>, Dispute>::empty(),
            r.list() == Seq::<String>::empty(),
            forall|d: Seq<char>, v: Seq<char>| !r.voted(d, v),
    {
        DisputeStore { disputes: Vec::new(), list: Vec::new(), votes: Vec::new() }
    }

    fn find(&self, dispute_id: &String) -> (r: Option<usize>)
        ensures
            r matches Some(i) ==> i < self.disputes@.len() && self.disputes@[i as int].dispute_id@
                == dispute_id@,
            r is None ==> forall|j: int|
                0 <= j < self.disputes@.len() ==> self.disputes@[j].dispute_id@ != dispute_id@,
    {
        let mut i: usize = 0;
        while i < self.disputes.len()
            invariant
                i <= self.disputes@.len(),
                forall|j: int| 0 <= j < i ==> self.disputes@[j].dispute_id@ != dispute_id@,
            decreases self.disputes@.len() - i,
        {
            if self.disputes[i].dispute_id == *dispute_id {
                return Some(i);
            }
            i = i + 1;
        }
        None
    }
}

/// Store a dispute under its identifier, replacing any dispute stored there.
pub fn save_dispute(store: &mut DisputeStore, dispute: Dispute)
    requires
        old(store).wf(),
    ensures
        final(store).wf(),
        final(store).records() == old(store).records().insert(dispute.dispute_id@, dispute),
        final(store).list() == old(store).list(),
        forall|d: Seq<char>, v: Seq<char>| final(store).voted(d, v) == old(store).voted(d, v),
{
    let ghost key = dispute.dispute_id@;
    match store.find(&dispute.dispute_id) {
        Some(i) => {
            proof {
                lemma_table_update(store.disputes@, dispute_key(), i as int, dispute);
            }
            store.disputes.set(i, dispute);
        },
        None => {
            proof {
                lemma_table_has(store.disputes@, dispute_key(), key);
                lemma_table_push(store.disputes@, dispute_key(), dispute);
            }
            store.disputes.push(dispute);
        },
    }
    proof {
        assert(store.votes@ == old(store).votes@);
        assert forall|d: Seq<char>, v: Seq<char>| store.voted(d, v) == old(store).voted(d, v) by {}
    }
}

/// The dispute stored under `dispute_id`.
pub fn get_dispute<'a>(store: &'a DisputeStore, dispute_id: &String) -> (r: Result<&'a Dispute, Error>)
    requires
        store.wf(),
    ensures
        r is Ok <==> store.records().contains_key(dispute_id@),
        r matches Ok(d) ==> *d == store.records()[dispute_id@] && d.dispute_id@ == dispute_id@,
        r is Err ==> r == Err::<&Dispute, Error>(Error::NotFound),
{
    match store.find(dispute_id) {
        Some(i) => {
            proof {
                lemma_table_get(store.disputes@, dispute_key(), i as int);
            }
            Ok(&store.disputes[i])
        },
        None => {
            proof {
                lemma_table_has(store.disputes@, dispute_key(), dispute_id@);
            }
            Err(Error::NotFound)
        },
    }
}

/// Whether a dispute is stored under `dispute_id`.
pub fn has_dispute(store: &DisputeStore, dispute_id: &String) -> (r: bool)
    ensures
        r == store.records().contains_key(dispute_id@),
{
    proof {
        lemma_table_has(store.disputes@, dispute_key(), dispute_id@);
    }
    store.find(dispute_id).is_some()
}

/// Append an identifier to the index of all disputes.
pub fn add_to_list(store: &mut DisputeStore, dispute_id: String)
    requires
        old(store).wf(),
    ensures
        final(store).wf(),
        final(store).records() == old(store).records(),
        final(store).list() == old(store).list().push(dispute_id),
        forall|d: Seq<char>, v: Seq<char>| final(store).voted(d, v) == old(store).voted(d, v),
{
    store.list.push(dispute_id);
    proof {
        assert(store.votes@ == old(store).votes@);
        assert forall|d: Seq<char>, v: Seq<char>| store.voted(d, v) == old(store).voted(d, v) by {}
    }
}

/// The identifiers of all disputes, in the order they were raised.
pub fn get_list(store: &DisputeStore) -> (r: Vec<String>)
    ensures
        r@ == store.list(),
{
    let mut out: Vec<String> = Vec::new();
    let mut i: usize = 0;
    while i < store.list.len()
        invariant
            i <= store.list@.len(),
            out@ == store.list@.subrange(0, i as int),
        decreases store.list@.len() - i,
    {
        out.push(store.list[i].clone());
        proof {
            assert(out@ =~= store.list@.subrange(0, i + 1));
        }
        i = i + 1;
    }
    proof {
        assert(store.list@.subrange(0, store.list@.len() as int) =~= store.list@);
    }
    out
}

/// Whether `voter` has already voted on the dispute `dispute_id`.
pub fn has_voted(store: &DisputeStore, dispute_id: &String, voter: &String) -> (r: bool)
    ensures
        r == store.voted(dispute_id@, voter@),
{
    let mut i: usize = 0;
    while i < store.votes.len()
        invariant
            i <= store.votes@.len(),
            forall|j: int|
                0 <= j < i ==> !((#[trigger] store.votes@[j]).0@ == dispute_id@ && store.votes@[j].1@
                    == voter@),
        decreases store.votes@.len() - i,
    {
        if store.votes[i].0 == *dispute_id && store.votes[i].1 == *voter {
            return true;
        }
        i = i + 1;
    }
    false
}

/// Mark `voter` as having voted on the dispute `dispute_id`.
pub fn record_vote(store: &mut DisputeStore, dispute_id: &String, voter: &String)
    requires
        old(store).wf(),
    ensures
        final(store).wf(),
        final(store).records() == old(store).records(),
        final(store).list() == old(store).list(),
        forall|d: Seq<char>, v: Seq<char>|
            final(store).voted(d, v) == (old(store).voted(d, v) || (d == dispute_id@ && v
                == voter@)),
{
    store.votes.push((dispute_id.clone(), voter.clone()));
    proof {
        assert forall|d: Seq<char>, v: Seq<char>|
            store.voted(d, v) == (old(store).voted(d, v) || (d == dispute_id@ && v
                == voter@)) by {
            if old(store).voted(d, v) {
                let j = choose|j: int|
                    0 <= j < old(store).votes@.len() && (#[trigger] old(store).votes@[j]).0@ == d
                        && old(store).votes@[j].1@ == v;
                assert(store.votes@[j] == old(store).votes@[j]);
            }
            if d == dispute_id@ && v == voter@ {
                assert(store.votes@[old(store).votes@.len() as int].0@ == d);
            }
        }
    }
}

} // verus!
