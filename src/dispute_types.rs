//! Records and errors of the dispute engine.

use vstd::prelude::*;

verus! {

/// Where a dispute stands. Only Voting and Resolved are used; Open and
/// Cancelled are reserved.
#[derive(Clone, Copy, Debug, PartialEq, Eq, Structural)]
pub enum DisputeStatus {
    Open,
    Voting,
    Resolved,
    Cancelled,
}

/// The binding outcome of a resolved dispute.
#[derive(Clone, Copy, Debug, PartialEq, Eq, Structural)]
pub enum DisputeResult {
    /// More votes for the dispute than against: the raiser wins.
    UpheldForRaiser,
    /// More votes against: the split stands as created.
    DismissedForRaiser,
    /// As many votes each way, none included: the split stands as created.
    Tied,
}

/// Errors of the dispute engine.
#[derive(Clone, Copy, Debug, PartialEq, Eq, Structural)]
pub enum Error {
    NotFound,
    AlreadyExists,
    NotAuthorized,
    AlreadyVoted,
    DisputeClosed,
    VotingPeriodActive,
    VotingPeriodEnded,
    InvalidReason,
    SplitNotFound,
}

/// One dispute raised against a split.
#[derive(Clone, Debug)]
pub struct Dispute {
    pub dispute_id: String,
    pub split_id: String,
    pub raiser: String,
    pub reason: String,
    pub status: DisputeStatus,
    /// Votes supporting the dispute.
    pub votes_for: u32,
    /// Votes dismissing the dispute.
    pub votes_against: u32,
    /// Everyone who has voted, in order; kept for audit.
    pub voters: Vec<String>,
    pub created_at: u64,
    pub voting_ends_at: u64,
    pub result: Option<DisputeResult>,
}

/// The key under which a dispute is stored: its identifier.
pub open spec fn dispute_key() -> spec_fn(Dispute) -> Seq<char> {
    |d: Dispute| d.dispute_id@
}

} // verus!
