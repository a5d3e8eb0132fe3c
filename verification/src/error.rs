use vstd::prelude::*;

verus! {

/// The error kinds a poll operation can report.
///
/// The first six arise from a malformed configuration at creation, the next
/// two from casting outside the voting window, `BadCandidate` from an
/// out-of-range candidate index, and `Overflow` from a tally counter that
/// would wrap.
#[derive(Clone, Copy, PartialEq, Eq, Structural, Debug)]
pub enum VotingError {
    NotEnoughCandidates,
    TooManyCandidates,
    TitleTooLong,
    BadSchedule,
    TooEarly,
    Closed,
    BadCandidate,
    CandidateNameTooLong,
    EmptyCandidateName,
    Overflow,
}

/// What a ledger operation reports on failure: either the operation's own
/// validation failed (the inner [`VotingError`] is passed through unchanged),
/// or allocating a record at its derived address failed because a record
/// already exists there — the structural uniqueness guard.
#[derive(Clone, Copy, PartialEq, Eq, Structural, Debug)]
pub enum LedgerError {
    Program(VotingError),
    AddressInUse,
}

} // verus!
