use vstd::prelude::*;

use crate::error::LedgerError;
use crate::error::VotingError;
use crate::identity::Identity;
use crate::ledger::LedgerView;
use crate::ledger::count_for;
use crate::ledger::has_voter;
use crate::ledger::vote_check;
use crate::ledger::voter_matches;
use crate::poll::PollView;
use crate::poll::cast_apply;
use crate::poll::cast_check;
use crate::poll::sum;

verus! {

/// One attempted vote, as the model sees it: the substrate time at which it
/// arrived and the candidate index it chose.
pub ghost struct Cast {
    pub now: int,
    pub idx: int,
}

/// The poll state after a sequence of votes, each applied in order.
pub open spec fn apply_casts(p: PollView, casts: Seq<Cast>) -> PollView
    decreases casts.len(),
{
    if casts.len() == 0 {
        p
    } else {
        cast_apply(apply_casts(p, casts.drop_last()), casts.last().idx)
    }
}

/// Whether every vote in the sequence is accepted by the state it meets.
pub open spec fn casts_ok(p: PollView, casts: Seq<Cast>) -> bool
    decreases casts.len(),
{
    casts.len() == 0 || {
        &&& casts_ok(p, casts.drop_last())
        &&& cast_check(apply_casts(p, casts.drop_last()), casts.last().now, casts.last().idx) is Ok
    }
}

/// How many votes in the sequence chose candidate `idx`.
pub open spec fn count_choice(casts: Seq<Cast>, idx: int) -> int
    decreases casts.len(),
{
    if casts.len() == 0 {
        0
    } else {
        count_choice(casts.drop_last(), idx) + if casts.last().idx == idx {
            1int
        } else {
            0int
        }
    }
}

/// Tally conservation: after any sequence of accepted votes against one
/// poll, the tally total has risen by exactly the number of votes, and each
/// candidate's tally by exactly the number of votes that chose it. No vote
/// is lost and none is counted twice.
pub proof fn lemma_tally_conservation(p: PollView, casts: Seq<Cast>)
    requires
        p.wf(),
        casts_ok(p, casts),
    ensures
        apply_casts(p, casts).wf(),
        sum(apply_casts(p, casts).votes) == sum(p.votes) + casts.len(),
        forall|i: int|
            0 <= i < p.candidates.len() ==> apply_casts(p, casts).votes[i] == p.votes[i]
                + count_choice(casts, i),
    decreases casts.len(),
{
    if casts.len() > 0 {
        lemma_tally_conservation(p, casts.drop_last());
        lemma_config_immutable(p, casts.drop_last());
        let q = apply_casts(p, casts.drop_last());
        let c = casts.last();
        crate::poll::lemma_sum_update_inc(q.votes, c.idx);
        assert forall|i: int|
            0 <= i < p.candidates.len() implies apply_casts(p, casts).votes[i] == p.votes[i]
            + count_choice(casts, i) by {
            assert(q.votes[i] == p.votes[i] + count_choice(casts.drop_last(), i));
            if i != c.idx {
                assert(apply_casts(p, casts).votes[i] == q.votes[i]);
            }
        }
    }
}

/// Configuration immutability: no number of accepted votes moves the
/// authority, the title, the candidate list or the schedule; only the
/// tallies change.
pub proof fn lemma_config_immutable(p: PollView, casts: Seq<Cast>)
    requires
        p.wf(),
        casts_ok(p, casts),
    ensures
        apply_casts(p, casts).same_config(p),
    decreases casts.len(),
{
    if casts.len() > 0 {
        lemma_config_immutable(p, casts.drop_last());
    }
}

/// Uniqueness: a well-formed ledger never holds two voter records with the
/// same `(poll, wallet)` key, so at most one accepted vote exists per wallet
/// per poll.
pub proof fn lemma_voter_unique(l: LedgerView, i: int, j: int)
    requires
        l.wf(),
        0 <= i < l.voters.len(),
        0 <= j < l.voters.len(),
        i != j,
    ensures
        !(l.voters[i].poll == l.voters[j].poll && l.voters[i].wallet == l.voters[j].wallet),
{
    if i < j {
        assert(!voter_matches(l.voters[j], l.voters[i].poll as int, l.voters[i].wallet));
    } else {
        assert(!voter_matches(l.voters[i], l.voters[j].poll as int, l.voters[j].wallet));
    }
}

/// Uniqueness, second half: once a wallet's voter record exists on a poll,
/// any further vote by that wallet on that poll is refused, whatever the
/// time or the index.
pub proof fn lemma_duplicate_vote_rejected(
    l: LedgerView,
    poll_id: int,
    wallet: Identity,
    idx: int,
    now: int,
)
    requires
        0 <= poll_id < l.polls.len(),
        has_voter(l.voters, poll_id, wallet),
    ensures
        vote_check(l, poll_id, wallet, idx, now) is Err,
{
}

/// Window enforcement: before the window a vote fails as too early, after
/// it as closed, and inside it a vote with a valid index, a fresh wallet and
/// room in the tally counter is accepted.
pub proof fn lemma_window_enforcement(
    l: LedgerView,
    poll_id: int,
    wallet: Identity,
    idx: int,
    now: int,
)
    requires
        0 <= poll_id < l.polls.len(),
    ensures
        now < l.polls[poll_id].start_ts ==> vote_check(l, poll_id, wallet, idx, now) == Err::<
            (),
            LedgerError,
        >(LedgerError::Program(VotingError::TooEarly)),
        now > l.polls[poll_id].end_ts && now >= l.polls[poll_id].start_ts ==> vote_check(
            l,
            poll_id,
            wallet,
            idx,
            now,
        ) == Err::<(), LedgerError>(LedgerError::Program(VotingError::Closed)),
        (l.polls[poll_id].start_ts <= now <= l.polls[poll_id].end_ts && 0 <= idx
            < l.polls[poll_id].candidates.len() && !has_voter(l.voters, poll_id, wallet)
            && l.polls[poll_id].votes[idx] < u64::MAX) ==> vote_check(l, poll_id, wallet, idx, now)
            is Ok,
{
}

/// Tally conservation at the ledger: in every reachable state each poll's
/// tally total equals the number of voter records allocated against it.
pub proof fn lemma_tally_matches_records(l: LedgerView, poll_id: int)
    requires
        l.wf(),
        0 <= poll_id < l.polls.len(),
    ensures
        sum(l.polls[poll_id].votes) == count_for(l.voters, poll_id),
{
}

} // verus!
