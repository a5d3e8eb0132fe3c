use vstd::prelude::*;

use crate::error::LedgerError;
use crate::error::VotingError;
use crate::identity::Identity;
use crate::poll::Poll;
use crate::poll::PollView;
use crate::poll::cast_apply;
use crate::poll::config_check;
use crate::poll::initial_poll;
use crate::poll::sum;
use crate::poll::lemma_sum_update_inc;
use crate::poll::lemma_sum_zero;

verus! {

/// Proof-of-participation record for one (poll, voter) pair.
///
/// Its mere existence is the double-vote guard: the ledger never stores two
/// of these with the same `(poll, wallet)` key. `has_voted` is informational
/// and always true once the record exists.
#[derive(Clone, Copy, PartialEq, Eq, Structural, Debug)]
pub struct Voter {
    pub poll: usize,
    pub wallet: Identity,
    pub has_voted: bool,
}

/// The record store: every poll, addressed by its index, and every voter
/// record ever allocated.
///
/// The ledger plays the part of the hosting substrate's account storage: a
/// record is allocated at the address derived from its key —
/// `(authority, title)` for a poll, `(poll, wallet)` for a voter record —
/// and allocation fails if a record already exists there. That
/// insert-if-absent discipline, not a runtime lookup by the poll logic, is
/// what makes a second vote by the same wallet structurally impossible.
pub struct Ledger {
    pub polls: Vec<Poll>,
    pub voters: Vec<Voter>,
}

/// The mathematical value of a [`Ledger`].
#[verifier::ext_equal]
pub ghost struct LedgerView {
    pub polls: Seq<PollView>,
    pub voters: Seq<Voter>,
}

impl View for Ledger {
    type V = LedgerView;

    open spec fn view(&self) -> LedgerView {
        LedgerView { polls: self.polls.deep_view(), voters: self.voters@ }
    }
}

/// Whether a poll record carries the given derivation key.
pub open spec fn key_matches(p: PollView, authority: Identity, title: Seq<char>) -> bool {
    p.authority == authority && p.title == title
}

/// Whether some poll with the given key already exists.
pub open spec fn has_poll_key(polls: Seq<PollView>, authority: Identity, title: Seq<char>) -> bool {
    exists|j: int| 0 <= j < polls.len() && key_matches(#[trigger] polls[j], authority, title)
}

/// Whether a voter record carries the given derivation key.
pub open spec fn voter_matches(v: Voter, poll: int, wallet: Identity) -> bool {
    v.poll as int == poll && v.wallet == wallet
}

/// Whether the given wallet has already voted on the given poll.
pub open spec fn has_voter(voters: Seq<Voter>, poll: int, wallet: Identity) -> bool {
    exists|j: int| 0 <= j < voters.len() && voter_matches(#[trigger] voters[j], poll, wallet)
}

/// How many voter records belong to the given poll.
pub open spec fn count_for(voters: Seq<Voter>, poll: int) -> int
    decreases voters.len(),
{
    if voters.len() == 0 {
        0
    } else {
        count_for(voters.drop_last(), poll) + if voters.last().poll as int == poll {
            1int
        } else {
            0int
        }
    }
}

proof fn lemma_count_for_push(voters: Seq<Voter>, v: Voter, poll: int)
    ensures
        count_for(voters.push(v), poll) == count_for(voters, poll) + if v.poll as int == poll {
            1int
        } else {
            0int
        },
{
    assert(voters.push(v).drop_last() =~= voters);
}

proof fn lemma_count_for_none(voters: Seq<Voter>, poll: int)
    requires
        forall|i: int| 0 <= i < voters.len() ==> (#[trigger] voters[i]).poll as int != poll,
    ensures
        count_for(voters, poll) == 0,
    decreases voters.len(),
{
    if voters.len() > 0 {
        lemma_count_for_none(voters.drop_last(), poll);
    }
}

impl LedgerView {
    /// The invariant every reachable ledger satisfies: all polls are
    /// well-formed, record keys are unique, every voter record points at an
    /// existing poll, and each poll's tally total equals the number of voter
    /// records it owns — no vote is ever lost or double-counted.
    pub open spec fn wf(self) -> bool {
        &&& forall|i: int| 0 <= i < self.polls.len() ==> (#[trigger] self.polls[i]).wf()
        &&& forall|i: int, j: int|
            0 <= i < j < self.polls.len() ==> !key_matches(
                #[trigger] self.polls[j],
                (#[trigger] self.polls[i]).authority,
                self.polls[i].title,
            )
        &&& forall|i: int, j: int|
            0 <= i < j < self.voters.len() ==> !voter_matches(
                #[trigger] self.voters[j],
                (#[trigger] self.voters[i]).poll as int,
                self.voters[i].wallet,
            )
        &&& forall|i: int|
            0 <= i < self.voters.len() ==> (#[trigger] self.voters[i]).poll < self.polls.len()
                && self.voters[i].has_voted
        &&& forall|p: int|
            0 <= p < self.polls.len() ==> sum((#[trigger] self.polls[p]).votes) == count_for(
                self.voters,
                p,
            )
    }
}

/// What creating a poll reports: the first failed configuration check, then
/// — only for a valid configuration — whether the derived address is free.
pub open spec fn init_check(
    l: LedgerView,
    authority: Identity,
    title: Seq<char>,
    candidates: Seq<Seq<char>>,
    start_ts: int,
    end_ts: int,
) -> Result<(), LedgerError> {
    match config_check(title, candidates, start_ts, end_ts) {
        Err(e) => Err(LedgerError::Program(e)),
        Ok(()) => if has_poll_key(l.polls, authority, title) {
            Err(LedgerError::AddressInUse)
        } else {
            Ok(())
        },
    }
}

/// What casting a vote reports, in the order the checks are made: the
/// voting window, the candidate index, the voter record's derived address,
/// and room in the tally counter.
pub open spec fn vote_check(
    l: LedgerView,
    poll_id: int,
    wallet: Identity,
    idx: int,
    now: int,
) -> Result<(), LedgerError>
    recommends
        0 <= poll_id < l.polls.len(),
{
    let p = l.polls[poll_id];
    if now < p.start_ts {
        Err(LedgerError::Program(VotingError::TooEarly))
    } else if now > p.end_ts {
        Err(LedgerError::Program(VotingError::Closed))
    } else if idx >= p.candidates.len() {
        Err(LedgerError::Program(VotingError::BadCandidate))
    } else if has_voter(l.voters, poll_id, wallet) {
        Err(LedgerError::AddressInUse)
    } else if p.votes[idx] == u64::MAX {
        Err(LedgerError::Program(VotingError::Overflow))
    } else {
        Ok(())
    }
}

impl Ledger {
    /// An empty ledger: no polls, no voter records.
    pub fn new() -> (l: Ledger)
        ensures
            l@.wf(),
            l@.polls.len() == 0,
            l@.voters.len() == 0,
    {
        let l = Ledger { polls: Vec::new(), voters: Vec::new() };
        proof {
            assert(l@.polls =~= Seq::<PollView>::empty());
        }
        l
    }

    /// Creates a new poll: validates the configuration, then allocates the
    /// record at the address derived from `(authority, title)` — failing if
    /// a poll with that key already exists — and returns the new poll's id.
    /// On any failure the ledger is unchanged.
    #[verifier::loop_isolation(false)]
    pub fn init_poll(
        &mut self,
        authority: Identity,
        title: String,
        candidates: Vec<String>,
        start_ts: i64,
        end_ts: i64,
    ) -> (r: Result<usize, LedgerError>)
        requires
            old(self)@.wf(),
        ensures
            final(self)@.wf(),
            match r {
                Ok(id) => {
                    &&& init_check(
                        old(self)@,
                        authority,
                        title@,
                        candidates.deep_view(),
                        start_ts as int,
                        end_ts as int,
                    ) is Ok
                    &&& id == old(self)@.polls.len()
                    &&& final(self)@.polls == old(self)@.polls.push(
                        initial_poll(
                            authority,
                            title@,
                            candidates.deep_view(),
                            start_ts as int,
                            end_ts as int,
                        ),
                    )
                    &&& final(self)@.voters == old(self)@.voters
                },
                Err(e) => {
                    &&& final(self)@ == old(self)@
                    &&& init_check(
                        old(self)@,
                        authority,
                        title@,
                        candidates.deep_view(),
                        start_ts as int,
                        end_ts as int,
                    ) == Err::<(), LedgerError>(e)
                },
            },
    {
        let ghost pre = self@;
        match Poll::new(authority, title, candidates, start_ts, end_ts) {
            Err(e) => Err(LedgerError::Program(e)),
            Ok(p) => {
                let ghost pv = p@;
                let n = self.polls.len();
                let mut i: usize = 0;
                while i < n
                    invariant
                        i <= n,
                        forall|j: int|
                            0 <= j < i ==> !key_matches(
                                #[trigger] pre.polls[j],
                                pv.authority,
                                pv.title,
                            ),
                    decreases n - i,
                {
                    let q = &self.polls[i];
                    proof {
                        assert(q.deep_view() == pre.polls[i as int]);
                    }
                    if q.authority == p.authority && q.title == p.title {
                        proof {
                            assert(key_matches(pre.polls[i as int], authority, title@));
                            assert(has_poll_key(pre.polls, authority, title@));
                        }
                        return Err(LedgerError::AddressInUse);
                    }
                    i = i + 1;
                }
                let id = self.polls.len();
                self.polls.push(p);
                proof {
                    assert(self@.polls =~= pre.polls.push(pv));
                    assert(self@.voters == pre.voters);
                    lemma_sum_zero(pv.candidates.len());
                    assert forall|q: int| 0 <= q < self@.polls.len() implies sum(
                        (#[trigger] self@.polls[q]).votes,
                    ) == count_for(self@.voters, q) by {
                        if q == id {
                            assert forall|k: int| 0 <= k < self@.voters.len() implies (
                            #[trigger] self@.voters[k]).poll as int != q by {
                                assert(pre.voters[k].poll < pre.polls.len());
                            }
                            lemma_count_for_none(self@.voters, q);
                        } else {
                            assert(pre.polls[q].wf());
                        }
                    }
                    assert(self@.wf());
                }
                Ok(id)
            },
        }
    }

    /// Casts one vote by `wallet` on poll `poll_id`: checks the window and
    /// the candidate index, allocates the voter record at the address
    /// derived from `(poll_id, wallet)` — failing if that wallet already
    /// voted here — and raises the chosen tally by one. The record
    /// allocation and the increment happen together or not at all: on any
    /// failure the ledger is unchanged.
    #[verifier::loop_isolation(false)]
    pub fn vote(
        &mut self,
        poll_id: usize,
        wallet: Identity,
        candidate_idx: u8,
        now: i64,
    ) -> (r: Result<(), LedgerError>)
        requires
            old(self)@.wf(),
            poll_id < old(self)@.polls.len(),
        ensures
            final(self)@.wf(),
            r == vote_check(old(self)@, poll_id as int, wallet, candidate_idx as int, now as int),
            match r {
                Ok(()) => {
                    &&& final(self)@.polls == old(self)@.polls.update(
                        poll_id as int,
                        cast_apply(old(self)@.polls[poll_id as int], candidate_idx as int),
                    )
                    &&& final(self)@.voters == old(self)@.voters.push(
                        (Voter { poll: poll_id, wallet, has_voted: true }),
                    )
                },
                Err(_) => final(self)@ == old(self)@,
            },
    {
        let ghost pre = self@;
        let record = &self.polls[poll_id];
        if now < record.start_ts {
            return Err(LedgerError::Program(VotingError::TooEarly));
        }
        if now > record.end_ts {
            return Err(LedgerError::Program(VotingError::Closed));
        }
        if candidate_idx as usize >= record.candidates.len() {
            return Err(LedgerError::Program(VotingError::BadCandidate));
        }
        let n = self.voters.len();
        let mut i: usize = 0;
        while i < n
            invariant
                i <= n,
                forall|j: int|
                    0 <= j < i ==> !voter_matches(
                        #[trigger] pre.voters[j],
                        poll_id as int,
                        wallet,
                    ),
            decreases n - i,
        {
            let v = self.voters[i];
            if v.poll == poll_id && v.wallet == wallet {
                proof {
                    assert(voter_matches(pre.voters[i as int], poll_id as int, wallet));
                    assert(has_voter(pre.voters, poll_id as int, wallet));
                }
                return Err(LedgerError::AddressInUse);
            }
            i = i + 1;
        }
        let p = &mut self.polls[poll_id];
        proof {
            assert(p.deep_view() == pre.polls[poll_id as int]);
        }
        match p.cast(now, candidate_idx) {
            Err(e) => {
                proof {
                    assert(e == VotingError::Overflow);
                    assert(self@.polls =~= pre.polls);
                }
                Err(LedgerError::Program(e))
            },
            Ok(()) => {
                self.voters.push(Voter { poll: poll_id, wallet, has_voted: true });
                proof {
                    let post = self@;
                    let newv = Voter { poll: poll_id, wallet, has_voted: true };
                    assert(post.polls =~= pre.polls.update(
                        poll_id as int,
                        cast_apply(pre.polls[poll_id as int], candidate_idx as int),
                    ));
                    assert(post.voters == pre.voters.push(newv));
                    assert forall|q: int| 0 <= q < post.polls.len() implies sum(
                        (#[trigger] post.polls[q]).votes,
                    ) == count_for(post.voters, q) by {
                        lemma_count_for_push(pre.voters, newv, q);
                        if q == poll_id as int {
                            lemma_sum_update_inc(
                                pre.polls[q].votes,
                                candidate_idx as int,
                            );
                        }
                    }
                    assert(post.wf());
                }
                Ok(())
            },
        }
    }

    /// How many polls exist.
    pub fn poll_count(&self) -> (n: usize)
        ensures
            n == self@.polls.len(),
    {
        self.polls.len()
    }

    /// How many voter records exist, over all polls.
    pub fn voter_count(&self) -> (n: usize)
        ensures
            n == self@.voters.len(),
    {
        self.voters.len()
    }

    /// Reads a poll record back — the only query the system defines.
    pub fn poll(&self, id: usize) -> (p: &Poll)
        requires
            id < self@.polls.len(),
        ensures
            p@ == self@.polls[id as int],
    {
        &self.polls[id]
    }
}

} // verus!
