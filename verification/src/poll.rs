use vstd::prelude::*;

use crate::error::VotingError;
use crate::identity::Identity;

verus! {

/// Fewest candidates a poll may offer.
pub const MIN_CANDIDATES: usize = 2;
/// Most candidates a poll may offer.
pub const MAX_CANDIDATES: usize = 8;
/// Longest permitted title, in characters.
pub const MAX_TITLE_LEN: usize = 64;
/// Longest permitted candidate name, in characters.
pub const MAX_NAME_LEN: usize = 32;

/// Durable state for one election: configuration plus live tallies.
///
/// `votes[i]` tallies `candidates[i]`. Everything but `votes` is fixed at
/// creation; `cast` is the only mutation.
pub struct Poll {
    pub authority: Identity,
    pub title: String,
    pub candidates: Vec<String>,
    pub votes: Vec<u64>,
    pub start_ts: i64,
    pub end_ts: i64,
}

/// The mathematical value of a [`Poll`].
#[verifier::ext_equal]
pub ghost struct PollView {
    pub authority: Identity,
    pub title: Seq<char>,
    pub candidates: Seq<Seq<char>>,
    pub votes: Seq<u64>,
    pub start_ts: int,
    pub end_ts: int,
}

impl View for Poll {
    type V = PollView;

    open spec fn view(&self) -> PollView {
        PollView {
            authority: self.authority,
            title: self.title@,
            candidates: self.candidates.deep_view(),
            votes: self.votes@,
            start_ts: self.start_ts as int,
            end_ts: self.end_ts as int,
        }
    }
}

impl DeepView for Poll {
    type V = PollView;

    open spec fn deep_view(&self) -> PollView {
        self.view()
    }
}

/// A candidate name must be non-empty and short enough to store.
pub open spec fn valid_name(name: Seq<char>) -> bool {
    0 < name.len() <= MAX_NAME_LEN
}

/// A well-formed poll configuration, stated directly.
pub open spec fn valid_config(
    title: Seq<char>,
    candidates: Seq<Seq<char>>,
    start_ts: int,
    end_ts: int,
) -> bool {
    &&& MIN_CANDIDATES <= candidates.len() <= MAX_CANDIDATES
    &&& title.len() <= MAX_TITLE_LEN
    &&& start_ts < end_ts
    &&& forall|i: int| 0 <= i < candidates.len() ==> valid_name(#[trigger] candidates[i])
}

/// Walks the candidate list in order and reports the first bad name.
pub open spec fn names_check(names: Seq<Seq<char>>) -> Result<(), VotingError>
    decreases names.len(),
{
    if names.len() == 0 {
        Ok(())
    } else if names[0].len() == 0 {
        Err(VotingError::EmptyCandidateName)
    } else if names[0].len() > MAX_NAME_LEN {
        Err(VotingError::CandidateNameTooLong)
    } else {
        names_check(names.drop_first())
    }
}

/// The configuration checks in the order they are made; the first failure
/// names the error that surfaces.
pub open spec fn config_check(
    title: Seq<char>,
    candidates: Seq<Seq<char>>,
    start_ts: int,
    end_ts: int,
) -> Result<(), VotingError> {
    if candidates.len() < MIN_CANDIDATES {
        Err(VotingError::NotEnoughCandidates)
    } else if candidates.len() > MAX_CANDIDATES {
        Err(VotingError::TooManyCandidates)
    } else if title.len() > MAX_TITLE_LEN {
        Err(VotingError::TitleTooLong)
    } else if start_ts >= end_ts {
        Err(VotingError::BadSchedule)
    } else {
        names_check(candidates)
    }
}

proof fn lemma_names_check_ok(names: Seq<Seq<char>>)
    ensures
        names_check(names) is Ok <==> (forall|i: int|
            0 <= i < names.len() ==> valid_name(#[trigger] names[i])),
    decreases names.len(),
{
    if names.len() > 0 && valid_name(names[0]) {
        lemma_names_check_ok(names.drop_first());
        assert(forall|i: int|
            0 <= i < names.drop_first().len() ==> names.drop_first()[i] == names[i + 1]);
        if names_check(names) is Ok {
            assert forall|i: int| 0 <= i < names.len() implies valid_name(#[trigger] names[i]) by {
                if i > 0 {
                    assert(valid_name(names.drop_first()[i - 1]));
                }
            }
        }
    }
}

/// The ordered check accepts a configuration exactly when it is valid.
pub proof fn lemma_config_check_iff(
    title: Seq<char>,
    candidates: Seq<Seq<char>>,
    start_ts: int,
    end_ts: int,
)
    ensures
        config_check(title, candidates, start_ts, end_ts) is Ok <==> valid_config(
            title,
            candidates,
            start_ts,
            end_ts,
        ),
{
    lemma_names_check_ok(candidates);
}

/// The state a freshly created poll is in: the configuration exactly as
/// given, and a zero tally for every candidate.
pub open spec fn initial_poll(
    authority: Identity,
    title: Seq<char>,
    candidates: Seq<Seq<char>>,
    start_ts: int,
    end_ts: int,
) -> PollView {
    PollView {
        authority,
        title,
        candidates,
        votes: Seq::new(candidates.len(), |i: int| 0u64),
        start_ts,
        end_ts,
    }
}

impl PollView {
    /// Well-formedness: tallies aligned with candidates, configuration valid.
    pub open spec fn wf(self) -> bool {
        &&& self.votes.len() == self.candidates.len()
        &&& valid_config(self.title, self.candidates, self.start_ts, self.end_ts)
    }

    /// The configuration part of the record — everything `cast` must leave
    /// untouched.
    pub open spec fn same_config(self, other: PollView) -> bool {
        &&& self.authority == other.authority
        &&& self.title == other.title
        &&& self.candidates == other.candidates
        &&& self.start_ts == other.start_ts
        &&& self.end_ts == other.end_ts
    }
}

/// A poll's phase is never stored; it is derived from the current time on
/// every access.
pub ghost enum Phase {
    NotStarted,
    Open,
    Closed,
}

/// Where the voting window stands at time `now` (the window is inclusive on
/// both ends).
pub open spec fn phase(p: PollView, now: int) -> Phase {
    if now < p.start_ts {
        Phase::NotStarted
    } else if now > p.end_ts {
        Phase::Closed
    } else {
        Phase::Open
    }
}

/// The checks a vote must pass, in order: the window, the candidate index,
/// and room in the tally counter.
pub open spec fn cast_check(p: PollView, now: int, idx: int) -> Result<(), VotingError> {
    if phase(p, now) is NotStarted {
        Err(VotingError::TooEarly)
    } else if phase(p, now) is Closed {
        Err(VotingError::Closed)
    } else if !(0 <= idx < p.candidates.len()) {
        Err(VotingError::BadCandidate)
    } else if p.votes[idx] == u64::MAX {
        Err(VotingError::Overflow)
    } else {
        Ok(())
    }
}

/// The effect of one accepted vote: the chosen tally rises by one and
/// nothing else moves.
pub open spec fn cast_apply(p: PollView, idx: int) -> PollView {
    PollView { votes: p.votes.update(idx, (p.votes[idx] + 1) as u64), ..p }
}

/// The sum of a tally sequence.
pub open spec fn sum(votes: Seq<u64>) -> int
    decreases votes.len(),
{
    if votes.len() == 0 {
        0
    } else {
        sum(votes.drop_last()) + votes.last()
    }
}

/// A fresh tally sequence adds up to nothing.
pub proof fn lemma_sum_zero(n: nat)
    ensures
        sum(Seq::new(n, |i: int| 0u64)) == 0,
    decreases n,
{
    let s = Seq::new(n, |i: int| 0u64);
    if n > 0 {
        assert(s.drop_last() =~= Seq::new((n - 1) as nat, |i: int| 0u64));
        lemma_sum_zero((n - 1) as nat);
    }
}

/// Raising one tally by one raises the total by one.
pub proof fn lemma_sum_update_inc(s: Seq<u64>, i: int)
    requires
        0 <= i < s.len(),
        s[i] < u64::MAX,
    ensures
        sum(s.update(i, (s[i] + 1) as u64)) == sum(s) + 1,
    decreases s.len(),
{
    let t = s.update(i, (s[i] + 1) as u64);
    if i == s.len() - 1 {
        assert(t.drop_last() =~= s.drop_last());
    } else {
        assert(t.drop_last() =~= s.drop_last().update(i, (s[i] + 1) as u64));
        lemma_sum_update_inc(s.drop_last(), i);
    }
}

/// Validates a poll configuration, reporting the first check that fails.
pub fn check_config(
    title: &str,
    candidates: &Vec<String>,
    start_ts: i64,
    end_ts: i64,
) -> (r: Result<(), VotingError>)
    ensures
        r == config_check(title@, candidates.deep_view(), start_ts as int, end_ts as int),
{
    let ghost cands: Seq<Seq<char>> = candidates.deep_view();
    if candidates.len() < MIN_CANDIDATES {
        return Err(VotingError::NotEnoughCandidates);
    }
    if candidates.len() > MAX_CANDIDATES {
        return Err(VotingError::TooManyCandidates);
    }
    if title.unicode_len() > MAX_TITLE_LEN {
        return Err(VotingError::TitleTooLong);
    }
    if start_ts >= end_ts {
        return Err(VotingError::BadSchedule);
    }
    let n = candidates.len();
    proof {
        assert(cands.skip(0) =~= cands);
    }
    let mut i: usize = 0;
    while i < n
        invariant
            n == candidates.len(),
            cands == candidates.deep_view(),
            i <= n,
            MIN_CANDIDATES <= n <= MAX_CANDIDATES,
            title@.len() <= MAX_TITLE_LEN,
            start_ts < end_ts,
            names_check(cands.skip(i as int)) == names_check(cands),
        decreases n - i,
    {
        let name = &candidates[i];
        proof {
            assert(cands.skip(i as int)[0] == cands[i as int]);
            assert(cands[i as int] == candidates@[i as int]@);
            assert(cands.skip(i as int).len() == n - i);
        }
        if name.as_str().is_empty() {
            proof {
                assert(names_check(cands.skip(i as int)) == Err::<(), VotingError>(
                    VotingError::EmptyCandidateName,
                ));
                assert(names_check(cands) == Err::<(), VotingError>(
                    VotingError::EmptyCandidateName,
                ));
            }
            return Err(VotingError::EmptyCandidateName);
        }
        if name.as_str().unicode_len() > MAX_NAME_LEN {
            proof {
                assert(names_check(cands.skip(i as int)) == Err::<(), VotingError>(
                    VotingError::CandidateNameTooLong,
                ));
            }
            return Err(VotingError::CandidateNameTooLong);
        }
        proof {
            assert(cands.skip(i as int).drop_first() =~= cands.skip(i as int + 1));
        }
        i = i + 1;
    }
    proof {
        assert(cands.skip(n as int) =~= Seq::<Seq<char>>::empty());
    }
    Ok(())
}

impl Poll {
    /// Creates a poll in its initial state, or reports the first
    /// configuration check that fails without creating anything.
    pub fn new(
        authority: Identity,
        title: String,
        candidates: Vec<String>,
        start_ts: i64,
        end_ts: i64,
    ) -> (r: Result<Poll, VotingError>)
        ensures
            match r {
                Ok(p) => {
                    &&& config_check(
                        title@,
                        candidates.deep_view(),
                        start_ts as int,
                        end_ts as int,
                    ) is Ok
                    &&& p@ == initial_poll(
                        authority,
                        title@,
                        candidates.deep_view(),
                        start_ts as int,
                        end_ts as int,
                    )
                    &&& p@.wf()
                },
                Err(e) => config_check(
                    title@,
                    candidates.deep_view(),
                    start_ts as int,
                    end_ts as int,
                ) == Err::<(), VotingError>(e),
            },
    {
        match check_config(title.as_str(), &candidates, start_ts, end_ts) {
            Err(e) => Err(e),
            Ok(()) => {
                let n = candidates.len();
                let mut votes: Vec<u64> = Vec::new();
                let mut i: usize = 0;
                while i < n
                    invariant
                        i <= n,
                        votes.len() == i,
                        forall|j: int| 0 <= j < i ==> votes@[j] == 0u64,
                    decreases n - i,
                {
                    votes.push(0u64);
                    i = i + 1;
                }
                let p = Poll { authority, title, candidates, votes, start_ts, end_ts };
                proof {
                    assert(p@.votes =~= initial_poll(
                        authority,
                        p@.title,
                        p@.candidates,
                        start_ts as int,
                        end_ts as int,
                    ).votes);
                    assert(p@ =~= initial_poll(
                        authority,
                        p@.title,
                        p@.candidates,
                        start_ts as int,
                        end_ts as int,
                    ));
                    lemma_config_check_iff(
                        p@.title,
                        p@.candidates,
                        start_ts as int,
                        end_ts as int,
                    );
                }
                Ok(p)
            },
        }
    }

    /// Casts one vote: checks the window, the index and the tally counter,
    /// then increments the chosen tally; on any failure the poll is left
    /// unchanged.
    pub fn cast(&mut self, now: i64, candidate_idx: u8) -> (r: Result<(), VotingError>)
        requires
            old(self)@.wf(),
        ensures
            final(self)@.wf(),
            final(self)@.same_config(old(self)@),
            match r {
                Ok(()) => {
                    &&& cast_check(old(self)@, now as int, candidate_idx as int) is Ok
                    &&& final(self)@ == cast_apply(old(self)@, candidate_idx as int)
                },
                Err(e) => {
                    &&& final(self)@ == old(self)@
                    &&& cast_check(old(self)@, now as int, candidate_idx as int)
                        == Err::<(), VotingError>(e)
                },
            },
    {
        if now < self.start_ts {
            return Err(VotingError::TooEarly);
        }
        if now > self.end_ts {
            return Err(VotingError::Closed);
        }
        let idx: usize = candidate_idx as usize;
        if idx >= self.candidates.len() {
            return Err(VotingError::BadCandidate);
        }
        let cur: u64 = self.votes[idx];
        match cur.checked_add(1) {
            None => Err(VotingError::Overflow),
            Some(v) => {
                self.votes[idx] = v;
                proof {
                    assert(self@ =~= cast_apply(old(self)@, candidate_idx as int));
                }
                Ok(())
            },
        }
    }
}

} // verus!
