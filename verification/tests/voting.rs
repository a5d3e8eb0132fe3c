use voting::error::LedgerError;
use voting::error::VotingError;
use voting::identity::Identity;
use voting::ledger::Ledger;
use voting::poll::check_config;
use voting::poll::Poll;

fn id(n: u128) -> Identity {
    Identity { hi: 0, lo: n }
}

fn names(list: &[&str]) -> Vec<String> {
    list.iter().map(|s| s.to_string()).collect()
}

#[test]
fn scenario_best_language() {
    let mut ledger = Ledger::new();
    let admin = id(1);
    let wallet_a = id(10);
    let wallet_b = id(11);
    let wallet_c = id(12);

    let poll_id = ledger
        .init_poll(admin, "Best Language".to_string(), names(&["Rust", "Go"]), 100, 200)
        .expect("creation succeeds");
    assert_eq!(poll_id, 0);

    assert_eq!(ledger.vote(poll_id, wallet_a, 0, 150), Ok(()));
    assert_eq!(ledger.poll(poll_id).votes, vec![1, 0]);

    assert_eq!(ledger.vote(poll_id, wallet_a, 0, 150), Err(LedgerError::AddressInUse));
    assert_eq!(ledger.poll(poll_id).votes, vec![1, 0]);

    assert_eq!(
        ledger.vote(poll_id, wallet_b, 0, 250),
        Err(LedgerError::Program(VotingError::Closed))
    );
    assert_eq!(
        ledger.vote(poll_id, wallet_c, 5, 150),
        Err(LedgerError::Program(VotingError::BadCandidate))
    );
    assert_eq!(ledger.poll(poll_id).votes, vec![1, 0]);
    assert_eq!(ledger.voter_count(), 1);
}

#[test]
fn rejects_one_candidate() {
    let mut ledger = Ledger::new();
    let r = ledger.init_poll(id(1), "T".to_string(), names(&["Only"]), 0, 10);
    assert_eq!(r, Err(LedgerError::Program(VotingError::NotEnoughCandidates)));
    assert_eq!(ledger.poll_count(), 0);
}

#[test]
fn rejects_nine_candidates() {
    let mut ledger = Ledger::new();
    let nine = names(&["a", "b", "c", "d", "e", "f", "g", "h", "i"]);
    let r = ledger.init_poll(id(1), "T".to_string(), nine, 0, 10);
    assert_eq!(r, Err(LedgerError::Program(VotingError::TooManyCandidates)));
    assert_eq!(ledger.poll_count(), 0);
}

#[test]
fn rejects_long_title() {
    let mut ledger = Ledger::new();
    let title: String = "x".repeat(65);
    let r = ledger.init_poll(id(1), title, names(&["A", "B"]), 0, 10);
    assert_eq!(r, Err(LedgerError::Program(VotingError::TitleTooLong)));
    assert_eq!(ledger.poll_count(), 0);
}

#[test]
fn accepts_title_at_bound() {
    let mut ledger = Ledger::new();
    let title: String = "x".repeat(64);
    let r = ledger.init_poll(id(1), title, names(&["A", "B"]), 0, 10);
    assert!(r.is_ok());
}

#[test]
fn rejects_equal_schedule() {
    let mut ledger = Ledger::new();
    let r = ledger.init_poll(id(1), "T".to_string(), names(&["A", "B"]), 50, 50);
    assert_eq!(r, Err(LedgerError::Program(VotingError::BadSchedule)));
    assert_eq!(ledger.poll_count(), 0);
}

#[test]
fn rejects_long_candidate_name() {
    let mut ledger = Ledger::new();
    let long: String = "y".repeat(33);
    let r = ledger.init_poll(id(1), "T".to_string(), vec!["ok".to_string(), long], 0, 10);
    assert_eq!(r, Err(LedgerError::Program(VotingError::CandidateNameTooLong)));
    assert_eq!(ledger.poll_count(), 0);
}

#[test]
fn rejects_empty_candidate_name() {
    let mut ledger = Ledger::new();
    let r = ledger.init_poll(id(1), "T".to_string(), names(&["ok", ""]), 0, 10);
    assert_eq!(r, Err(LedgerError::Program(VotingError::EmptyCandidateName)));
    assert_eq!(ledger.poll_count(), 0);
}

#[test]
fn first_config_failure_wins() {
    // One candidate and an oversized title: the candidate-count check comes first.
    let r = check_config(&"x".repeat(65), &names(&["Only"]), 0, 10);
    assert_eq!(r, Err(VotingError::NotEnoughCandidates));
    // Oversized title and a backwards schedule: the title check comes first.
    let r = check_config(&"x".repeat(65), &names(&["A", "B"]), 10, 0);
    assert_eq!(r, Err(VotingError::TitleTooLong));
    // An empty name before an oversized one: the walk is in order.
    let r = check_config("T", &vec!["".to_string(), "y".repeat(33)], 0, 10);
    assert_eq!(r, Err(VotingError::EmptyCandidateName));
}

#[test]
fn window_boundaries() {
    let mut ledger = Ledger::new();
    let poll_id = ledger
        .init_poll(id(1), "T".to_string(), names(&["A", "B"]), 100, 200)
        .unwrap();

    assert_eq!(
        ledger.vote(poll_id, id(20), 0, 99),
        Err(LedgerError::Program(VotingError::TooEarly))
    );
    assert_eq!(ledger.poll(poll_id).votes, vec![0, 0]);

    assert_eq!(ledger.vote(poll_id, id(21), 0, 100), Ok(()));
    assert_eq!(ledger.vote(poll_id, id(22), 0, 200), Ok(()));
    assert_eq!(
        ledger.vote(poll_id, id(23), 0, 201),
        Err(LedgerError::Program(VotingError::Closed))
    );
    assert_eq!(ledger.poll(poll_id).votes, vec![2, 0]);
}

#[test]
fn duplicate_poll_key_rejected() {
    let mut ledger = Ledger::new();
    let a = ledger.init_poll(id(1), "Election".to_string(), names(&["A", "B"]), 0, 10);
    assert_eq!(a, Ok(0));
    // Same authority and title: the derived address is occupied.
    let b = ledger.init_poll(id(1), "Election".to_string(), names(&["C", "D"]), 5, 15);
    assert_eq!(b, Err(LedgerError::AddressInUse));
    assert_eq!(ledger.poll_count(), 1);
    // A different authority may reuse the title, and the same authority a
    // different title.
    assert_eq!(
        ledger.init_poll(id(2), "Election".to_string(), names(&["A", "B"]), 0, 10),
        Ok(1)
    );
    assert_eq!(
        ledger.init_poll(id(1), "Election 2".to_string(), names(&["A", "B"]), 0, 10),
        Ok(2)
    );
}

#[test]
fn tallies_count_each_vote_once() {
    let mut ledger = Ledger::new();
    let poll_id = ledger
        .init_poll(id(1), "T".to_string(), names(&["A", "B", "C"]), 0, 1000)
        .unwrap();
    assert_eq!(ledger.vote(poll_id, id(30), 0, 1), Ok(()));
    assert_eq!(ledger.vote(poll_id, id(31), 2, 2), Ok(()));
    assert_eq!(ledger.vote(poll_id, id(32), 2, 3), Ok(()));
    assert_eq!(ledger.vote(poll_id, id(33), 1, 4), Ok(()));
    assert_eq!(ledger.vote(poll_id, id(34), 2, 5), Ok(()));

    let votes = &ledger.poll(poll_id).votes;
    assert_eq!(votes, &vec![1, 1, 3]);
    assert_eq!(votes.iter().sum::<u64>(), 5);
    assert_eq!(ledger.voter_count(), 5);
}

#[test]
fn duplicate_leaves_tallies_unchanged() {
    let mut ledger = Ledger::new();
    let poll_id = ledger
        .init_poll(id(1), "T".to_string(), names(&["A", "B"]), 0, 1000)
        .unwrap();
    assert_eq!(ledger.vote(poll_id, id(40), 1, 5), Ok(()));
    // A second attempt by the same wallet fails even for another candidate.
    assert_eq!(ledger.vote(poll_id, id(40), 0, 6), Err(LedgerError::AddressInUse));
    assert_eq!(ledger.poll(poll_id).votes, vec![0, 1]);
    assert_eq!(ledger.voter_count(), 1);
}

#[test]
fn votes_on_separate_polls_are_independent() {
    let mut ledger = Ledger::new();
    let first = ledger
        .init_poll(id(1), "First".to_string(), names(&["A", "B"]), 0, 1000)
        .unwrap();
    let second = ledger
        .init_poll(id(1), "Second".to_string(), names(&["A", "B"]), 0, 1000)
        .unwrap();
    // The same wallet may vote once on each poll.
    assert_eq!(ledger.vote(first, id(50), 0, 1), Ok(()));
    assert_eq!(ledger.vote(second, id(50), 1, 1), Ok(()));
    assert_eq!(ledger.poll(first).votes, vec![1, 0]);
    assert_eq!(ledger.poll(second).votes, vec![0, 1]);
}

#[test]
fn configuration_is_immutable() {
    let mut ledger = Ledger::new();
    let poll_id = ledger
        .init_poll(id(7), "Board Seat".to_string(), names(&["N", "S"]), 10, 90)
        .unwrap();
    for (voter, idx) in [(60u128, 0u8), (61, 1), (62, 0)] {
        assert_eq!(ledger.vote(poll_id, id(voter), idx, 50), Ok(()));
    }
    let p = ledger.poll(poll_id);
    assert_eq!(p.authority, id(7));
    assert_eq!(p.title, "Board Seat");
    assert_eq!(p.candidates, names(&["N", "S"]));
    assert_eq!(p.start_ts, 10);
    assert_eq!(p.end_ts, 90);
    assert_eq!(p.votes, vec![2, 1]);
}

#[test]
fn poll_new_initializes_zero_tallies() {
    let p = Poll::new(id(3), "T".to_string(), names(&["A", "B", "C"]), 1, 2).unwrap();
    assert_eq!(p.votes, vec![0, 0, 0]);
    assert_eq!(p.authority, id(3));
    assert_eq!(p.candidates.len(), 3);
}

#[test]
fn tally_at_maximum_reports_overflow() {
    let mut p = Poll {
        authority: id(1),
        title: "T".to_string(),
        candidates: names(&["A", "B"]),
        votes: vec![u64::MAX, 0],
        start_ts: 0,
        end_ts: 100,
    };
    assert_eq!(p.cast(50, 0), Err(VotingError::Overflow));
    assert_eq!(p.votes, vec![u64::MAX, 0]);
    // The other tally still has room.
    assert_eq!(p.cast(50, 1), Ok(()));
    assert_eq!(p.votes, vec![u64::MAX, 1]);
}

#[test]
fn cast_checks_window_before_index() {
    let mut p = Poll::new(id(1), "T".to_string(), names(&["A", "B"]), 100, 200).unwrap();
    assert_eq!(p.cast(99, 9), Err(VotingError::TooEarly));
    assert_eq!(p.cast(201, 9), Err(VotingError::Closed));
    assert_eq!(p.cast(150, 9), Err(VotingError::BadCandidate));
    assert_eq!(p.votes, vec![0, 0]);
}
