use branch_ledger::validators::{
    required_votes, RequestOutcome, Validators, VoteError, VoteOutcome,
};

fn sorted(mut names: Vec<String>) -> Vec<String> {
    names.sort();
    names
}

#[test]
fn required_votes_is_two_thirds_rounded_up() {
    assert_eq!(required_votes(0), 0);
    assert_eq!(required_votes(1), 1);
    assert_eq!(required_votes(2), 2);
    assert_eq!(required_votes(3), 2);
    assert_eq!(required_votes(4), 3);
    assert_eq!(required_votes(5), 4);
    assert_eq!(required_votes(6), 4);
    assert_eq!(required_votes(7), 5);
    assert_eq!(required_votes(9), 6);
    assert_eq!(required_votes(100), 67);
}

#[test]
fn required_votes_is_least_with_triple_at_least_double() {
    for n in 0usize..500 {
        let k = required_votes(n);
        assert!(3 * k >= 2 * n);
        assert!(k == 0 || 3 * (k - 1) < 2 * n);
    }
    assert_eq!(required_votes(usize::MAX), usize::MAX - usize::MAX / 3);
}

#[test]
fn validators_start_with_authority() {
    let validators = Validators::new("CentralGov");
    assert!(validators.contains("CentralGov"));
    assert!(!validators.contains("Dept_A"));
    assert_eq!(validators.list_validators(), vec!["CentralGov".to_string()]);
    assert!(validators.get_pending_request().is_empty());
    assert!(validators.open_requests().is_empty());
}

#[test]
fn request_opens_pending_without_votes() {
    let mut validators = Validators::new("CentralGov");
    assert_eq!(validators.request_validator("Dept_A"), RequestOutcome::Filed);
    assert_eq!(validators.get_pending_request(), vec!["Dept_A".to_string()]);
    assert_eq!(validators.votes_for("Dept_A"), Some(Vec::new()));
    assert_eq!(validators.votes_for("Dept_B"), None);
    assert!(!validators.contains("Dept_A"));
}

#[test]
fn request_is_idempotent_when_pending() {
    let mut validators = Validators::new("a");
    validators.request_validator("b");
    validators.vote_for_validator("a", "b").unwrap();
    validators.request_validator("c");
    validators.vote_for_validator("a", "c").unwrap();
    let pending = validators.get_pending_request();
    let votes = validators.votes_for("c");
    let approved = validators.list_validators();
    assert_eq!(validators.request_validator("c"), RequestOutcome::AlreadyPending);
    assert_eq!(validators.get_pending_request(), pending);
    assert_eq!(validators.votes_for("c"), votes);
    assert_eq!(validators.votes_for("c"), Some(vec!["a".to_string()]));
    assert_eq!(validators.list_validators(), approved);
}

#[test]
fn request_is_idempotent_when_approved() {
    let mut validators = Validators::new("CentralGov");
    assert_eq!(validators.request_validator("CentralGov"), RequestOutcome::AlreadyValidator);
    assert!(validators.get_pending_request().is_empty());
    assert_eq!(validators.list_validators(), vec!["CentralGov".to_string()]);
    validators.request_validator("Dept_A");
    validators.vote_for_validator("CentralGov", "Dept_A").unwrap();
    assert_eq!(validators.request_validator("Dept_A"), RequestOutcome::AlreadyValidator);
    assert!(validators.get_pending_request().is_empty());
    assert_eq!(validators.list_validators().len(), 2);
}

#[test]
fn vote_by_non_validator_is_refused() {
    let mut validators = Validators::new("CentralGov");
    validators.request_validator("Dept_A");
    assert_eq!(
        validators.vote_for_validator("Dept_B", "Dept_A"),
        Err(VoteError::UnauthorizedValidator)
    );
    assert_eq!(
        validators.vote_for_validator("Dept_A", "Dept_A"),
        Err(VoteError::UnauthorizedValidator)
    );
    assert_eq!(validators.votes_for("Dept_A"), Some(Vec::new()));
    assert!(!validators.contains("Dept_A"));
}

#[test]
fn vote_without_request_is_refused() {
    let mut validators = Validators::new("CentralGov");
    assert_eq!(
        validators.vote_for_validator("CentralGov", "Dept_A"),
        Err(VoteError::NoActiveValidatorRequest)
    );
    assert_eq!(
        validators.vote_for_validator("CentralGov", "CentralGov"),
        Err(VoteError::NoActiveValidatorRequest)
    );
    assert_eq!(
        validators.vote_for_validator("nobody", "Dept_A"),
        Err(VoteError::UnauthorizedValidator)
    );
    assert!(validators.get_pending_request().is_empty());
    assert_eq!(validators.list_validators().len(), 1);
}

#[test]
fn single_validator_approves_alone() {
    let mut validators = Validators::new("CentralGov");
    validators.request_validator("Dept_A");
    assert_eq!(
        validators.vote_for_validator("CentralGov", "Dept_A"),
        Ok(VoteOutcome::Approved)
    );
    assert!(validators.contains("Dept_A"));
    assert!(validators.get_pending_request().is_empty());
    assert_eq!(
        validators.list_validators(),
        vec!["CentralGov".to_string(), "Dept_A".to_string()]
    );
}

#[test]
fn two_validators_must_both_vote() {
    let mut validators = Validators::new("a");
    validators.request_validator("b");
    validators.vote_for_validator("a", "b").unwrap();
    validators.request_validator("c");
    assert_eq!(validators.vote_for_validator("a", "c"), Ok(VoteOutcome::Recorded));
    assert!(!validators.contains("c"));
    assert_eq!(validators.votes_for("c"), Some(vec!["a".to_string()]));
    assert_eq!(validators.vote_for_validator("b", "c"), Ok(VoteOutcome::Approved));
    assert!(validators.contains("c"));
    assert_eq!(validators.votes_for("c"), None);
}

#[test]
fn repeated_vote_counts_once() {
    let mut validators = Validators::new("a");
    validators.request_validator("b");
    validators.vote_for_validator("a", "b").unwrap();
    validators.request_validator("c");
    assert_eq!(validators.vote_for_validator("a", "c"), Ok(VoteOutcome::Recorded));
    assert_eq!(validators.vote_for_validator("a", "c"), Ok(VoteOutcome::Recorded));
    assert_eq!(validators.vote_for_validator("a", "c"), Ok(VoteOutcome::Recorded));
    assert_eq!(validators.votes_for("c"), Some(vec!["a".to_string()]));
    assert!(!validators.contains("c"));
}

#[test]
fn threshold_uses_validators_at_vote_time() {
    // With three in office two votes carry; once a fourth has joined, three
    // are needed, also for a request that was filed before.
    let mut validators = Validators::new("a");
    validators.request_validator("b");
    validators.vote_for_validator("a", "b").unwrap();
    validators.request_validator("c");
    validators.vote_for_validator("a", "c").unwrap();
    validators.vote_for_validator("b", "c").unwrap();
    assert_eq!(validators.list_validators().len(), 3);

    validators.request_validator("d");
    validators.request_validator("e");
    assert_eq!(validators.vote_for_validator("a", "e"), Ok(VoteOutcome::Recorded));
    assert_eq!(validators.vote_for_validator("a", "d"), Ok(VoteOutcome::Recorded));
    assert_eq!(validators.vote_for_validator("b", "d"), Ok(VoteOutcome::Approved));
    assert_eq!(validators.list_validators().len(), 4);

    assert_eq!(validators.vote_for_validator("b", "e"), Ok(VoteOutcome::Recorded));
    assert!(!validators.contains("e"));
    assert_eq!(validators.vote_for_validator("d", "e"), Ok(VoteOutcome::Approved));
    assert!(validators.contains("e"));
    assert_eq!(
        sorted(validators.list_validators()),
        vec!["a", "b", "c", "d", "e"].into_iter().map(String::from).collect::<Vec<String>>()
    );
}

#[test]
fn approved_candidate_cannot_be_approved_again() {
    let mut validators = Validators::new("a");
    validators.request_validator("b");
    assert_eq!(validators.vote_for_validator("a", "b"), Ok(VoteOutcome::Approved));
    assert_eq!(
        validators.vote_for_validator("a", "b"),
        Err(VoteError::NoActiveValidatorRequest)
    );
    assert_eq!(validators.request_validator("b"), RequestOutcome::AlreadyValidator);
    assert_eq!(validators.list_validators(), vec!["a".to_string(), "b".to_string()]);
}

#[test]
fn open_requests_lists_votes() {
    let mut validators = Validators::new("a");
    validators.request_validator("b");
    validators.vote_for_validator("a", "b").unwrap();
    validators.request_validator("c");
    validators.request_validator("d");
    validators.vote_for_validator("b", "d").unwrap();
    let requests = validators.open_requests();
    assert_eq!(requests.len(), 2);
    assert_eq!(requests[0].candidate, "c");
    assert!(requests[0].voters.is_empty());
    assert_eq!(requests[1].candidate, "d");
    assert_eq!(requests[1].voters, vec!["b".to_string()]);
    assert_eq!(
        validators.get_pending_request(),
        vec!["c".to_string(), "d".to_string()]
    );
}
