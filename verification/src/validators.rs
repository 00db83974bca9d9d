//! Governance: who is a validator, who asks to become one, and who has
//! voted for whom.

use crate::keyed::{
    distinct, key_set, keys_of, lemma_keys_push, lemma_keys_size, lemma_table_copy,
    lemma_table_entry, lemma_table_push, lemma_table_remove, lemma_table_size,
    lemma_table_update, position, table, Keyed,
};
use vstd::prelude::*;
use vstd::string::*;

verus! {

/// What became of a request for validator status.
#[derive(Debug, Clone, Copy, PartialEq, Eq, Structural)]
pub enum RequestOutcome {
    /// The candidate is a validator already; nothing changed.
    AlreadyValidator,
    /// The candidate has an open request already; nothing changed.
    AlreadyPending,
    /// A request was opened, with no votes yet.
    Filed,
}

/// What became of a vote that was counted.
#[derive(Debug, Clone, Copy, PartialEq, Eq, Structural)]
pub enum VoteOutcome {
    /// The vote is on record and the request stays open.
    Recorded,
    /// The vote carried the request: the candidate is a validator now.
    Approved,
}

/// Why a vote was not counted.
#[derive(Debug, Clone, Copy, PartialEq, Eq, Structural)]
pub enum VoteError {
    /// The voter is no validator.
    UnauthorizedValidator,
    /// The candidate has no open request.
    NoActiveValidatorRequest,
}

/// The governance state: the validators in office, and for each candidate
/// with an open request the validators who have voted for it.
pub struct ValidatorsView {
    pub approved: Set<Seq<char>>,
    pub pending: Map<Seq<char>, Set<Seq<char>>>,
}

/// The votes that carry a request when `approved` validators are in office:
/// two thirds of them, rounded up.
pub open spec fn votes_required(approved: nat) -> nat {
    (2 * approved + 2) / 3
}

/// `votes` reach `votes_required` exactly when they are two thirds of the
/// validators in office or more: when three times the votes are no less
/// than twice the validators.
pub proof fn lemma_votes_required_is_two_thirds(approved: nat, votes: nat)
    ensures
        votes >= votes_required(approved) <==> 3 * votes >= 2 * approved,
{
}

/// The votes required never fall when a validator joins; they are at least
/// one while somebody is in office, and never more than the validators.
pub proof fn lemma_votes_required_grows(approved: nat)
    ensures
        votes_required(approved) <= votes_required(approved + 1),
        approved > 0 ==> votes_required(approved) > 0,
        votes_required(approved) <= approved,
{
}

impl ValidatorsView {
    /// The state when the ledger starts: `authority` alone is in office and
    /// no request is open.
    pub open spec fn seeded(authority: Seq<char>) -> ValidatorsView {
        ValidatorsView { approved: set![authority], pending: Map::empty() }
    }

    /// Whether this is a state that the governance process can be in:
    /// somebody is in office; no validator has an open request; and every
    /// open request has votes of validators only, fewer than would carry it.
    pub open spec fn valid(self) -> bool {
        &&& self.approved.finite()
        &&& self.approved.len() > 0
        &&& self.pending.dom().finite()
        &&& forall|candidate: Seq<char>| #[trigger]
            self.pending.dom().contains(candidate) ==> {
                &&& !self.approved.contains(candidate)
                &&& self.pending[candidate].finite()
                &&& self.pending[candidate].subset_of(self.approved)
                &&& self.pending[candidate].len() < votes_required(self.approved.len())
            }
    }

    /// What becomes of a request by `candidate`.
    pub open spec fn request_outcome(self, candidate: Seq<char>) -> RequestOutcome {
        if self.approved.contains(candidate) {
            RequestOutcome::AlreadyValidator
        } else if self.pending.dom().contains(candidate) {
            RequestOutcome::AlreadyPending
        } else {
            RequestOutcome::Filed
        }
    }

    /// The state after a request by `candidate`: a candidate who is neither
    /// in office nor waiting gets an open request without votes, and
    /// nothing changes for any other.
    pub open spec fn request(self, candidate: Seq<char>) -> ValidatorsView {
        if self.request_outcome(candidate) == RequestOutcome::Filed {
            ValidatorsView { pending: self.pending.insert(candidate, Set::empty()), ..self }
        } else {
            self
        }
    }

    /// The votes for `candidate` once `voter` has voted too.
    pub open spec fn votes_with(self, voter: Seq<char>, candidate: Seq<char>) -> Set<Seq<char>> {
        self.pending[candidate].insert(voter)
    }

    /// What becomes of a vote of `voter` for `candidate`: it is counted
    /// where the voter is in office and the candidate has an open request,
    /// and it carries the request where the distinct votes, this one
    /// included, then number two thirds of the validators in office.
    pub open spec fn vote_outcome(self, voter: Seq<char>, candidate: Seq<char>) -> Result<
        VoteOutcome,
        VoteError,
    > {
        if !self.approved.contains(voter) {
            Err(VoteError::UnauthorizedValidator)
        } else if !self.pending.dom().contains(candidate) {
            Err(VoteError::NoActiveValidatorRequest)
        } else if self.votes_with(voter, candidate).len() >= votes_required(self.approved.len()) {
            Ok(VoteOutcome::Approved)
        } else {
            Ok(VoteOutcome::Recorded)
        }
    }

    /// The state after a vote of `voter` for `candidate`: a vote that
    /// carries the request moves the candidate from the open requests into
    /// office; another vote that is counted is added to the request; a vote
    /// that is not counted changes nothing.
    pub open spec fn vote(self, voter: Seq<char>, candidate: Seq<char>) -> ValidatorsView {
        match self.vote_outcome(voter, candidate) {
            Ok(VoteOutcome::Approved) => ValidatorsView {
                approved: self.approved.insert(candidate),
                pending: self.pending.remove(candidate),
            },
            Ok(VoteOutcome::Recorded) => ValidatorsView {
                approved: self.approved,
                pending: self.pending.insert(candidate, self.votes_with(voter, candidate)),
            },
            Err(_) => self,
        }
    }
}

/// Idempotent request: a request by a candidate who is in office or has an
/// open request changes nothing, and so does any request made a second time.
pub proof fn lemma_request_idempotent(state: ValidatorsView, candidate: Seq<char>)
    ensures
        state.approved.contains(candidate) || state.pending.dom().contains(candidate)
            ==> state.request(candidate) == state,
        state.request(candidate).request(candidate) == state.request(candidate),
        state.request(candidate).approved == state.approved,
{
}

/// A request keeps the governance state valid.
pub proof fn lemma_request_valid(state: ValidatorsView, candidate: Seq<char>)
    requires
        state.valid(),
    ensures
        state.request(candidate).valid(),
{
    lemma_votes_required_grows(state.approved.len());
    let after = state.request(candidate);
    assert forall|c: Seq<char>| #[trigger] after.pending.dom().contains(c) implies {
        &&& !after.approved.contains(c)
        &&& after.pending[c].finite()
        &&& after.pending[c].subset_of(after.approved)
        &&& after.pending[c].len() < votes_required(after.approved.len())
    } by {
        if c != candidate {
            assert(state.pending.dom().contains(c));
        }
    }
}

/// Validator threshold: a vote makes the candidate a validator exactly when
/// it is counted and the distinct votes for the candidate, this one
/// included, number two thirds of the validators in office at that moment.
/// Until then the candidate is none, and from then on has no open request
/// that could be carried a second time. Nobody else enters or leaves office.
pub proof fn lemma_vote_threshold(state: ValidatorsView, voter: Seq<char>, candidate: Seq<char>)
    requires
        state.valid(),
    ensures
        state.vote(voter, candidate).valid(),
        state.vote(voter, candidate).approved.contains(candidate) <==> state.approved.contains(
            candidate,
        ) || {
            &&& state.approved.contains(voter)
            &&& state.pending.dom().contains(candidate)
            &&& state.votes_with(voter, candidate).len() >= votes_required(state.approved.len())
        },
        state.pending.dom().contains(candidate) ==> !state.approved.contains(candidate),
        state.vote(voter, candidate).approved.contains(candidate) ==> !state.vote(
            voter,
            candidate,
        ).pending.dom().contains(candidate),
        forall|other: Seq<char>|
            other != candidate ==> (state.vote(voter, candidate).approved.contains(other)
                <==> state.approved.contains(other)),
        state.approved.subset_of(state.vote(voter, candidate).approved),
{
    let after = state.vote(voter, candidate);
    let n = state.approved.len();
    lemma_votes_required_grows(n);
    match state.vote_outcome(voter, candidate) {
        Ok(VoteOutcome::Approved) => {
            assert(state.pending.dom().contains(candidate));
            assert(!state.approved.contains(candidate));
            assert(after.approved.len() == n + 1);
            assert forall|c: Seq<char>| #[trigger] after.pending.dom().contains(c) implies {
                &&& !after.approved.contains(c)
                &&& after.pending[c].finite()
                &&& after.pending[c].subset_of(after.approved)
                &&& after.pending[c].len() < votes_required(after.approved.len())
            } by {
                assert(state.pending.dom().contains(c));
            }
        },
        Ok(VoteOutcome::Recorded) => {
            assert(state.pending.dom().contains(candidate));
            assert forall|c: Seq<char>| #[trigger] after.pending.dom().contains(c) implies {
                &&& !after.approved.contains(c)
                &&& after.pending[c].finite()
                &&& after.pending[c].subset_of(after.approved)
                &&& after.pending[c].len() < votes_required(after.approved.len())
            } by {
                assert(state.pending.dom().contains(c));
            }
        },
        Err(_) => {},
    }
}

/// An open request: the candidate and the validators who have voted for it.
#[derive(Debug)]
pub struct PendingRequest {
    pub candidate: String,
    pub voters: Vec<String>,
}

impl Keyed for PendingRequest {
    open spec fn key_view(&self) -> Seq<char> {
        self.candidate@
    }

    fn key(&self) -> (k: &str) {
        self.candidate.as_str()
    }
}

/// The validators in office and the open requests.
#[derive(Debug)]
pub struct Validators {
    validators: Vec<String>,
    pending_requests: Vec<PendingRequest>,
}

/// How an open request enters the view: as the set of those who voted.
pub open spec fn as_votes() -> spec_fn(PendingRequest) -> Set<Seq<char>> {
    |request: PendingRequest| key_set(request.voters@)
}

impl View for Validators {
    type V = ValidatorsView;

    closed spec fn view(&self) -> ValidatorsView {
        ValidatorsView {
            approved: key_set(self.validators@),
            pending: table(self.pending_requests@, as_votes()),
        }
    }
}

/// The votes that carry a request when `approved` validators are in office.
pub fn required_votes(approved: usize) -> (votes: usize)
    ensures
        votes == votes_required(approved as nat),
{
    approved - approved / 3
}

/// Copies a list of names.
pub fn clone_names(names: &Vec<String>) -> (copy: Vec<String>)
    ensures
        keys_of(copy@) == keys_of(names@),
{
    let mut copy: Vec<String> = Vec::new();
    let mut i: usize = 0;
    while i < names.len()
        invariant
            i <= names.len(),
            copy.len() == i,
            forall|j: int| 0 <= j < i ==> copy[j]@ == names[j]@,
        decreases names.len() - i,
    {
        copy.push(names[i].clone());
        i = i + 1;
    }
    assert(keys_of(copy@) =~= keys_of(names@));
    copy
}

impl Validators {
    /// No name occurs twice among the validators, among the candidates, or
    /// among the voters of one request, and the state is one that the
    /// governance process can be in.
    pub closed spec fn wf(&self) -> bool {
        &&& distinct(self.validators@)
        &&& distinct(self.pending_requests@)
        &&& forall|i: int|
            0 <= i < self.pending_requests.len() ==> distinct(
                (#[trigger] self.pending_requests[i]).voters@,
            )
        &&& self@.valid()
    }

    /// The state of well-formed validators is a valid governance state.
    pub proof fn lemma_valid(&self)
        requires
            self.wf(),
        ensures
            self@.valid(),
    {
    }

    /// The governance state at the start: `authority` alone is in office.
    pub fn new(authority: &str) -> (validators: Self)
        ensures
            validators.wf(),
            validators@ == ValidatorsView::seeded(authority@),
    {
        let mut names: Vec<String> = Vec::new();
        let name = authority.to_owned();
        proof {
            assert(keys_of(names@) =~= Seq::<Seq<char>>::empty());
            lemma_keys_push(names@, name);
            lemma_keys_size(names@.push(name));
            assert(key_set(names@) =~= Set::<Seq<char>>::empty());
        }
        names.push(name);
        let validators = Validators { validators: names, pending_requests: Vec::new() };
        proof {
            assert(keys_of(validators.pending_requests@) =~= Seq::<Seq<char>>::empty());
            assert(validators@.pending =~= Map::<Seq<char>, Set<Seq<char>>>::empty());
            assert(validators@.approved =~= set![authority@]);
        }
        validators
    }

    /// Whether `agency` is a validator in office.
    pub fn contains(&self, agency: &str) -> (approved: bool)
        ensures
            approved == self@.approved.contains(agency@),
    {
        position(&self.validators, agency).is_some()
    }

    /// The validators in office, each once, in the order in which they took
    /// office.
    pub fn list_validators(&self) -> (names: Vec<String>)
        requires
            self.wf(),
        ensures
            distinct(names@),
            key_set(names@) == self@.approved,
    {
        clone_names(&self.validators)
    }

    /// The candidates with an open request, each once, in the order in
    /// which they asked.
    pub fn get_pending_request(&self) -> (candidates: Vec<String>)
        requires
            self.wf(),
        ensures
            distinct(candidates@),
            key_set(candidates@) == self@.pending.dom(),
    {
        let mut candidates: Vec<String> = Vec::new();
        let mut i: usize = 0;
        while i < self.pending_requests.len()
            invariant
                i <= self.pending_requests.len(),
                candidates.len() == i,
                forall|j: int| 0 <= j < i ==> candidates[j]@ == self.pending_requests[j].candidate@,
            decreases self.pending_requests.len() - i,
        {
            candidates.push(self.pending_requests[i].candidate.clone());
            i = i + 1;
        }
        proof {
            assert(keys_of(candidates@) =~= keys_of(self.pending_requests@));
            lemma_table_size(self.pending_requests@, as_votes());
        }
        candidates
    }

    /// The validators who have voted for `candidate`, each once, in the
    /// order of their votes; `None` where the candidate has no open request.
    pub fn votes_for(&self, candidate: &str) -> (votes: Option<Vec<String>>)
        requires
            self.wf(),
        ensures
            votes is Some <==> self@.pending.dom().contains(candidate@),
            votes matches Some(names) ==> distinct(names@) && key_set(names@)
                == self@.pending[candidate@],
    {
        match position(&self.pending_requests, candidate) {
            Some(i) => {
                proof {
                    lemma_table_entry(self.pending_requests@, as_votes(), i as int);
                }
                Some(clone_names(&self.pending_requests[i].voters))
            },
            None => None,
        }
    }

    /// A copy of the open requests, each with its votes, in the order in
    /// which the candidates asked.
    pub fn open_requests(&self) -> (requests: Vec<PendingRequest>)
        requires
            self.wf(),
        ensures
            distinct(requests@),
            table(requests@, as_votes()) == self@.pending,
            forall|i: int| 0 <= i < requests.len() ==> distinct((#[trigger] requests[i]).voters@),
    {
        let mut requests: Vec<PendingRequest> = Vec::new();
        let mut i: usize = 0;
        while i < self.pending_requests.len()
            invariant
                i <= self.pending_requests.len(),
                requests.len() == i,
                forall|j: int|
                    0 <= j < i ==> (#[trigger] requests[j]).candidate@
                        == self.pending_requests[j].candidate@ && keys_of(requests[j].voters@)
                        == keys_of(self.pending_requests[j].voters@),
            decreases self.pending_requests.len() - i,
        {
            let request = PendingRequest {
                candidate: self.pending_requests[i].candidate.clone(),
                voters: clone_names(&self.pending_requests[i].voters),
            };
            requests.push(request);
            i = i + 1;
        }
        proof {
            lemma_table_copy(self.pending_requests@, requests@, as_votes());
        }
        requests
    }

    /// Files a request of `agency` for validator status.
    ///
    /// A request is opened, with no votes, for an agency that is neither in
    /// office nor waiting. For any other nothing changes, and the outcome
    /// says why.
    pub fn request_validator(&mut self, agency: &str) -> (outcome: RequestOutcome)
        requires
            old(self).wf(),
        ensures
            final(self).wf(),
            outcome == old(self)@.request_outcome(agency@),
            final(self)@ == old(self)@.request(agency@),
    {
        if position(&self.validators, agency).is_some() {
            return RequestOutcome::AlreadyValidator;
        }
        if position(&self.pending_requests, agency).is_some() {
            return RequestOutcome::AlreadyPending;
        }
        let request = PendingRequest { candidate: agency.to_owned(), voters: Vec::new() };
        proof {
            lemma_request_valid(self@, agency@);
            lemma_table_push(self.pending_requests@, as_votes(), request);
            assert(keys_of(request.voters@) =~= Seq::<Seq<char>>::empty());
            assert(key_set(request.voters@) =~= Set::<Seq<char>>::empty());
        }
        self.pending_requests.push(request);
        RequestOutcome::Filed
    }

    /// Casts the vote of `voter` for `candidate`.
    ///
    /// Refused with `UnauthorizedValidator` where the voter is not in
    /// office, and with `NoActiveValidatorRequest` where the candidate has
    /// no open request; a refusal changes nothing. A vote that is counted a
    /// second time adds nothing. Once the distinct votes for the candidate
    /// number two thirds of the validators in office, rounded up, the
    /// candidate takes office and the request is closed.
    pub fn vote_for_validator(&mut self, voter: &str, candidate: &str) -> (result: Result<
        VoteOutcome,
        VoteError,
    >)
        requires
            old(self).wf(),
        ensures
            final(self).wf(),
            result == old(self)@.vote_outcome(voter@, candidate@),
            final(self)@ == old(self)@.vote(voter@, candidate@),
    {
        let ghost state = self@;
        let ghost requests = self.pending_requests@;
        proof {
            lemma_vote_threshold(state, voter@, candidate@);
        }
        if position(&self.validators, voter).is_none() {
            return Err(VoteError::UnauthorizedValidator);
        }
        let at = match position(&self.pending_requests, candidate) {
            Some(i) => i,
            None => {
                return Err(VoteError::NoActiveValidatorRequest);
            },
        };
        proof {
            lemma_table_entry(requests, as_votes(), at as int);
        }
        if position(&self.pending_requests[at].voters, voter).is_none() {
            let name = voter.to_owned();
            proof {
                lemma_keys_push(requests[at as int].voters@, name);
            }
            self.pending_requests[at].voters.push(name);
        } else {
            assert(state.votes_with(voter@, candidate@) =~= state.pending[candidate@]);
        }
        let ghost voted = self.pending_requests@;
        proof {
            assert(voted =~= requests.update(at as int, voted[at as int]));
            assert(key_set(voted[at as int].voters@) == state.votes_with(voter@, candidate@));
            lemma_table_update(requests, as_votes(), at as int, voted[at as int]);
            lemma_keys_size(voted[at as int].voters@);
            lemma_keys_size(self.validators@);
            assert forall|i: int| 0 <= i < voted.len() implies distinct(
                (#[trigger] voted[i]).voters@,
            ) by {
                if i != at {
                    assert(voted[i] == requests[i]);
                }
            }
        }
        if self.pending_requests[at].voters.len() >= required_votes(self.validators.len()) {
            let request = self.pending_requests.remove(at);
            proof {
                lemma_table_remove(voted, as_votes(), at as int);
                lemma_keys_push(self.validators@, request.candidate);
                let kept = self.pending_requests@;
                assert forall|i: int| 0 <= i < kept.len() implies distinct(
                    (#[trigger] kept[i]).voters@,
                ) by {
                    assert(kept[i] == voted[if i < at { i } else { i + 1 }]);
                }
                assert(table(kept, as_votes()) =~= state.pending.remove(candidate@));
            }
            self.validators.push(request.candidate);
            Ok(VoteOutcome::Approved)
        } else {
            Ok(VoteOutcome::Recorded)
        }
    }
}

} // verus!
