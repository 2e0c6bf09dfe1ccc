//! The data model: a runner as one poll saw it, and the changes that are
//! reported about it.

use std::time::Duration;
use vstd::prelude::*;

verus! {

/// What the monitor was started with.
#[derive(Debug)]
pub struct Config {
    pub runner_sets: Vec<RunnerSetConfig>,
    pub github_timeout: Duration,
    pub inbound_timeout: Duration,
    pub created_template_path: String,
    pub removed_template_path: String,
    pub online_template_path: String,
    pub offline_template_path: String,
    /// For how many polls in a row a runner may contradict its interpreted
    /// state before the change is reported. Creation and removal are never
    /// held back. With 0 the raw state is reported as it comes.
    pub grace_period: u32,
    /// Lets alerts go out over plain HTTP.
    pub allow_http: bool,
}

/// All the runners of one organisation, repository or enterprise. One
/// request polls one runner set.
#[derive(Debug)]
pub struct RunnerSetConfig {
    pub name: String,
    pub github_endpoint: String,
    pub webhook_endpoint: String,
    /// The token that requests to `github_endpoint` are signed with.
    pub github_pat: String,
}

/// The mathematical value of a [`RunnerSetConfig`].
pub ghost struct RunnerSetView {
    pub name: Seq<char>,
    pub github_endpoint: Seq<char>,
    pub webhook_endpoint: Seq<char>,
    pub github_pat: Seq<char>,
}

impl View for RunnerSetConfig {
    type V = RunnerSetView;

    open spec fn view(&self) -> RunnerSetView {
        RunnerSetView {
            name: self.name@,
            github_endpoint: self.github_endpoint@,
            webhook_endpoint: self.webhook_endpoint@,
            github_pat: self.github_pat@,
        }
    }
}

/// One runner, as seen by one poll.
#[derive(Debug, Eq, Hash)]
pub struct Runner {
    pub utc_ping_time: String,
    /// The debounced state that alerts speak of. `None` only until the
    /// runner has been compared with the previous poll.
    pub interpret_online: Option<bool>,
    /// The raw state of the latest poll.
    pub online_for_github_api: bool,
    /// For how many polls in a row the raw state has disagreed with
    /// `interpret_online`.
    pub online_state_change_since: u32,
    pub runner_set: String,
    pub id: i64,
    pub name: String,
    pub os: String,
    pub labels: Vec<String>,
    pub webhook_endpoint: String,
}

/// The mathematical value of a [`Runner`].
pub ghost struct RunnerView {
    pub utc_ping_time: Seq<char>,
    pub interpret_online: Option<bool>,
    pub online_for_github_api: bool,
    pub online_state_change_since: nat,
    pub runner_set: Seq<char>,
    pub id: int,
    pub name: Seq<char>,
    pub os: Seq<char>,
    pub labels: Seq<Seq<char>>,
    pub webhook_endpoint: Seq<char>,
}

impl View for Runner {
    type V = RunnerView;

    open spec fn view(&self) -> RunnerView {
        RunnerView {
            utc_ping_time: self.utc_ping_time@,
            interpret_online: self.interpret_online,
            online_for_github_api: self.online_for_github_api,
            online_state_change_since: self.online_state_change_since as nat,
            runner_set: self.runner_set@,
            id: self.id as int,
            name: self.name@,
            os: self.os@,
            labels: string_views(self.labels@),
            webhook_endpoint: self.webhook_endpoint@,
        }
    }
}

/// The value of a list of strings.
pub open spec fn string_views(items: Seq<String>) -> Seq<Seq<char>> {
    Seq::new(items.len(), |i: int| items[i]@)
}

/// True if two interpreted states are the same.
fn same_state(left: Option<bool>, right: Option<bool>) -> (same: bool)
    ensures
        same == (left == right),
{
    match (left, right) {
        (Some(l), Some(r)) => l == r,
        (None, None) => true,
        _ => false,
    }
}

/// True if two lists hold the same strings in the same order.
fn same_strings(left: &Vec<String>, right: &Vec<String>) -> (same: bool)
    ensures
        same == (string_views(left@) == string_views(right@)),
{
    if left.len() != right.len() {
        assert(string_views(left@).len() != string_views(right@).len());
        return false;
    }
    let mut i: usize = 0;
    while i < left.len()
        invariant
            i <= left@.len(),
            left@.len() == right@.len(),
            forall|j: int| 0 <= j < i ==> left@[j]@ == right@[j]@,
        decreases left@.len() - i,
    {
        if left[i] != right[i] {
            assert(string_views(left@)[i as int] != string_views(right@)[i as int]);
            return false;
        }
        i += 1;
    }
    assert(string_views(left@) =~= string_views(right@));
    true
}

/// Copies a list of strings.
fn clone_strings(items: &Vec<String>) -> (copy: Vec<String>)
    ensures
        string_views(copy@) == string_views(items@),
{
    let mut copy: Vec<String> = Vec::new();
    let mut i: usize = 0;
    while i < items.len()
        invariant
            i <= items@.len(),
            copy@.len() == i,
            forall|j: int| 0 <= j < i ==> copy@[j]@ == items@[j]@,
        decreases items@.len() - i,
    {
        copy.push(items[i].clone());
        i += 1;
    }
    assert(string_views(copy@) =~= string_views(items@));
    copy
}

impl Clone for Runner {
    fn clone(&self) -> (copy: Self)
        ensures
            copy@ == self@,
    {
        Runner {
            utc_ping_time: self.utc_ping_time.clone(),
            interpret_online: self.interpret_online,
            online_for_github_api: self.online_for_github_api,
            online_state_change_since: self.online_state_change_since,
            runner_set: self.runner_set.clone(),
            id: self.id,
            name: self.name.clone(),
            os: self.os.clone(),
            labels: clone_strings(&self.labels),
            webhook_endpoint: self.webhook_endpoint.clone(),
        }
    }
}

impl PartialEq for Runner {
    /// Two runners are equal if they agree in every field.
    fn eq(&self, other: &Runner) -> (equal: bool) {
        self.utc_ping_time == other.utc_ping_time && same_state(
            self.interpret_online,
            other.interpret_online,
        ) && self.online_for_github_api == other.online_for_github_api
            && self.online_state_change_since == other.online_state_change_since
            && self.runner_set == other.runner_set && self.id == other.id && self.name
            == other.name && self.os == other.os && same_strings(&self.labels, &other.labels)
            && self.webhook_endpoint == other.webhook_endpoint
    }
}

impl vstd::std_specs::cmp::PartialEqSpecImpl for Runner {
    open spec fn obeys_eq_spec() -> bool {
        true
    }

    open spec fn eq_spec(&self, other: &Runner) -> bool {
        self@ == other@
    }
}

/// A change that is worth an alert.
#[derive(Debug, Eq, Hash)]
pub enum RunnerStateChange {
    /// A runner that the previous poll did not have.
    Created(Runner),
    /// A runner of the previous poll that is gone.
    Removed(Runner),
    /// A runner that counted as online and now counts as offline: as it
    /// was, and as it is.
    Offline(Runner, Runner),
    /// A runner that counted as offline and now counts as online: as it
    /// was, and as it is.
    Online(Runner, Runner),
}

/// The mathematical value of a [`RunnerStateChange`].
pub ghost enum ChangeView {
    Created(RunnerView),
    Removed(RunnerView),
    Offline(RunnerView, RunnerView),
    Online(RunnerView, RunnerView),
}

impl View for RunnerStateChange {
    type V = ChangeView;

    open spec fn view(&self) -> ChangeView {
        match self {
            RunnerStateChange::Created(new_runner) => ChangeView::Created(new_runner@),
            RunnerStateChange::Removed(old_runner) => ChangeView::Removed(old_runner@),
            RunnerStateChange::Offline(old_runner, new_runner) => ChangeView::Offline(
                old_runner@,
                new_runner@,
            ),
            RunnerStateChange::Online(old_runner, new_runner) => ChangeView::Online(
                old_runner@,
                new_runner@,
            ),
        }
    }
}

impl Clone for RunnerStateChange {
    fn clone(&self) -> (copy: Self)
        ensures
            copy@ == self@,
    {
        match self {
            RunnerStateChange::Created(new_runner) => RunnerStateChange::Created(
                new_runner.clone(),
            ),
            RunnerStateChange::Removed(old_runner) => RunnerStateChange::Removed(
                old_runner.clone(),
            ),
            RunnerStateChange::Offline(old_runner, new_runner) => RunnerStateChange::Offline(
                old_runner.clone(),
                new_runner.clone(),
            ),
            RunnerStateChange::Online(old_runner, new_runner) => RunnerStateChange::Online(
                old_runner.clone(),
                new_runner.clone(),
            ),
        }
    }
}

impl PartialEq for RunnerStateChange {
    /// Two changes are equal if they are of the same kind and speak of
    /// equal runners.
    fn eq(&self, other: &RunnerStateChange) -> (equal: bool) {
        match (self, other) {
            (RunnerStateChange::Created(a), RunnerStateChange::Created(b)) => *a == *b,
            (RunnerStateChange::Removed(a), RunnerStateChange::Removed(b)) => *a == *b,
            (RunnerStateChange::Offline(a, c), RunnerStateChange::Offline(b, d)) => *a == *b
                && *c == *d,
            (RunnerStateChange::Online(a, c), RunnerStateChange::Online(b, d)) => *a == *b && *c
                == *d,
            _ => false,
        }
    }
}

impl vstd::std_specs::cmp::PartialEqSpecImpl for RunnerStateChange {
    open spec fn obeys_eq_spec() -> bool {
        true
    }

    open spec fn eq_spec(&self, other: &RunnerStateChange) -> bool {
        self@ == other@
    }
}

} // verus!
