//! The settings that the monitor is started with, as the configuration
//! file holds them and as the monitor uses them.

use crate::github::{
    enterprise_endpoint, get_github_enterprise_endpoint, get_github_org_endpoint,
    get_github_repo_endpoint, org_endpoint, repo_endpoint,
};
use crate::structs::{Config, RunnerSetConfig, RunnerSetView};
use std::time::Duration;
use vstd::prelude::*;
use vstd::string::StringExecFns;

verus! {

/// The configuration file.
#[derive(Debug)]
pub struct YAMLConfig {
    pub orgs: Vec<RunnerSetYAMLConfig>,
    pub repos: Vec<RunnerSetYAMLConfig>,
    pub enterprises: Vec<RunnerSetYAMLConfig>,
    pub grace_period: u32,
    pub github_timeout_millis: u64,
    pub inbound_timeout_millis: u64,
    pub created_template_path: String,
    pub removed_template_path: String,
    pub online_template_path: String,
    pub offline_template_path: String,
}

/// One organisation, repository or enterprise in the configuration file.
#[derive(Debug)]
pub struct RunnerSetYAMLConfig {
    /// The slug of the organisation, repository or enterprise.
    pub name: String,
    pub github_base_uri: String,
    pub github_pat: String,
    pub webhook_endpoint: String,
}

/// What a runner set belongs to.
#[derive(Debug, Clone, Copy, PartialEq, Eq)]
pub enum RunnerSetKind {
    Org,
    Repo,
    Enterprise,
}

/// Why a configuration file is of no use.
#[derive(Debug, PartialEq, Eq)]
pub enum ConfigError {
    /// The file names no organisation, repository or enterprise.
    NoRunnerSets,
}

impl ConfigError {
    /// The error in words.
    pub open spec fn message_text(self) -> Seq<char> {
        match self {
            ConfigError::NoRunnerSets =>
                "At least one repo, org or enterprise needs to be defined."@,
        }
    }

    /// The error in words.
    pub fn message(&self) -> (text: String)
        ensures
            text@ == self.message_text(),
    {
        match self {
            ConfigError::NoRunnerSets => String::from_str(
                "At least one repo, org or enterprise needs to be defined.",
            ),
        }
    }
}

/// The number of milliseconds that a `Duration` lasts.
pub uninterp spec fn duration_millis(duration: Duration) -> nat;

/// `Duration::from_millis` gives the duration that lasts so many
/// milliseconds.
pub assume_specification[ Duration::from_millis ](millis: u64) -> (duration: Duration)
    ensures
        duration_millis(duration) == millis,
;

/// The time in milliseconds that a request may take where the
/// configuration names none.
pub fn default_timeout_millis() -> (millis: u64)
    ensures
        millis == 30000,
{
    30000
}

/// The word that names a kind of runner set.
pub open spec fn kind_word(kind: RunnerSetKind) -> Seq<char> {
    match kind {
        RunnerSetKind::Org => "org: "@,
        RunnerSetKind::Repo => "repo: "@,
        RunnerSetKind::Enterprise => "enterprise: "@,
    }
}

/// The name of a runner set: what it belongs to and where GitHub is.
pub open spec fn runner_set_name(kind: RunnerSetKind, name: Seq<char>, github_base_uri: Seq<char>) -> Seq<
    char,
> {
    kind_word(kind) + name + "; github: "@ + github_base_uri
}

/// The runner set that an entry of the configuration file stands for.
pub open spec fn runner_set_of(kind: RunnerSetKind, entry: RunnerSetYAMLConfig) -> RunnerSetView {
    RunnerSetView {
        name: runner_set_name(kind, entry.name@, entry.github_base_uri@),
        github_endpoint: match kind {
            RunnerSetKind::Org => org_endpoint(entry.github_base_uri@, entry.name@),
            RunnerSetKind::Repo => repo_endpoint(entry.github_base_uri@, entry.name@),
            RunnerSetKind::Enterprise => enterprise_endpoint(entry.github_base_uri@, entry.name@),
        },
        webhook_endpoint: entry.webhook_endpoint@,
        github_pat: entry.github_pat@,
    }
}

/// The runner sets that a list of entries of one kind stands for.
pub open spec fn runner_sets_of(kind: RunnerSetKind, entries: Seq<RunnerSetYAMLConfig>) -> Seq<
    RunnerSetView,
> {
    Seq::new(entries.len(), |i: int| runner_set_of(kind, entries[i]))
}

/// The values of a list of runner sets.
pub open spec fn runner_set_views(runner_sets: Seq<RunnerSetConfig>) -> Seq<RunnerSetView> {
    Seq::new(runner_sets.len(), |i: int| runner_sets[i]@)
}

/// Turns an entry of the configuration file into a runner set.
pub fn runner_set_config(kind: RunnerSetKind, entry: RunnerSetYAMLConfig) -> (runner_set:
    RunnerSetConfig)
    ensures
        runner_set@ == runner_set_of(kind, entry),
{
    let mut name = match kind {
        RunnerSetKind::Org => String::from_str("org: "),
        RunnerSetKind::Repo => String::from_str("repo: "),
        RunnerSetKind::Enterprise => String::from_str("enterprise: "),
    };
    name.append(entry.name.as_str());
    name.append("; github: ");
    name.append(entry.github_base_uri.as_str());
    let github_endpoint = match kind {
        RunnerSetKind::Org => get_github_org_endpoint(
            entry.github_base_uri.as_str(),
            entry.name.as_str(),
        ),
        RunnerSetKind::Repo => get_github_repo_endpoint(
            entry.github_base_uri.as_str(),
            entry.name.as_str(),
        ),
        RunnerSetKind::Enterprise => get_github_enterprise_endpoint(
            entry.github_base_uri.as_str(),
            entry.name.as_str(),
        ),
    };
    RunnerSetConfig {
        name,
        github_endpoint,
        webhook_endpoint: entry.webhook_endpoint,
        github_pat: entry.github_pat,
    }
}

/// Adds the runner sets of the entries of one kind to `runner_sets`.
fn add_runner_sets(
    runner_sets: &mut Vec<RunnerSetConfig>,
    kind: RunnerSetKind,
    entries: Vec<RunnerSetYAMLConfig>,
)
    ensures
        runner_set_views(final(runner_sets)@) == runner_set_views(old(runner_sets)@)
            + runner_sets_of(kind, entries@),
{
    let ghost all = entries@;
    let ghost start = runner_set_views(runner_sets@);
    assert(runner_set_views(runner_sets@) =~= start + runner_sets_of(kind, all.subrange(0, 0)));
    for entry in iter: entries
        invariant
            iter.seq() == all,
            runner_set_views(runner_sets@) == start + runner_sets_of(
                kind,
                all.subrange(0, iter.index() as int),
            ),
    {
        let ghost done = iter.index() as int;
        let ghost before = runner_set_views(runner_sets@);
        runner_sets.push(runner_set_config(kind, entry));
        proof {
            assert(runner_set_views(runner_sets@) =~= before.push(runner_set_of(kind, entry)));
            assert(runner_sets_of(kind, all.subrange(0, done + 1)) =~= runner_sets_of(
                kind,
                all.subrange(0, done),
            ).push(runner_set_of(kind, entry)));
            assert(runner_set_views(runner_sets@) =~= start + runner_sets_of(
                kind,
                all.subrange(0, done + 1),
            ));
        }
    }
    proof {
        assert(all.subrange(0, all.len() as int) =~= all);
    }
}

/// Turns the configuration file into the settings of the monitor: the
/// organisations first, then the repositories, then the enterprises.
/// Alerts go out over HTTPS only.
///
/// Fails if the file names no organisation, repository or enterprise.
pub fn build_config(yml: YAMLConfig) -> (built: Result<Config, ConfigError>)
    ensures
        built is Ok <==> yml.orgs@.len() + yml.repos@.len() + yml.enterprises@.len() > 0,
        built matches Err(error) ==> error == ConfigError::NoRunnerSets,
        built matches Ok(cfg) ==> {
            &&& runner_set_views(cfg.runner_sets@) == runner_sets_of(
                RunnerSetKind::Org,
                yml.orgs@,
            ) + runner_sets_of(RunnerSetKind::Repo, yml.repos@) + runner_sets_of(
                RunnerSetKind::Enterprise,
                yml.enterprises@,
            )
            &&& duration_millis(cfg.github_timeout) == yml.github_timeout_millis
            &&& duration_millis(cfg.inbound_timeout) == yml.inbound_timeout_millis
            &&& cfg.created_template_path == yml.created_template_path
            &&& cfg.removed_template_path == yml.removed_template_path
            &&& cfg.online_template_path == yml.online_template_path
            &&& cfg.offline_template_path == yml.offline_template_path
            &&& cfg.grace_period == yml.grace_period
            &&& !cfg.allow_http
        },
{
    let mut runner_sets: Vec<RunnerSetConfig> = Vec::new();
    assert(runner_set_views(runner_sets@) =~= Seq::<RunnerSetView>::empty());
    add_runner_sets(&mut runner_sets, RunnerSetKind::Org, yml.orgs);
    add_runner_sets(&mut runner_sets, RunnerSetKind::Repo, yml.repos);
    add_runner_sets(&mut runner_sets, RunnerSetKind::Enterprise, yml.enterprises);
    assert(runner_set_views(runner_sets@) =~= runner_sets_of(RunnerSetKind::Org, yml.orgs@)
        + runner_sets_of(RunnerSetKind::Repo, yml.repos@) + runner_sets_of(
        RunnerSetKind::Enterprise,
        yml.enterprises@,
    ));
    if runner_sets.len() == 0 {
        return Err(ConfigError::NoRunnerSets);
    }
    Ok(
        Config {
            runner_sets,
            github_timeout: Duration::from_millis(yml.github_timeout_millis),
            inbound_timeout: Duration::from_millis(yml.inbound_timeout_millis),
            created_template_path: yml.created_template_path,
            removed_template_path: yml.removed_template_path,
            online_template_path: yml.online_template_path,
            offline_template_path: yml.offline_template_path,
            grace_period: yml.grace_period,
            allow_http: false,
        },
    )
}

} // verus!
