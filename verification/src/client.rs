//! How the HTTP clients are to be set up: the one that asks GitHub for
//! runners and the ones that bring alerts to the webhook.

use crate::structs::Config;
use std::time::Duration;
use vstd::prelude::*;
use vstd::string::StringExecFns;

verus! {

/// What an HTTP client is built from.
#[derive(Debug)]
pub struct ClientSettings {
    /// Refuses every URL that is not HTTPS.
    pub https_only: bool,
    pub user_agent: String,
    /// The headers that go with every request: name and value.
    pub default_headers: Vec<(String, String)>,
    pub timeout: Duration,
}

/// The values of a list of headers.
pub open spec fn header_views(headers: Seq<(String, String)>) -> Seq<(Seq<char>, Seq<char>)> {
    Seq::new(headers.len(), |i: int| (headers[i].0@, headers[i].1@))
}

/// The headers of a request to GitHub that is signed with the token `pat`.
pub open spec fn github_headers(pat: Seq<char>) -> Seq<(Seq<char>, Seq<char>)> {
    seq![
        ("Accept"@, "application/vnd.github+json"@),
        ("Authorization"@, "Bearer "@ + pat),
        ("X-GitHub-Api-Version"@, "2022-11-28"@),
    ]
}

/// The settings of the client that asks GitHub for runners. It signs its
/// requests with the token `pat` and takes plain HTTP only where
/// `allow_http` says so.
pub fn github_client_settings(timeout: Duration, pat: &str, allow_http: bool) -> (settings:
    ClientSettings)
    ensures
        settings.https_only == !allow_http,
        settings.user_agent@ == "github uptime monitor"@,
        header_views(settings.default_headers@) == github_headers(pat@),
        settings.timeout == timeout,
{
    let mut authorization = String::from_str("Bearer ");
    authorization.append(pat);
    let mut default_headers: Vec<(String, String)> = Vec::new();
    default_headers.push(
        (String::from_str("Accept"), String::from_str("application/vnd.github+json")),
    );
    default_headers.push((String::from_str("Authorization"), authorization));
    default_headers.push(
        (String::from_str("X-GitHub-Api-Version"), String::from_str("2022-11-28")),
    );
    assert(header_views(default_headers@) =~= github_headers(pat@));
    ClientSettings {
        https_only: !allow_http,
        user_agent: String::from_str("github uptime monitor"),
        default_headers,
        timeout,
    }
}

/// The settings of the client that brings plain alerts, those without a
/// template, to the webhook. It takes HTTPS only, whatever the settings of
/// the monitor say: the endpoint holds a secret. It sends no headers of
/// its own.
pub fn plain_inbound_client_settings(cfg: &Config) -> (settings: ClientSettings)
    ensures
        settings.https_only,
        settings.user_agent@ == "github uptime monitor"@,
        settings.default_headers@.len() == 0,
        settings.timeout == cfg.inbound_timeout,
{
    ClientSettings {
        https_only: true,
        user_agent: String::from_str("github uptime monitor"),
        default_headers: Vec::new(),
        timeout: cfg.inbound_timeout,
    }
}

/// The settings of the client that brings rendered alerts to the webhook.
/// It sends no headers of its own and takes plain HTTP only where the
/// settings of the monitor allow it.
pub fn inbound_client_settings(cfg: &Config) -> (settings: ClientSettings)
    ensures
        settings.https_only == !cfg.allow_http,
        settings.user_agent@ == "gh_runner_uptime v0.1.0"@,
        settings.default_headers@.len() == 0,
        settings.timeout == cfg.inbound_timeout,
{
    ClientSettings {
        https_only: !cfg.allow_http,
        user_agent: String::from_str("gh_runner_uptime v0.1.0"),
        default_headers: Vec::new(),
        timeout: cfg.inbound_timeout,
    }
}

} // verus!
