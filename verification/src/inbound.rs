//! What an alert says: the words for each kind of change, the endpoint it
//! goes to, and the event that the inbound webhook takes.

use crate::alert::AlertError;
use crate::structs::{ChangeView, Config, Runner, RunnerStateChange, RunnerView};
use vstd::prelude::*;
use vstd::string::StringExecFns;

verus! {

/// `serde_json::Error`, which says why a value could not be written as
/// JSON.
#[verifier::external_type_specification]
#[verifier::external_body]
pub struct ExJsonError(serde_json::Error);

/// A text as a JSON string: in double quotes, with the characters escaped
/// that JSON does not take as they are.
pub uninterp spec fn json_string(text: Seq<char>) -> Seq<char>;

/// `serde_json::to_string` on a string slice: it succeeds, and the result
/// is the text as a JSON string. That is a function of the text alone. It
/// cannot fail, because a string slice is written straight into a byte
/// vector: no `Serialize` impl that could refuse, no map key, and a writer
/// that takes whatever it is given.
#[verifier::external_body]
fn to_json_string(text: &str) -> (written: Result<String, serde_json::Error>)
    ensures
        written is Ok,
        written matches Ok(json) ==> json@ == json_string(text@),
{
    serde_json::to_string(text)
}

/// The runner that the change found in the previous poll, if it speaks of
/// one.
pub open spec fn old_runner_of(change: ChangeView) -> Option<RunnerView> {
    match change {
        ChangeView::Created(_) => None,
        ChangeView::Removed(old_runner) => Some(old_runner),
        ChangeView::Offline(old_runner, _) => Some(old_runner),
        ChangeView::Online(old_runner, _) => Some(old_runner),
    }
}

/// The runner that the change found in the new poll, if it speaks of one.
pub open spec fn new_runner_of(change: ChangeView) -> Option<RunnerView> {
    match change {
        ChangeView::Created(new_runner) => Some(new_runner),
        ChangeView::Removed(_) => None,
        ChangeView::Offline(_, new_runner) => Some(new_runner),
        ChangeView::Online(_, new_runner) => Some(new_runner),
    }
}

/// The webhook endpoint that the alert about a change goes to: that of
/// the new runner or, for a runner that is gone, that of the old one.
pub open spec fn endpoint_of(change: ChangeView) -> Seq<char> {
    match change {
        ChangeView::Created(new_runner) => new_runner.webhook_endpoint,
        ChangeView::Removed(old_runner) => old_runner.webhook_endpoint,
        ChangeView::Offline(_, new_runner) => new_runner.webhook_endpoint,
        ChangeView::Online(_, new_runner) => new_runner.webhook_endpoint,
    }
}

/// The name of the template that renders a change.
pub open spec fn template_of(change: ChangeView) -> Seq<char> {
    match change {
        ChangeView::Created(_) => "created"@,
        ChangeView::Removed(_) => "removed"@,
        ChangeView::Offline(_, _) => "offline"@,
        ChangeView::Online(_, _) => "online"@,
    }
}

/// The template files of the settings, each with the name that its
/// template goes by.
pub open spec fn template_files_of(cfg: Config) -> Seq<(Seq<char>, Seq<char>)> {
    seq![
        (cfg.created_template_path@, "created"@),
        (cfg.removed_template_path@, "removed"@),
        (cfg.offline_template_path@, "offline"@),
        (cfg.online_template_path@, "online"@),
    ]
}

/// The summary line of the alert about a change.
pub open spec fn summary_of(change: ChangeView) -> Seq<char> {
    match change {
        ChangeView::Created(_) => "Created new Runner"@,
        ChangeView::Removed(_) => "Removed Runner"@,
        ChangeView::Offline(_, _) => "Runner went Offline"@,
        ChangeView::Online(_, _) => "Runner came Online"@,
    }
}

/// The text of the alert about a change, around the runners written as
/// JSON.
pub open spec fn message_of(
    change: ChangeView,
    old_runner_json: Seq<char>,
    new_runner_json: Seq<char>,
) -> Seq<char> {
    match change {
        ChangeView::Created(_) => "Now created Runner:\n"@ + new_runner_json,
        ChangeView::Removed(_) => "Now removed Runner:\n"@ + old_runner_json,
        ChangeView::Offline(_, _) => "Old Runner:\n"@ + old_runner_json + "\n\nNew Runner:\n"@
            + new_runner_json,
        ChangeView::Online(_, _) => "Old Runner:\n"@ + old_runner_json + "\n\nNew Runner:\n"@
            + new_runner_json,
    }
}

/// The body of the request that brings one event to the inbound webhook:
/// a JSON array of one object, around the summary and the text as JSON
/// strings.
pub open spec fn inbound_event(summary_json: Seq<char>, event_body_json: Seq<char>) -> Seq<char> {
    "[{\"summary\":"@ + summary_json + ",\"event_body\":"@ + event_body_json
        + ",\"type\":\"github_monitor\"}]"@
}

impl RunnerStateChange {
    /// The runner that the change found in the previous poll, if it
    /// speaks of one.
    pub fn old_runner(&self) -> (runner: Option<&Runner>)
        ensures
            match runner {
                Some(runner) => old_runner_of(self@) == Some(runner@),
                None => old_runner_of(self@) is None,
            },
    {
        match self {
            RunnerStateChange::Created(_) => None,
            RunnerStateChange::Removed(old_runner) => Some(old_runner),
            RunnerStateChange::Offline(old_runner, _) => Some(old_runner),
            RunnerStateChange::Online(old_runner, _) => Some(old_runner),
        }
    }

    /// The runner that the change found in the new poll, if it speaks of
    /// one.
    pub fn new_runner(&self) -> (runner: Option<&Runner>)
        ensures
            match runner {
                Some(runner) => new_runner_of(self@) == Some(runner@),
                None => new_runner_of(self@) is None,
            },
    {
        match self {
            RunnerStateChange::Created(new_runner) => Some(new_runner),
            RunnerStateChange::Removed(_) => None,
            RunnerStateChange::Offline(_, new_runner) => Some(new_runner),
            RunnerStateChange::Online(_, new_runner) => Some(new_runner),
        }
    }

    /// The webhook endpoint that the alert about the change goes to.
    pub fn webhook_endpoint(&self) -> (endpoint: &String)
        ensures
            endpoint@ == endpoint_of(self@),
    {
        match self {
            RunnerStateChange::Created(new_runner) => &new_runner.webhook_endpoint,
            RunnerStateChange::Removed(old_runner) => &old_runner.webhook_endpoint,
            RunnerStateChange::Offline(_, new_runner) => &new_runner.webhook_endpoint,
            RunnerStateChange::Online(_, new_runner) => &new_runner.webhook_endpoint,
        }
    }

    /// The name of the template that renders the change.
    pub fn template_name(&self) -> (name: &'static str)
        ensures
            name@ == template_of(self@),
    {
        match self {
            RunnerStateChange::Created(_) => "created",
            RunnerStateChange::Removed(_) => "removed",
            RunnerStateChange::Offline(_, _) => "offline",
            RunnerStateChange::Online(_, _) => "online",
        }
    }

    /// The summary line of the alert about the change.
    pub fn summary(&self) -> (summary: &'static str)
        ensures
            summary@ == summary_of(self@),
    {
        match self {
            RunnerStateChange::Created(_) => "Created new Runner",
            RunnerStateChange::Removed(_) => "Removed Runner",
            RunnerStateChange::Offline(_, _) => "Runner went Offline",
            RunnerStateChange::Online(_, _) => "Runner came Online",
        }
    }

    /// The text of the alert about the change, around its runners written
    /// as JSON. A change that speaks of one runner only leaves the other
    /// text aside.
    pub fn message(&self, old_runner_json: &str, new_runner_json: &str) -> (message: String)
        ensures
            message@ == message_of(self@, old_runner_json@, new_runner_json@),
    {
        match self {
            RunnerStateChange::Created(_) => {
                let mut message = String::from_str("Now created Runner:\n");
                message.append(new_runner_json);
                message
            },
            RunnerStateChange::Removed(_) => {
                let mut message = String::from_str("Now removed Runner:\n");
                message.append(old_runner_json);
                message
            },
            _ => {
                let mut message = String::from_str("Old Runner:\n");
                message.append(old_runner_json);
                message.append("\n\nNew Runner:\n");
                message.append(new_runner_json);
                message
            },
        }
    }
}

/// The template files to load, each with the name that its template goes
/// by.
pub fn template_files(cfg: &Config) -> (files: Vec<(String, &'static str)>)
    ensures
        files@.len() == 4,
        forall|i: int|
            0 <= i < 4 ==> (#[trigger] files@[i]).0@ == template_files_of(*cfg)[i].0 && files@[i].1@
                == template_files_of(*cfg)[i].1,
{
    let mut files: Vec<(String, &'static str)> = Vec::new();
    files.push((cfg.created_template_path.clone(), "created"));
    files.push((cfg.removed_template_path.clone(), "removed"));
    files.push((cfg.offline_template_path.clone(), "offline"));
    files.push((cfg.online_template_path.clone(), "online"));
    files
}

/// Whatever the change, the template that renders it is among the
/// template files of the settings.
pub proof fn lemma_every_change_has_its_template(cfg: Config, change: ChangeView)
    ensures
        exists|i: int|
            0 <= i < template_files_of(cfg).len() && (#[trigger] template_files_of(cfg)[i]).1
                == template_of(change),
{
    let files = template_files_of(cfg);
    match change {
        ChangeView::Created(_) => assert(files[0].1 == template_of(change)),
        ChangeView::Removed(_) => assert(files[1].1 == template_of(change)),
        ChangeView::Offline(_, _) => assert(files[2].1 == template_of(change)),
        ChangeView::Online(_, _) => assert(files[3].1 == template_of(change)),
    }
}

/// Puts a summary and a text, both written as JSON strings already, into
/// the body of a request to the inbound webhook.
pub fn frame_inbound_event(summary_json: &str, event_body_json: &str) -> (body: String)
    ensures
        body@ == inbound_event(summary_json@, event_body_json@),
{
    let mut body = String::from_str("[{\"summary\":");
    body.append(summary_json);
    body.append(",\"event_body\":");
    body.append(event_body_json);
    body.append(",\"type\":\"github_monitor\"}]");
    body
}

/// The body of the request that brings an alert to the inbound webhook:
/// one event around the summary and the text, each written as a JSON
/// string. It is made for every summary and text.
pub fn inbound_request_body(summary: &str, event_body: &str) -> (body: Result<String, AlertError>)
    ensures
        body matches Ok(text) && text@ == inbound_event(
            json_string(summary@),
            json_string(event_body@),
        ),
{
    let summary_json = match to_json_string(summary) {
        Ok(json) => json,
        Err(error) => { return Err(AlertError::NotificationError(error.to_string())); },
    };
    let event_body_json = match to_json_string(event_body) {
        Ok(json) => json,
        Err(error) => { return Err(AlertError::NotificationError(error.to_string())); },
    };
    Ok(frame_inbound_event(summary_json.as_str(), event_body_json.as_str()))
}

} // verus!
