use gh_runner_uptime::alert::AlertError;
use gh_runner_uptime::inbound::{frame_inbound_event, inbound_request_body, template_files};
use gh_runner_uptime::structs::{Config, Runner, RunnerStateChange};
use std::time::Duration;

fn runner(name: &str, endpoint: &str) -> Runner {
    Runner {
        utc_ping_time: String::from("1"),
        interpret_online: Some(true),
        online_for_github_api: true,
        online_state_change_since: 0,
        runner_set: String::from("set"),
        id: 1,
        name: String::from(name),
        os: String::from("linux"),
        labels: vec![],
        webhook_endpoint: String::from(endpoint),
    }
}

fn changes() -> [RunnerStateChange; 4] {
    [
        RunnerStateChange::Created(runner("new", "https://new.example")),
        RunnerStateChange::Removed(runner("old", "https://old.example")),
        RunnerStateChange::Offline(
            runner("old", "https://old.example"),
            runner("new", "https://new.example"),
        ),
        RunnerStateChange::Online(
            runner("old", "https://old.example"),
            runner("new", "https://new.example"),
        ),
    ]
}

#[test]
fn alert_goes_to_the_endpoint_of_the_latest_runner() {
    let [created, removed, offline, online] = changes();
    assert_eq!(created.webhook_endpoint(), "https://new.example");
    assert_eq!(removed.webhook_endpoint(), "https://old.example");
    assert_eq!(offline.webhook_endpoint(), "https://new.example");
    assert_eq!(online.webhook_endpoint(), "https://new.example");
}

#[test]
fn change_names_its_runners() {
    let [created, removed, offline, online] = changes();
    assert_eq!(created.old_runner(), None);
    assert_eq!(created.new_runner(), Some(&runner("new", "https://new.example")));
    assert_eq!(removed.old_runner(), Some(&runner("old", "https://old.example")));
    assert_eq!(removed.new_runner(), None);
    assert_eq!(offline.old_runner(), Some(&runner("old", "https://old.example")));
    assert_eq!(offline.new_runner(), Some(&runner("new", "https://new.example")));
    assert_eq!(online.old_runner(), Some(&runner("old", "https://old.example")));
    assert_eq!(online.new_runner(), Some(&runner("new", "https://new.example")));
}

#[test]
fn each_kind_of_change_has_its_template_and_summary() {
    let [created, removed, offline, online] = changes();
    assert_eq!(created.template_name(), "created");
    assert_eq!(removed.template_name(), "removed");
    assert_eq!(offline.template_name(), "offline");
    assert_eq!(online.template_name(), "online");
    assert_eq!(created.summary(), "Created new Runner");
    assert_eq!(removed.summary(), "Removed Runner");
    assert_eq!(offline.summary(), "Runner went Offline");
    assert_eq!(online.summary(), "Runner came Online");
}

#[test]
fn message_frames_the_runners() {
    let [created, removed, offline, online] = changes();
    assert_eq!(created.message("{old}", "{new}"), "Now created Runner:\n{new}");
    assert_eq!(removed.message("{old}", "{new}"), "Now removed Runner:\n{old}");
    assert_eq!(offline.message("{old}", "{new}"), "Old Runner:\n{old}\n\nNew Runner:\n{new}");
    assert_eq!(online.message("{old}", "{new}"), "Old Runner:\n{old}\n\nNew Runner:\n{new}");
    assert_eq!(created.message("", ""), "Now created Runner:\n");
}

#[test]
fn inbound_event_is_a_json_array_of_one_object() {
    assert_eq!(
        frame_inbound_event("\"s\"", "\"b\""),
        "[{\"summary\":\"s\",\"event_body\":\"b\",\"type\":\"github_monitor\"}]"
    );
    assert_eq!(
        inbound_request_body("Removed Runner", "gone"),
        Ok::<String, AlertError>(String::from(
            "[{\"summary\":\"Removed Runner\",\"event_body\":\"gone\",\"type\":\"github_monitor\"}]"
        ))
    );
}

#[test]
fn inbound_event_escapes_what_json_does_not_take() {
    let body = inbound_request_body("a \"b\" \\ c", "line\n\ttab {\"k\": 1} \u{1}").unwrap();
    assert_eq!(
        body,
        "[{\"summary\":\"a \\\"b\\\" \\\\ c\",\"event_body\":\"line\\n\\ttab {\\\"k\\\": 1} \\u0001\",\"type\":\"github_monitor\"}]"
    );
    // what went in comes out again
    let parsed: serde_json::Value = serde_json::from_str(&body).unwrap();
    assert_eq!(parsed[0]["summary"], "a \"b\" \\ c");
    assert_eq!(parsed[0]["event_body"], "line\n\ttab {\"k\": 1} \u{1}");
    assert_eq!(parsed[0]["type"], "github_monitor");
    assert_eq!(parsed.as_array().unwrap().len(), 1);
}

#[test]
fn every_kind_of_change_has_its_template_file() {
    let cfg = Config {
        runner_sets: vec![],
        github_timeout: Duration::from_millis(30),
        inbound_timeout: Duration::from_millis(30),
        created_template_path: String::from("t/created.json"),
        removed_template_path: String::from("t/removed.json"),
        online_template_path: String::from("t/online.json"),
        offline_template_path: String::from("t/offline.json"),
        grace_period: 0,
        allow_http: false,
    };
    let files = template_files(&cfg);
    assert_eq!(
        files,
        vec![
            (String::from("t/created.json"), "created"),
            (String::from("t/removed.json"), "removed"),
            (String::from("t/offline.json"), "offline"),
            (String::from("t/online.json"), "online"),
        ]
    );
    for change in changes() {
        assert!(files.iter().any(|file| file.1 == change.template_name()));
    }
}

#[test]
fn inbound_event_is_made_for_every_text() {
    for (summary, text) in [
        ("", ""),
        ("\u{0}", "\u{7f}\u{1f}"),
        ("Gr\u{fc}\u{df}e", "\u{1f980} \u{2028}"),
        ("\"\"\"", "\\\\"),
    ] {
        let body = inbound_request_body(summary, text).unwrap();
        let parsed: serde_json::Value = serde_json::from_str(&body).unwrap();
        assert_eq!(parsed.as_array().unwrap().len(), 1);
        assert_eq!(parsed[0].as_object().unwrap().len(), 3);
        assert_eq!(parsed[0]["summary"], summary);
        assert_eq!(parsed[0]["event_body"], text);
        assert_eq!(parsed[0]["type"], "github_monitor");
    }
    assert_eq!(
        inbound_request_body("", ""),
        Ok(String::from("[{\"summary\":\"\",\"event_body\":\"\",\"type\":\"github_monitor\"}]"))
    );
}
