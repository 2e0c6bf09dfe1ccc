use gh_runner_uptime::alert::{alert_all_changes_and_update_grace_period, AlertHandler};
use gh_runner_uptime::github::key_runner;
use gh_runner_uptime::inbound::inbound_request_body;
use gh_runner_uptime::outbox::Outbox;
use gh_runner_uptime::runner_map::RunnerMap;
use gh_runner_uptime::structs::{Config, Runner, RunnerStateChange};
use serde::ser::SerializeStruct;
use serde::{Serialize, Serializer};
use std::collections::hash_set::HashSet;
use std::time::Duration;

// these tests use the utc_ping_time field in the Runner struct to differentiate different
// simulated pings and check their order
//
// A simple vector can't be used because the order in which the alerts are sent for a single ping is
// undefined.

// the webhook message body of a runner; the webhook endpoint contains a secret key and is left out
struct RunnerBody<'a>(&'a Runner);

impl Serialize for RunnerBody<'_> {
    fn serialize<S: Serializer>(&self, serializer: S) -> Result<S::Ok, S::Error> {
        let runner = self.0;
        let mut body = serializer.serialize_struct("Runner", 9)?;
        body.serialize_field("utc_ping_time", &runner.utc_ping_time)?;
        body.serialize_field("interpret_online", &runner.interpret_online)?;
        body.serialize_field("online_for_github_api", &runner.online_for_github_api)?;
        body.serialize_field("online_state_change_since", &runner.online_state_change_since)?;
        body.serialize_field("runner_set", &runner.runner_set)?;
        body.serialize_field("id", &runner.id)?;
        body.serialize_field("name", &runner.name)?;
        body.serialize_field("os", &runner.os)?;
        body.serialize_field("labels", &runner.labels)?;
        body.end()
    }
}

fn runner_json(runner: Option<&Runner>) -> String {
    match runner {
        Some(runner) => serde_json::to_string_pretty(&RunnerBody(runner)).unwrap(),
        None => String::new(),
    }
}

// stands in for the inbound server: every request body has to be an awaited one
struct InboundMock {
    awaited_messages: HashSet<&'static str>,
    endpoint: String,
}

impl AlertHandler for InboundMock {
    fn send_alert(&mut self, _cfg: &Config, change: RunnerStateChange) -> Result<(), String> {
        assert_eq!(change.webhook_endpoint(), &self.endpoint);
        let msg = change.message(
            &runner_json(change.old_runner()),
            &runner_json(change.new_runner()),
        );
        let payload = inbound_request_body(change.summary(), &msg).unwrap();
        println!("\nreceived payload:\n> {:#?}\n", payload.replace("\n", "\n> "));
        assert!(self.awaited_messages.remove(payload.as_str()));
        Ok(())
    }
}

fn runner_map<const N: usize>(entries: [(String, Runner); N]) -> RunnerMap {
    RunnerMap::from_entries(Vec::from(entries))
}

#[test]
fn alert_test_alert_grace_0_test() {
    let grace_period = 0;
    let inbound_address_tcp = String::from("127.0.0.1:9000");
    let inbound_address_http = format!("http://{}", inbound_address_tcp);
    let states: Vec<RunnerMap> = vec![
        // initial setup
        runner_map([key_runner(Runner {
            utc_ping_time: String::from("1"),
            // the initial interpret_online needs to be set
            interpret_online: Some(true),
            online_for_github_api: true,
            online_state_change_since: 0,
            runner_set: String::from("org: chrisTestOrg; github: https://github.com/api/v3"),
            id: 69,
            name: String::from("runner-01"),
            os: String::from("linux"),
            labels: vec![String::from("some label")],
            webhook_endpoint: inbound_address_http.clone(),
        })]),
        // runner went offline
        runner_map([key_runner(Runner {
            utc_ping_time: String::from("2"),
            interpret_online: None,
            online_for_github_api: false,
            online_state_change_since: 0,
            runner_set: String::from("org: chrisTestOrg; github: https://github.com/api/v3"),
            id: 69,
            name: String::from("runner-01"),
            os: String::from("linux"),
            labels: vec![String::from("some label")],
            webhook_endpoint: inbound_address_http.clone(),
        })]),
        // runner removed
        runner_map([]),
        // runner added
        runner_map([
            key_runner(Runner {
                utc_ping_time: String::from("3"),
                interpret_online: None,
                online_for_github_api: true,
                online_state_change_since: 0,
                runner_set: String::from(
                    "org: chrisOtherTestOrg; github: https://github.com/api/v3",
                ),
                id: 420,
                name: String::from("runner-01"),
                os: String::from("linux"),
                labels: vec![String::from("some label")],
                webhook_endpoint: inbound_address_http.clone(),
            }),
            key_runner(Runner {
                utc_ping_time: String::from("3"),
                interpret_online: None,
                online_for_github_api: false,
                online_state_change_since: 0,
                runner_set: String::from(
                    "org: chrisOtherTestOrg; github: https://github.com/api/v3",
                ),
                id: 12,
                name: String::from("runner-01"),
                os: String::from("linux"),
                labels: vec![String::from("some label")],
                webhook_endpoint: inbound_address_http.clone(),
            }),
        ]),
        // nothing changed
        runner_map([
            key_runner(Runner {
                utc_ping_time: String::from("4"),
                interpret_online: None,
                online_for_github_api: true,
                online_state_change_since: 0,
                runner_set: String::from(
                    "org: chrisOtherTestOrg; github: https://github.com/api/v3",
                ),
                id: 420,
                name: String::from("runner-01"),
                // os changes don't cause an alert
                os: String::from("TempleOS"),
                // label changes don't cause an alert
                labels: vec![String::from("some other label")],
                webhook_endpoint: inbound_address_http.clone(),
            }),
            key_runner(Runner {
                utc_ping_time: String::from("4"),
                interpret_online: None,
                online_for_github_api: false,
                online_state_change_since: 0,
                runner_set: String::from(
                    "org: chrisOtherTestOrg; github: https://github.com/api/v3",
                ),
                id: 12,
                name: String::from("runner-01"),
                os: String::from("linux"),
                // label changes don't cause an alert
                labels: vec![String::from("some other label")],
                webhook_endpoint: inbound_address_http.clone(),
            }),
        ]),
        // one runner went offline
        runner_map([
            key_runner(Runner {
                utc_ping_time: String::from("5"),
                interpret_online: None,
                online_for_github_api: false,
                online_state_change_since: 0,
                runner_set: String::from(
                    "org: chrisOtherTestOrg; github: https://github.com/api/v3",
                ),
                id: 420,
                name: String::from("runner-01"),
                os: String::from("linux"),
                labels: vec![String::from("some label")],
                webhook_endpoint: inbound_address_http.clone(),
            }),
            key_runner(Runner {
                utc_ping_time: String::from("5"),
                interpret_online: None,
                online_for_github_api: false,
                online_state_change_since: 0,
                runner_set: String::from(
                    "org: chrisOtherTestOrg; github: https://github.com/api/v3",
                ),
                id: 12,
                name: String::from("runner-01"),
                os: String::from("linux"),
                labels: vec![String::from("some label")],
                webhook_endpoint: inbound_address_http.clone(),
            }),
        ]),
        // other runner came online
        runner_map([
            key_runner(Runner {
                utc_ping_time: String::from("6"),
                interpret_online: None,
                online_for_github_api: false,
                online_state_change_since: 0,
                runner_set: String::from(
                    "org: chrisOtherTestOrg; github: https://github.com/api/v3",
                ),
                id: 420,
                name: String::from("runner-01"),
                os: String::from("linux"),
                labels: vec![String::from("some label")],
                webhook_endpoint: inbound_address_http.clone(),
            }),
            key_runner(Runner {
                utc_ping_time: String::from("6"),
                interpret_online: None,
                online_for_github_api: true,
                online_state_change_since: 0,
                runner_set: String::from(
                    "org: chrisOtherTestOrg; github: https://github.com/api/v3",
                ),
                id: 12,
                name: String::from("runner-01"),
                os: String::from("linux"),
                labels: vec![String::from("some label")],
                webhook_endpoint: inbound_address_http.clone(),
            }),
        ]),
    ];
    let expected_final_state = runner_map([
        key_runner(Runner {
            utc_ping_time: String::from("6"),
            interpret_online: Some(false),
            online_for_github_api: false,
            online_state_change_since: 0,
            runner_set: String::from("org: chrisOtherTestOrg; github: https://github.com/api/v3"),
            id: 420,
            name: String::from("runner-01"),
            os: String::from("linux"),
            labels: vec![String::from("some label")],
            webhook_endpoint: inbound_address_http.clone(),
        }),
        key_runner(Runner {
            utc_ping_time: String::from("6"),
            interpret_online: Some(true),
            online_for_github_api: true,
            online_state_change_since: 0,
            runner_set: String::from("org: chrisOtherTestOrg; github: https://github.com/api/v3"),
            id: 12,
            name: String::from("runner-01"),
            os: String::from("linux"),
            labels: vec![String::from("some label")],
            webhook_endpoint: inbound_address_http.clone(),
        }),
    ]);
    let awaited_messages: HashSet<&str> = HashSet::from([
        r#"[{"summary":"Runner went Offline","event_body":"Old Runner:\n{\n  \"utc_ping_time\": \"1\",\n  \"interpret_online\": true,\n  \"online_for_github_api\": true,\n  \"online_state_change_since\": 0,\n  \"runner_set\": \"org: chrisTestOrg; github: https://github.com/api/v3\",\n  \"id\": 69,\n  \"name\": \"runner-01\",\n  \"os\": \"linux\",\n  \"labels\": [\n    \"some label\"\n  ]\n}\n\nNew Runner:\n{\n  \"utc_ping_time\": \"2\",\n  \"interpret_online\": false,\n  \"online_for_github_api\": false,\n  \"online_state_change_since\": 0,\n  \"runner_set\": \"org: chrisTestOrg; github: https://github.com/api/v3\",\n  \"id\": 69,\n  \"name\": \"runner-01\",\n  \"os\": \"linux\",\n  \"labels\": [\n    \"some label\"\n  ]\n}","type":"github_monitor"}]"#,
        r#"[{"summary":"Removed Runner","event_body":"Now removed Runner:\n{\n  \"utc_ping_time\": \"2\",\n  \"interpret_online\": false,\n  \"online_for_github_api\": false,\n  \"online_state_change_since\": 0,\n  \"runner_set\": \"org: chrisTestOrg; github: https://github.com/api/v3\",\n  \"id\": 69,\n  \"name\": \"runner-01\",\n  \"os\": \"linux\",\n  \"labels\": [\n    \"some label\"\n  ]\n}","type":"github_monitor"}]"#,
        r#"[{"summary":"Created new Runner","event_body":"Now created Runner:\n{\n  \"utc_ping_time\": \"3\",\n  \"interpret_online\": false,\n  \"online_for_github_api\": false,\n  \"online_state_change_since\": 0,\n  \"runner_set\": \"org: chrisOtherTestOrg; github: https://github.com/api/v3\",\n  \"id\": 12,\n  \"name\": \"runner-01\",\n  \"os\": \"linux\",\n  \"labels\": [\n    \"some label\"\n  ]\n}","type":"github_monitor"}]"#,
        r#"[{"summary":"Created new Runner","event_body":"Now created Runner:\n{\n  \"utc_ping_time\": \"3\",\n  \"interpret_online\": true,\n  \"online_for_github_api\": true,\n  \"online_state_change_since\": 0,\n  \"runner_set\": \"org: chrisOtherTestOrg; github: https://github.com/api/v3\",\n  \"id\": 420,\n  \"name\": \"runner-01\",\n  \"os\": \"linux\",\n  \"labels\": [\n    \"some label\"\n  ]\n}","type":"github_monitor"}]"#,
        r#"[{"summary":"Runner went Offline","event_body":"Old Runner:\n{\n  \"utc_ping_time\": \"4\",\n  \"interpret_online\": true,\n  \"online_for_github_api\": true,\n  \"online_state_change_since\": 0,\n  \"runner_set\": \"org: chrisOtherTestOrg; github: https://github.com/api/v3\",\n  \"id\": 420,\n  \"name\": \"runner-01\",\n  \"os\": \"TempleOS\",\n  \"labels\": [\n    \"some other label\"\n  ]\n}\n\nNew Runner:\n{\n  \"utc_ping_time\": \"5\",\n  \"interpret_online\": false,\n  \"online_for_github_api\": false,\n  \"online_state_change_since\": 0,\n  \"runner_set\": \"org: chrisOtherTestOrg; github: https://github.com/api/v3\",\n  \"id\": 420,\n  \"name\": \"runner-01\",\n  \"os\": \"linux\",\n  \"labels\": [\n    \"some label\"\n  ]\n}","type":"github_monitor"}]"#,
        r#"[{"summary":"Runner came Online","event_body":"Old Runner:\n{\n  \"utc_ping_time\": \"5\",\n  \"interpret_online\": false,\n  \"online_for_github_api\": false,\n  \"online_state_change_since\": 0,\n  \"runner_set\": \"org: chrisOtherTestOrg; github: https://github.com/api/v3\",\n  \"id\": 12,\n  \"name\": \"runner-01\",\n  \"os\": \"linux\",\n  \"labels\": [\n    \"some label\"\n  ]\n}\n\nNew Runner:\n{\n  \"utc_ping_time\": \"6\",\n  \"interpret_online\": true,\n  \"online_for_github_api\": true,\n  \"online_state_change_since\": 0,\n  \"runner_set\": \"org: chrisOtherTestOrg; github: https://github.com/api/v3\",\n  \"id\": 12,\n  \"name\": \"runner-01\",\n  \"os\": \"linux\",\n  \"labels\": [\n    \"some label\"\n  ]\n}","type":"github_monitor"}]"#,
    ]);

    let mut inbound = Outbox::new(InboundMock {
        awaited_messages,
        endpoint: inbound_address_http.clone(),
    });
    alert_test_uptime(states, grace_period, expected_final_state, &mut inbound);
    assert!(inbound.handler().awaited_messages.is_empty());
    assert_eq!(inbound_address_tcp, "127.0.0.1:9000");
}

// takes the RunnerMaps as get_all_runners would produce them
fn alert_test_uptime(
    states: Vec<RunnerMap>,
    grace_period: u8,
    expected_final_state: RunnerMap,
    inbound: &mut Outbox<InboundMock>,
) {
    let mut states = states.into_iter();
    // only used for send_alert
    let cfg = Config {
        runner_sets: vec![],
        github_timeout: Duration::from_millis(30),
        inbound_timeout: Duration::from_millis(30),
        created_template_path: String::new(),
        removed_template_path: String::new(),
        online_template_path: String::new(),
        offline_template_path: String::new(),
        grace_period: u32::from(grace_period),
        allow_http: true,
    };

    let mut runners = states.next().unwrap();
    for mut new_runners in states {
        alert_all_changes_and_update_grace_period(&cfg, &runners, &mut new_runners, inbound)
            .unwrap();
        runners = new_runners;
    }
    assert_eq!(runners, expected_final_state);
}
