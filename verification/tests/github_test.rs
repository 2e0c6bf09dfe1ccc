use gh_runner_uptime::github::{
    get_github_enterprise_endpoint, get_github_org_endpoint, get_github_repo_endpoint, key_runner,
    parse_runner, parse_runners, runner_seen_at, JSONLabelResponse, JSONRunnerResponse,
    JSONRunnerSetResponse,
};
use gh_runner_uptime::structs::{Runner, RunnerSetConfig};

fn runner(runner_set: &str, id: i64) -> Runner {
    Runner {
        utc_ping_time: String::from("1"),
        interpret_online: None,
        online_for_github_api: true,
        online_state_change_since: 0,
        runner_set: String::from(runner_set),
        id,
        name: String::from("runner-01"),
        os: String::from("linux"),
        labels: vec![String::from("some label")],
        webhook_endpoint: String::from("https://hooks.example/in"),
    }
}

fn runner_set() -> RunnerSetConfig {
    RunnerSetConfig {
        name: String::from("org: chrisTestOrg; github: https://github.com/api/v3"),
        github_endpoint: String::from("https://github.com/api/v3/orgs/chrisTestOrg/actions/runners"),
        webhook_endpoint: String::from("https://hooks.example/in?token=abc"),
        github_pat: String::from("ghp_example"),
    }
}

fn label(id: i64, name: &str) -> JSONLabelResponse {
    JSONLabelResponse { id, name: String::from(name), type_field: String::from("read-only") }
}

fn answer(id: i64, name: &str, status: &str) -> JSONRunnerResponse {
    JSONRunnerResponse {
        id,
        name: String::from(name),
        os: String::from("linux"),
        status: String::from(status),
        busy: false,
        labels: vec![label(1, "self-hosted"), label(2, "x64")],
    }
}

#[test]
fn key_names_runner_set_and_id() {
    let (key, keyed) = key_runner(runner("org: chrisTestOrg; github: https://github.com/api/v3", 69));
    assert_eq!(key, "org: chrisTestOrg; github: https://github.com/api/v3; runner id: 69");
    assert_eq!(keyed, runner("org: chrisTestOrg; github: https://github.com/api/v3", 69));
}

#[test]
fn key_writes_every_id_in_decimal() {
    for id in [0i64, 7, 10, 12, 99, 100, 420, 2845, 1_000_000_007, -1, -10, -2845, i64::MAX, i64::MIN] {
        let (key, _) = key_runner(runner("set", id));
        assert_eq!(key, format!("{}; runner id: {}", "set", id));
    }
    assert_eq!(key_runner(runner("", 0)).0, "; runner id: 0");
    assert_eq!(key_runner(runner("set", i64::MIN)).0, "set; runner id: -9223372036854775808");
    assert_eq!(key_runner(runner("set", i64::MAX)).0, "set; runner id: 9223372036854775807");
}

#[test]
fn keys_tell_runner_sets_and_ids_apart() {
    let pairs = [
        ("a", 1i64),
        ("a", 11),
        ("a", -1),
        ("a; runner id: 1", 1),
        ("a; runner id:", 1),
        ("b", 1),
        ("", 1),
    ];
    for (i, left) in pairs.iter().enumerate() {
        for (j, right) in pairs.iter().enumerate() {
            let same = key_runner(runner(left.0, left.1)).0 == key_runner(runner(right.0, right.1)).0;
            assert_eq!(same, i == j);
        }
    }
}

#[test]
fn endpoints_follow_the_rest_api() {
    assert_eq!(
        get_github_repo_endpoint("https://api.github.com", "octocat/hello"),
        "https://api.github.com/repos/octocat/hello/actions/runners"
    );
    assert_eq!(
        get_github_org_endpoint("https://github.com/api/v3", "chrisTestOrg"),
        "https://github.com/api/v3/orgs/chrisTestOrg/actions/runners"
    );
    assert_eq!(
        get_github_enterprise_endpoint("https://github.com/api/v3", "acme"),
        "https://github.com/api/v3/enterprises/acme/actions/runners"
    );
    assert_eq!(get_github_repo_endpoint("", ""), "/repos//actions/runners");
}

#[test]
fn answer_becomes_runner() {
    let (key, parsed) = runner_seen_at(
        answer(69, "runner-01", "online"),
        &runner_set(),
        false,
        String::from("2024-05-01T10:00:00+00:00"),
    );
    assert_eq!(key, "org: chrisTestOrg; github: https://github.com/api/v3; runner id: 69");
    assert_eq!(
        parsed,
        Runner {
            utc_ping_time: String::from("2024-05-01T10:00:00+00:00"),
            interpret_online: None,
            online_for_github_api: true,
            online_state_change_since: 0,
            runner_set: String::from("org: chrisTestOrg; github: https://github.com/api/v3"),
            id: 69,
            name: String::from("runner-01"),
            os: String::from("linux"),
            labels: vec![String::from("self-hosted"), String::from("x64")],
            webhook_endpoint: String::from("https://hooks.example/in?token=abc"),
        }
    );
}

#[test]
fn only_the_status_online_counts_as_online() {
    for (status, online) in
        [("online", true), ("offline", false), ("Online", false), ("", false), ("online ", false)]
    {
        let (_, parsed) =
            runner_seen_at(answer(1, "r", status), &runner_set(), true, String::from("t"));
        assert_eq!(parsed.online_for_github_api, online);
        assert_eq!(parsed.interpret_online, Some(online));
        let (_, parsed) =
            runner_seen_at(answer(1, "r", status), &runner_set(), false, String::from("t"));
        assert_eq!(parsed.online_for_github_api, online);
        assert_eq!(parsed.interpret_online, None);
    }
}

#[test]
fn parsed_runner_carries_the_time_of_the_clock() {
    let (key, parsed) = parse_runner(answer(12, "runner-02", "offline"), &runner_set(), true);
    assert_eq!(key, "org: chrisTestOrg; github: https://github.com/api/v3; runner id: 12");
    let seen = chrono::DateTime::parse_from_rfc3339(&parsed.utc_ping_time).unwrap();
    assert_eq!(seen.offset().local_minus_utc(), 0);
    assert!(seen.timestamp() > 1_600_000_000);
    let (_, expected) = runner_seen_at(
        answer(12, "runner-02", "offline"),
        &runner_set(),
        true,
        parsed.utc_ping_time.clone(),
    );
    assert_eq!(parsed, expected);
}

#[test]
fn answers_become_a_snapshot() {
    let response = JSONRunnerSetResponse {
        runners: vec![
            answer(1, "first", "online"),
            answer(2, "second", "offline"),
            answer(1, "first again", "offline"),
        ],
    };
    let runners = parse_runners(response, &runner_set(), true);
    assert_eq!(runners.len(), 2);
    let first = runners
        .get(&String::from("org: chrisTestOrg; github: https://github.com/api/v3; runner id: 1"))
        .unwrap();
    // of two answers with one id the later one stays
    assert_eq!(first.name, "first again");
    assert_eq!(first.interpret_online, Some(false));
    let second = runners
        .get(&String::from("org: chrisTestOrg; github: https://github.com/api/v3; runner id: 2"))
        .unwrap();
    assert_eq!(second.name, "second");
    assert_eq!(second.online_for_github_api, false);
    assert_eq!(second.labels, vec![String::from("self-hosted"), String::from("x64")]);
    assert!(!runners
        .contains_key(&String::from("org: chrisTestOrg; github: https://github.com/api/v3; runner id: 3")));

    let none = parse_runners(JSONRunnerSetResponse { runners: vec![] }, &runner_set(), false);
    assert!(none.is_empty());
}
