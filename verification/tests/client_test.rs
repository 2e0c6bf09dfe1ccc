use gh_runner_uptime::client::{
    github_client_settings, inbound_client_settings, plain_inbound_client_settings,
};
use gh_runner_uptime::structs::Config;
use std::time::Duration;

fn header(name: &str, value: &str) -> (String, String) {
    (String::from(name), String::from(value))
}

#[test]
fn github_client_signs_with_the_token() {
    let settings = github_client_settings(Duration::from_millis(30000), "ghp_example", false);
    assert!(settings.https_only);
    assert_eq!(settings.user_agent, "github uptime monitor");
    assert_eq!(settings.timeout, Duration::from_millis(30000));
    assert_eq!(
        settings.default_headers,
        vec![
            header("Accept", "application/vnd.github+json"),
            header("Authorization", "Bearer ghp_example"),
            header("X-GitHub-Api-Version", "2022-11-28"),
        ]
    );

    let settings = github_client_settings(Duration::from_millis(1), "", true);
    assert!(!settings.https_only);
    assert_eq!(settings.default_headers[1], header("Authorization", "Bearer "));
    assert_eq!(settings.timeout, Duration::from_millis(1));
}

#[test]
fn inbound_client_follows_the_settings() {
    let mut cfg = Config {
        runner_sets: vec![],
        github_timeout: Duration::from_millis(30),
        inbound_timeout: Duration::from_millis(1500),
        created_template_path: String::new(),
        removed_template_path: String::new(),
        online_template_path: String::new(),
        offline_template_path: String::new(),
        grace_period: 0,
        allow_http: false,
    };
    let settings = inbound_client_settings(&cfg);
    assert!(settings.https_only);
    assert_eq!(settings.user_agent, "gh_runner_uptime v0.1.0");
    assert!(settings.default_headers.is_empty());
    assert_eq!(settings.timeout, Duration::from_millis(1500));

    cfg.allow_http = true;
    assert!(!inbound_client_settings(&cfg).https_only);
}

#[test]
fn plain_inbound_client_refuses_http_whatever_the_settings() {
    for allow_http in [false, true] {
        let cfg = Config {
            runner_sets: vec![],
            github_timeout: Duration::from_millis(30),
            inbound_timeout: Duration::from_millis(1500),
            created_template_path: String::new(),
            removed_template_path: String::new(),
            online_template_path: String::new(),
            offline_template_path: String::new(),
            grace_period: 0,
            allow_http,
        };
        let settings = plain_inbound_client_settings(&cfg);
        assert!(settings.https_only);
        assert_eq!(settings.user_agent, "github uptime monitor");
        assert!(settings.default_headers.is_empty());
        assert_eq!(settings.timeout, Duration::from_millis(1500));
    }
}
