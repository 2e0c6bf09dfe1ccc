use gh_runner_uptime::config::{
    build_config, default_timeout_millis, runner_set_config, ConfigError, RunnerSetKind,
    RunnerSetYAMLConfig, YAMLConfig,
};
use std::time::Duration;

fn entry(name: &str) -> RunnerSetYAMLConfig {
    RunnerSetYAMLConfig {
        name: String::from(name),
        github_base_uri: String::from("https://github.com/api/v3"),
        github_pat: format!("pat-of-{}", name),
        webhook_endpoint: format!("https://hooks.example/{}", name),
    }
}

fn file(
    orgs: Vec<RunnerSetYAMLConfig>,
    repos: Vec<RunnerSetYAMLConfig>,
    enterprises: Vec<RunnerSetYAMLConfig>,
) -> YAMLConfig {
    YAMLConfig {
        orgs,
        repos,
        enterprises,
        grace_period: 3,
        github_timeout_millis: default_timeout_millis(),
        inbound_timeout_millis: 1500,
        created_template_path: String::from("templates/created.json"),
        removed_template_path: String::from("templates/removed.json"),
        online_template_path: String::from("templates/online.json"),
        offline_template_path: String::from("templates/offline.json"),
    }
}

#[test]
fn default_timeout_is_half_a_minute() {
    assert_eq!(default_timeout_millis(), 30000);
}

#[test]
fn runner_set_is_named_after_kind_slug_and_github() {
    let org = runner_set_config(RunnerSetKind::Org, entry("chrisTestOrg"));
    assert_eq!(org.name, "org: chrisTestOrg; github: https://github.com/api/v3");
    assert_eq!(org.github_endpoint, "https://github.com/api/v3/orgs/chrisTestOrg/actions/runners");
    assert_eq!(org.webhook_endpoint, "https://hooks.example/chrisTestOrg");
    assert_eq!(org.github_pat, "pat-of-chrisTestOrg");

    let repo = runner_set_config(RunnerSetKind::Repo, entry("octocat/hello"));
    assert_eq!(repo.name, "repo: octocat/hello; github: https://github.com/api/v3");
    assert_eq!(
        repo.github_endpoint,
        "https://github.com/api/v3/repos/octocat/hello/actions/runners"
    );

    let enterprise = runner_set_config(RunnerSetKind::Enterprise, entry("acme"));
    assert_eq!(enterprise.name, "enterprise: acme; github: https://github.com/api/v3");
    assert_eq!(
        enterprise.github_endpoint,
        "https://github.com/api/v3/enterprises/acme/actions/runners"
    );
}

#[test]
fn config_lists_orgs_then_repos_then_enterprises() {
    let cfg = build_config(file(
        vec![entry("org-a"), entry("org-b")],
        vec![entry("owner/repo")],
        vec![entry("acme")],
    ))
    .unwrap();
    let names: Vec<&str> = cfg.runner_sets.iter().map(|set| set.name.as_str()).collect();
    assert_eq!(
        names,
        vec![
            "org: org-a; github: https://github.com/api/v3",
            "org: org-b; github: https://github.com/api/v3",
            "repo: owner/repo; github: https://github.com/api/v3",
            "enterprise: acme; github: https://github.com/api/v3",
        ]
    );
    assert_eq!(
        cfg.runner_sets[2].github_endpoint,
        "https://github.com/api/v3/repos/owner/repo/actions/runners"
    );
    assert_eq!(cfg.runner_sets[3].github_pat, "pat-of-acme");
    assert_eq!(cfg.github_timeout, Duration::from_millis(30000));
    assert_eq!(cfg.inbound_timeout, Duration::from_millis(1500));
    assert_eq!(cfg.created_template_path, "templates/created.json");
    assert_eq!(cfg.removed_template_path, "templates/removed.json");
    assert_eq!(cfg.online_template_path, "templates/online.json");
    assert_eq!(cfg.offline_template_path, "templates/offline.json");
    assert_eq!(cfg.grace_period, 3);
    assert!(!cfg.allow_http);
}

#[test]
fn config_needs_one_runner_set() {
    assert_eq!(build_config(file(vec![], vec![], vec![])).unwrap_err(), ConfigError::NoRunnerSets);
    assert!(build_config(file(vec![entry("a")], vec![], vec![])).is_ok());
    assert!(build_config(file(vec![], vec![entry("a/b")], vec![])).is_ok());
    assert!(build_config(file(vec![], vec![], vec![entry("a")])).is_ok());
}

#[test]
fn config_error_says_what_is_missing() {
    assert_eq!(
        ConfigError::NoRunnerSets.message(),
        "At least one repo, org or enterprise needs to be defined."
    );
}
