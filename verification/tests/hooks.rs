use fisher::hooks::{load_providers, mode_allows_hook, parse_header_line, Hook, Hooks};
use fisher::jobs::{Job, JobOutput};
use fisher::providers::{Provider, StatusProvider, TestingProvider};
use fisher::requests::{IpAddress, Request, RequestType, WebRequest};

fn testing() -> Provider {
    Provider::Testing(TestingProvider::new("{}").unwrap())
}

fn status_on(events: &[&str]) -> Provider {
    Provider::Status(StatusProvider::new(events.iter().map(|e| e.to_string()).collect()))
}

fn hook(name: &str, providers: Vec<Provider>) -> Hook {
    Hook { name: name.to_string(), exec_path: format!("/hooks/{}.sh", name), providers }
}

fn output(hook_name: &str, event: &str, success: bool, trigger: bool) -> JobOutput {
    JobOutput {
        hook_name: hook_name.to_string(),
        event: event.to_string(),
        trigger_status_hooks: trigger,
        success,
        exit_code: if success { 0 } else { 1 },
        signal: 0,
    }
}

#[test]
fn header_line_parses() {
    assert_eq!(
        parse_header_line("## Fisher-Testing: {}"),
        Some(("Testing".to_string(), "{}".to_string()))
    );
    assert_eq!(
        parse_header_line("## Fisher-Status: {\"events\": [\"job_completed\"]}"),
        Some(("Status".to_string(), "{\"events\": [\"job_completed\"]}".to_string()))
    );
    // The payload reaches to the line's last closing brace.
    assert_eq!(
        parse_header_line("## Fisher-Testing: {\"a\": {\"b\": 1}}"),
        Some(("Testing".to_string(), "{\"a\": {\"b\": 1}}".to_string()))
    );
}

#[test]
fn header_line_rejects_malformed_lines() {
    assert_eq!(parse_header_line(""), None);
    assert_eq!(parse_header_line("#!/bin/bash"), None);
    assert_eq!(parse_header_line("echo \"Hello world\""), None);
    assert_eq!(parse_header_line("## Fisher-: {}"), None);
    assert_eq!(parse_header_line("## Fisher-Testing {}"), None);
    assert_eq!(parse_header_line("## Fisher-Testing: no-braces"), None);
    assert_eq!(parse_header_line("## Fisher-Testing: {"), None);
}

#[test]
fn load_providers_reads_until_blank_line() {
    let lines = vec![
        "#!/bin/bash".to_string(),
        "## Fisher-Testing: {}".to_string(),
        "".to_string(),
        "## Fisher-Testing: {\"unread\": true}".to_string(),
    ];
    let ps = load_providers(&lines).unwrap();
    assert_eq!(ps.len(), 1);
    assert!(matches!(ps[0], Provider::Testing(_)));
}

#[test]
fn load_providers_rejects_unknown_names() {
    let lines = vec!["## Fisher-GitHub: {}".to_string()];
    assert!(load_providers(&lines).is_err());
}

#[test]
fn hook_file_permissions() {
    assert!(mode_allows_hook(0o755));
    assert!(mode_allows_hook(0o500));
    assert!(!mode_allows_hook(0o644));
    assert!(!mode_allows_hook(0o200));
}

#[test]
fn repository_lookup() {
    let mut hooks = Hooks::new();
    hooks.insert(hook("example", vec![testing()]));
    hooks.insert(hook("failing", vec![testing()]));
    assert_eq!(hooks.len(), 2);
    assert_eq!(hooks.get("example").unwrap().name, "example");
    assert_eq!(hooks.get("failing").unwrap().exec_path, "/hooks/failing.sh");
    assert!(hooks.get("missing").is_none());
    assert_eq!(hooks.hook_at(0).name, "example");
}

#[test]
fn status_chain_follows_completion() {
    let mut hooks = Hooks::new();
    hooks.insert(hook("example", vec![testing()]));
    hooks.insert(hook("notify", vec![status_on(&["job_completed"])]));

    let out = output("example", "job_completed", true, true);
    let jobs: Vec<Job> = hooks.jobs_after_output(&out);
    assert_eq!(jobs.len(), 1);
    assert_eq!(jobs[0].hook_name(), "notify");
    assert!(matches!(jobs[0].provider, Some(Provider::Status(_))));
    let Request::Web(w) = &jobs[0].request;
    assert_eq!(
        w.params,
        vec![
            ("event".to_string(), "job_completed".to_string()),
            ("hook_name".to_string(), "example".to_string()),
            ("exit_code".to_string(), "0".to_string()),
            ("signal".to_string(), "0".to_string()),
        ]
    );
}

#[test]
fn failed_jobs_fire_no_status_hooks() {
    let mut hooks = Hooks::new();
    hooks.insert(hook("failing", vec![testing()]));
    hooks.insert(hook("notify", vec![status_on(&["job_completed"])]));

    let out = output("failing", "job_completed", false, true);
    assert!(hooks.jobs_after_output(&out).is_empty());

    // A provider that declined status hooks fires none either.
    let out = output("failing", "job_completed", true, false);
    assert!(hooks.jobs_after_output(&out).is_empty());
}

#[test]
fn status_chain_length_matches_the_matching_hooks() {
    let mut hooks = Hooks::new();
    hooks.insert(hook("example", vec![testing()]));
    hooks.insert(hook("notify", vec![status_on(&["job_completed"])]));
    hooks.insert(hook("audit", vec![status_on(&["job_completed", "job_failed"])]));
    hooks.insert(hook("pager", vec![status_on(&["job_failed"])]));

    let out = output("example", "job_completed", true, true);
    let jobs = hooks.jobs_after_output(&out);
    // A chain of length two, in repository iteration order.
    assert_eq!(jobs.len(), 2);
    assert_eq!(jobs[0].hook_name(), "notify");
    assert_eq!(jobs[1].hook_name(), "audit");
}

#[test]
fn unknown_provider_error_names_it() {
    let lines = vec!["## Fisher-GitHub: {}".to_string()];
    match load_providers(&lines) {
        Err(fisher::errors::FisherError::ProviderNotFound(name)) => assert_eq!(name, "GitHub"),
        other => panic!("expected ProviderNotFound, got {:?}", other),
    }
}

#[test]
fn hook_validation_picks_the_first_accepting_provider() {
    let h = hook("example", vec![status_on(&["job_completed"]), testing()]);
    let req = Request::Web(WebRequest {
        headers: Vec::new(),
        params: Vec::new(),
        source: IpAddress { o1: 127, o2: 0, o3: 0, o4: 1 },
        body: String::new(),
    });
    // The status provider rejects web requests; the testing one accepts.
    assert_eq!(h.validate(&req), (RequestType::ExecuteHook, Some(1)));

    let mut params = Vec::new();
    params.push(("secret".to_string(), "nope".to_string()));
    let bad = Request::Web(WebRequest {
        headers: Vec::new(),
        params,
        source: IpAddress { o1: 127, o2: 0, o3: 0, o4: 1 },
        body: String::new(),
    });
    assert_eq!(h.validate(&bad), (RequestType::Invalid, None));

    let bare = hook("bare", Vec::new());
    assert_eq!(bare.validate(&req), (RequestType::ExecuteHook, None));
}
