use fisher::providers::{Provider, StatusProvider, TestingProvider};
use fisher::requests::{IpAddress, Request, RequestType, WebRequest};

fn dummy_web_request() -> WebRequest {
    WebRequest {
        headers: Vec::new(),
        params: Vec::new(),
        source: IpAddress { o1: 127, o2: 0, o3: 0, o4: 1 },
        body: String::new(),
    }
}

fn ip(o1: u8, o2: u8, o3: u8, o4: u8) -> IpAddress {
    IpAddress { o1, o2, o3, o4 }
}

#[test]
fn test_new() {
    assert!(TestingProvider::new("").is_ok());
    assert!(TestingProvider::new("SOMETHING").is_ok());
    assert!(TestingProvider::new("FAIL").is_err());
}

#[test]
fn test_validate() {
    let p = TestingProvider::new("").unwrap();

    // Without any secret
    assert_eq!(p.validate(&Request::Web(dummy_web_request())), RequestType::ExecuteHook);

    // With the wrong secret
    let mut req = dummy_web_request();
    req.params.push(("secret".to_string(), "wrong!!!".to_string()));
    assert_eq!(p.validate(&Request::Web(req)), RequestType::Invalid);

    // With the correct secret
    let mut req = dummy_web_request();
    req.params.push(("secret".to_string(), "testing".to_string()));
    assert_eq!(p.validate(&Request::Web(req)), RequestType::ExecuteHook);

    // With the wrong IP address
    let mut req = dummy_web_request();
    req.params.push(("ip".to_string(), "127.1.1.1".to_string()));
    req.source = ip(127, 2, 2, 2);
    assert_eq!(p.validate(&Request::Web(req)), RequestType::Invalid);

    // With the right IP address
    let mut req = dummy_web_request();
    req.params.push(("ip".to_string(), "127.1.1.1".to_string()));
    req.source = ip(127, 1, 1, 1);
    assert_eq!(p.validate(&Request::Web(req)), RequestType::ExecuteHook);

    // With the request_type param but with no meaningful value
    let mut req = dummy_web_request();
    req.params.push(("request_type".to_string(), "something".to_string()));
    assert_eq!(p.validate(&Request::Web(req)), RequestType::ExecuteHook);

    // With the request_type param and the "ping" value
    let mut req = dummy_web_request();
    req.params.push(("request_type".to_string(), "ping".to_string()));
    assert_eq!(p.validate(&Request::Web(req)), RequestType::Ping);
}

#[test]
fn test_env() {
    let p = TestingProvider::new("").unwrap();

    // Without the env param
    assert_eq!(p.env(&Request::Web(dummy_web_request())), Vec::new());

    // With the env param
    let mut req = dummy_web_request();
    req.params.push(("env".to_string(), "test".to_string()));

    let should_be = vec![("ENV".to_string(), "test".to_string())];
    assert_eq!(p.env(&Request::Web(req)), should_be);
}

#[test]
fn test_trigger_status_hooks() {
    let p = TestingProvider::new("").unwrap();

    assert!(p.trigger_status_hooks(&Request::Web(dummy_web_request())));

    let mut req = dummy_web_request();
    req.params.push(("ignore_status_hooks".to_string(), "yes".to_string()));

    assert!(!p.trigger_status_hooks(&Request::Web(req)));
}

#[test]
fn provider_get_knows_testing_only() {
    assert!(matches!(Provider::get("Testing", "{}"), Ok(Provider::Testing(_))));
    assert!(Provider::get("Testing", "FAIL").is_err());
    assert!(Provider::get("GitHub", "{}").is_err());
}

#[test]
fn status_provider_filters_by_event() {
    let sp = StatusProvider::new(vec!["job_completed".to_string()]);
    assert!(sp.matches_event("job_completed"));
    assert!(!sp.matches_event("job_failed"));
    let empty = StatusProvider::new(Vec::new());
    assert!(!empty.matches_event("job_completed"));
}

#[test]
fn status_provider_rejects_web_requests() {
    let sp = Provider::Status(StatusProvider::new(vec!["job_completed".to_string()]));
    let req = Request::Web(dummy_web_request());
    assert_eq!(sp.validate(&req), RequestType::Invalid);
    assert!(!sp.trigger_status_hooks(&req));
    assert!(sp.env(&req).is_empty());
}

#[test]
fn testing_provider_fixture_is_testing() {
    assert!(matches!(fisher::providers::testing_provider(), Provider::Testing(_)));
}
