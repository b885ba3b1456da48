use fisher::options::FisherOptions;
use fisher::requests::{dummy_request, IpAddress, Request, WebRequest};
use fisher::text::{decimal_string, str_eq};

#[test]
fn decimal_rendering() {
    assert_eq!(decimal_string(0), "0");
    assert_eq!(decimal_string(7), "7");
    assert_eq!(decimal_string(10), "10");
    assert_eq!(decimal_string(65535), "65535");
    assert_eq!(decimal_string(1000000), "1000000");
}

#[test]
fn ip_address_text() {
    let ip = IpAddress { o1: 127, o2: 0, o3: 0, o4: 1 };
    assert_eq!(ip.to_text(), "127.0.0.1");
    let ip = IpAddress { o1: 255, o2: 10, o3: 0, o4: 254 };
    assert_eq!(ip.to_text(), "255.10.0.254");
}

#[test]
fn string_comparison() {
    assert!(str_eq("", ""));
    assert!(str_eq("testing", "testing"));
    assert!(!str_eq("testing", "testin"));
    assert!(!str_eq("testing", "Testing"));
}

#[test]
fn parameter_lookup() {
    let req = WebRequest {
        headers: Vec::new(),
        params: vec![
            ("secret".to_string(), "testing".to_string()),
            ("env".to_string(), "test".to_string()),
        ],
        source: IpAddress { o1: 127, o2: 0, o3: 0, o4: 1 },
        body: String::new(),
    };
    assert_eq!(req.get_param("secret"), Some(&"testing".to_string()));
    assert_eq!(req.get_param("env"), Some(&"test".to_string()));
    assert_eq!(req.get_param("missing"), None);
    assert!(req.has_param("env"));
    assert!(!req.has_param("ip"));
}

#[test]
fn dummy_request_is_empty_and_local() {
    let Request::Web(w) = dummy_request();
    assert!(w.headers.is_empty());
    assert!(w.params.is_empty());
    assert_eq!(w.source, IpAddress { o1: 127, o2: 0, o3: 0, o4: 1 });
    assert_eq!(w.body, "");
}

#[test]
fn default_options() {
    let opts = FisherOptions::default();
    assert_eq!(opts.bind, "127.0.0.1:8000");
    assert_eq!(opts.hooks_dir, "");
    assert_eq!(opts.max_threads, 1);
    assert!(opts.enable_health);
}

#[test]
fn duplicate_parameter_keys_resolve_to_the_first() {
    let req = WebRequest {
        headers: Vec::new(),
        params: vec![
            ("env".to_string(), "first".to_string()),
            ("env".to_string(), "second".to_string()),
        ],
        source: IpAddress { o1: 127, o2: 0, o3: 0, o4: 1 },
        body: String::new(),
    };
    assert_eq!(req.get_param("env"), Some(&"first".to_string()));
}
