use chroma_bridge::session::normalize_base_url;
use chroma_bridge::wire::{decode_created_effect_id, decode_session_uri};
use chroma_bridge::{
    Author, Category, ChromaRunner, ChromaRunnerInitializationSettings, HTTPMethod,
    HttpRequestError, HttpRequests, HttpResponse, InitError, InitRequest, Lifecycle, RequestBody,
    RunnerState, SupportedDevice,
};

fn descriptor() -> InitRequest {
    InitRequest {
        title: "T",
        description: "test",
        author: Author { name: "someone", contact: "someone@example.com" },
        device_supported: vec![SupportedDevice::Mouse],
        category: Category::Application,
    }
}

/// Runs the session-open step until the request is out, answers it with
/// `reply`, and runs the step again.
fn open_with(reply: Result<HttpResponse, HttpRequestError>) -> (Lifecycle, HttpRequests, Option<InitError>) {
    let mut lifecycle = Lifecycle::new(ChromaRunnerInitializationSettings::new(descriptor()));
    let mut requests = HttpRequests::new();
    assert!(lifecycle.update(&mut requests).is_none());
    assert_eq!(lifecycle.state(), RunnerState::Init);
    let started = requests.execute_requests();
    assert_eq!(started.len(), 1);
    started[0].sender.send(reply).unwrap();
    requests.gather_responses();
    let err = lifecycle.update(&mut requests);
    (lifecycle, requests, err)
}

#[test]
fn init_request_posts_the_descriptor() {
    let mut lifecycle = Lifecycle::new(ChromaRunnerInitializationSettings::new_with_init_url(
        "http://localhost:1/init",
        descriptor(),
    ));
    let mut requests = HttpRequests::new();
    assert!(lifecycle.update(&mut requests).is_none());
    let started = requests.execute_requests();
    assert_eq!(started.len(), 1);
    assert_eq!(started[0].request.method, HTTPMethod::Post);
    assert_eq!(started[0].request.url, "http://localhost:1/init");
    assert_eq!(started[0].request.body, RequestBody::Init(descriptor()));
    // Without an outcome the state machine waits.
    assert!(lifecycle.update(&mut requests).is_none());
    assert_eq!(lifecycle.state(), RunnerState::Init);
    assert!(requests.execute_requests().is_empty());
}

#[test]
fn default_init_url() {
    let s = ChromaRunnerInitializationSettings::new(descriptor());
    assert_eq!(s.init_url, "http://localhost:54235/razer/chromasdk");
}

#[test]
fn success_opens_session_with_normalized_base() {
    let body = br#"{"sessionid":1,"uri":"http://h/p"}"#.to_vec();
    let (lifecycle, _requests, err) = open_with(Ok(HttpResponse::new(200, body)));
    assert!(err.is_none());
    assert_eq!(lifecycle.state(), RunnerState::Running);
    let runner = lifecycle.runner().unwrap();
    assert_eq!(runner.root_url, "http://h/p/");
    assert_eq!(runner.get_session_url("mouse"), Some("http://h/p/mouse".to_string()));
}

#[test]
fn transport_failure_is_terminal() {
    let failure = HttpRequestError::RequestFailed("connection refused".to_string());
    let (mut lifecycle, mut requests, err) = open_with(Err(failure.clone()));
    match err {
        Some(InitError::RequestError(e)) => assert_eq!(e, failure),
        other => panic!("unexpected {other:?}"),
    }
    assert_eq!(lifecycle.state(), RunnerState::Error);
    for _ in 0..3 {
        assert!(lifecycle.update(&mut requests).is_none());
        requests.gather_responses();
        assert_eq!(lifecycle.state(), RunnerState::Error);
    }
    assert!(lifecycle.runner().is_none());
}

#[test]
fn undecodable_reply_is_a_parse_error() {
    let (lifecycle, _r, err) = open_with(Ok(HttpResponse::new(200, b"not json".to_vec())));
    assert!(matches!(err, Some(InitError::ParseError)));
    assert_eq!(lifecycle.state(), RunnerState::Error);
}

#[test]
fn session_id_is_ignored() {
    let (lifecycle, _r, err) = open_with(Ok(HttpResponse::new(200, br#"{"uri":"http://h/p"}"#.to_vec())));
    assert!(err.is_none());
    assert_eq!(lifecycle.state(), RunnerState::Running);
}

#[test]
fn reply_without_uri_is_a_parse_error() {
    let (lifecycle, _r, err) = open_with(Ok(HttpResponse::new(200, br#"{"sessionid":1}"#.to_vec())));
    assert!(matches!(err, Some(InitError::ParseError)));
    assert_eq!(lifecycle.state(), RunnerState::Error);
}

#[test]
fn bad_base_url_is_a_url_error() {
    let body = br#"{"sessionid":7,"uri":"no scheme here"}"#.to_vec();
    let (lifecycle, _r, err) = open_with(Ok(HttpResponse::new(200, body)));
    assert!(matches!(err, Some(InitError::UrlError(_))));
    assert_eq!(lifecycle.state(), RunnerState::Error);
}

#[test]
fn normalization_adds_one_separator() {
    assert_eq!(normalize_base_url("http://h/p".to_string()), "http://h/p/");
    assert_eq!(normalize_base_url("http://h/p/".to_string()), "http://h/p/");
    assert_eq!(normalize_base_url(String::new()), "/");
}

#[test]
fn join_below_normalized_base() {
    let runner = ChromaRunner { root_url: "http://h/p/".to_string() };
    assert_eq!(runner.get_session_url("mouse"), Some("http://h/p/mouse".to_string()));
    assert_eq!(runner.get_session_url("heartbeat"), Some("http://h/p/heartbeat".to_string()));
    let unnormalized = ChromaRunner { root_url: "http://h/p".to_string() };
    assert_eq!(unnormalized.get_session_url("mouse"), Some("http://h/mouse".to_string()));
}

#[test]
fn session_reply_decoding() {
    assert_eq!(
        decode_session_uri(br#"{"sessionid":1,"uri":"http://x/y"}"#),
        Some("http://x/y".to_string())
    );
    assert_eq!(decode_session_uri(br#"{"sessionid":-1,"uri":"http://x/y"}"#), Some("http://x/y".to_string()));
    assert_eq!(decode_session_uri(br#"{"sessionid":1,"uri":5}"#), None);
    assert_eq!(decode_session_uri(b"[]"), None);
}

#[test]
fn creation_reply_decoding() {
    assert_eq!(decode_created_effect_id(br#"{"result":0,"id":"abc"}"#), Some("abc".to_string()));
    assert_eq!(decode_created_effect_id(br#"{"id":"abc"}"#), None);
    assert_eq!(decode_created_effect_id(br#"{"result":0}"#), None);
    assert_eq!(decode_created_effect_id(br#"{"result":"ok","id":"abc"}"#), None);
    assert_eq!(decode_created_effect_id(br#"{"result":-7,"id":"abc"}"#), Some("abc".to_string()));
}
