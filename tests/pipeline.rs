use chroma_bridge::{
    Author, BGRColor, Category, ChromaApp, ChromaRunner, ChromaRunnerInitializationSettings,
    Effect, EffectStage, HTTPMethod, Heartbeat, HttpRequestError, HttpRequestSet, HttpRequests,
    HttpResponse, InitRequest, MouseEffect, RequestBody, RunnerState, StartedRequest,
};

fn settings() -> ChromaRunnerInitializationSettings {
    ChromaRunnerInitializationSettings::new(InitRequest {
        title: "T",
        description: "",
        author: Author { name: "", contact: "" },
        device_supported: vec![],
        category: Category::Game,
    })
}

fn ok(body: &[u8]) -> Result<HttpResponse, HttpRequestError> {
    Ok(HttpResponse::new(200, body.to_vec()))
}

/// One tick with every phase in order; `reply` answers the requests started
/// in it, before the gather phase. Returns the requests started, keepalives
/// left out.
fn tick(app: &mut ChromaApp, now: u64, reply: impl Fn(&StartedRequest) -> Option<Result<HttpResponse, HttpRequestError>>) -> Vec<StartedRequest> {
    let _ = app.update();
    app.post_update(now);
    app.before_execute(now);
    let started = app.execute();
    for s in &started {
        if let Some(r) = reply(s) {
            s.sender.send(r).unwrap();
        }
    }
    app.gather();
    app.after_gather(now);
    started.into_iter().filter(|s| !s.request.url.ends_with("/heartbeat")).collect()
}

fn running_app() -> ChromaApp {
    let mut app = ChromaApp::new(settings(), 0);
    let started = tick(&mut app, 0, |_| Some(ok(br#"{"sessionid":1,"uri":"http://x/y"}"#)));
    assert_eq!(started.len(), 1);
    assert_eq!(started[0].request.url, "http://localhost:54235/razer/chromasdk");
    assert_eq!(app.lifecycle.state(), RunnerState::Init);
    let _ = app.update();
    assert_eq!(app.lifecycle.state(), RunnerState::Running);
    app
}

#[test]
fn init_scenario_runs_after_one_cycle() {
    let app = running_app();
    let runner = app.lifecycle.runner().unwrap();
    assert_eq!(runner.root_url, "http://x/y/");
    assert_eq!(runner.get_session_url("effect"), Some("http://x/y/effect".to_string()));
}

#[test]
fn mouse_effect_scenario() {
    let mut app = running_app();
    let red = BGRColor::from_channels(255, 0, 0);
    let effect = Effect::Mouse(MouseEffect::Static { color: red });
    let h = app.chroma.create_effect(effect);
    let started = tick(&mut app, 1_000, |_| Some(ok(br#"{"result":0,"id":"abc"}"#)));
    assert_eq!(started.len(), 1);
    assert_eq!(started[0].request.method, HTTPMethod::Post);
    assert_eq!(started[0].request.url, "http://x/y/mouse");
    assert_eq!(started[0].request.body, RequestBody::Effect(effect));
    match &app.chroma.effect(&h).unwrap().stage {
        EffectStage::Created(id) => assert_eq!(id, "abc"),
        other => panic!("unexpected {other:?}"),
    }
    // Apply with a five-second deadline; the daemon never answers.
    app.chroma.apply_effect_with_deadline(&h, 1_000 + 5_000);
    let started = tick(&mut app, 1_000, |_| None);
    assert_eq!(started.len(), 1);
    assert_eq!(started[0].request.method, HTTPMethod::Put);
    assert_eq!(started[0].request.url, "http://x/y/effect");
    assert_eq!(started[0].request.body, RequestBody::EffectId("abc".to_string()));
    assert_eq!(app.chroma.in_flight_apply_count(), 1);
    assert!(tick(&mut app, 6_000, |_| None).is_empty());
    assert_eq!(app.chroma.in_flight_apply_count(), 1);
    assert!(tick(&mut app, 6_001, |_| None).is_empty());
    assert_eq!(app.chroma.in_flight_apply_count(), 0);
    // A late answer goes nowhere.
    assert!(started[0].sender.send(ok(b"{}")).is_err());
}

#[test]
fn expired_apply_is_never_sent() {
    let mut app = running_app();
    let h = app.chroma.create_effect(Effect::Mouse(MouseEffect::Off));
    tick(&mut app, 1_000, |_| Some(ok(br#"{"result":0,"id":"e1"}"#)));
    app.chroma.apply_effect_with_deadline(&h, 500);
    let started = tick(&mut app, 1_000, |_| None);
    assert!(started.is_empty());
    assert_eq!(app.chroma.waiting_apply_count(), 0);
    assert_eq!(app.chroma.in_flight_apply_count(), 0);
}

#[test]
fn apply_waits_for_creation() {
    let mut app = running_app();
    let h = app.chroma.create_effect(Effect::Mouse(MouseEffect::Off));
    app.chroma.apply_effect(&h, 1_000);
    let started = tick(&mut app, 1_000, |_| None);
    // Only the creation request went out; the application waits for it.
    assert_eq!(started.len(), 1);
    assert_eq!(started[0].request.url, "http://x/y/mouse");
    assert_eq!(app.chroma.waiting_apply_count(), 1);
    started[0].sender.send(ok(br#"{"result":0,"id":"late"}"#)).unwrap();
    tick(&mut app, 2_000, |_| None);
    let started = tick(&mut app, 3_000, |_| Some(ok(br#"{"result":0}"#)));
    assert_eq!(started.len(), 1);
    assert_eq!(started[0].request.body, RequestBody::EffectId("late".to_string()));
    assert_eq!(app.chroma.waiting_apply_count(), 0);
    assert_eq!(app.chroma.in_flight_apply_count(), 0);
}

#[test]
fn failed_creation_is_not_retried() {
    let mut app = running_app();
    let h = app.chroma.create_effect(Effect::Mouse(MouseEffect::Off));
    let started = tick(&mut app, 1_000, |_| Some(Err(HttpRequestError::RequestFailed("down".to_string()))));
    assert_eq!(started.len(), 1);
    assert!(matches!(app.chroma.effect(&h).unwrap().stage, EffectStage::Failed));
    assert!(tick(&mut app, 2_000, |_| None).is_empty());
    let h2 = app.chroma.create_effect(Effect::Mouse(MouseEffect::Off));
    tick(&mut app, 3_000, |_| Some(ok(b"{}")));
    assert!(matches!(app.chroma.effect(&h2).unwrap().stage, EffectStage::Failed));
}

#[test]
fn nothing_is_created_before_the_session_runs() {
    let mut app = ChromaApp::new(settings(), 0);
    let _ = app.chroma.create_effect(Effect::Mouse(MouseEffect::Off));
    let started = tick(&mut app, 0, |_| None);
    // Only the session-open request.
    assert_eq!(started.len(), 1);
    assert_eq!(started[0].request.method, HTTPMethod::Post);
}

#[test]
fn heartbeat_stays_until_expiry_then_goes_once() {
    let runner = ChromaRunner { root_url: "http://x/y/".to_string() };
    let mut requests = HttpRequests::new();
    let mut heartbeat = Heartbeat::new(0);
    heartbeat.system_heartbeat_keepalive(&mut requests, &runner, 0);
    assert_eq!(heartbeat.in_flight_count(), 1);
    let started = requests.execute_requests();
    assert_eq!(started.len(), 1);
    assert_eq!(started[0].request.method, HTTPMethod::Put);
    assert_eq!(started[0].request.url, "http://x/y/heartbeat");
    assert_eq!(started[0].request.body, RequestBody::EmptyObject);
    for now in [1, 5_000, 10_000] {
        requests.gather_responses();
        heartbeat.system_heartbeat_cleanup(&mut requests, now);
        assert_eq!(heartbeat.in_flight_count(), 1);
    }
    heartbeat.system_heartbeat_cleanup(&mut requests, 10_001);
    assert_eq!(heartbeat.in_flight_count(), 0);
    heartbeat.system_heartbeat_cleanup(&mut requests, 20_000);
    assert_eq!(heartbeat.in_flight_count(), 0);
    assert!(started[0].sender.send(ok(b"{}")).is_err());
}

#[test]
fn answered_heartbeat_is_retired() {
    let runner = ChromaRunner { root_url: "http://x/y/".to_string() };
    let mut requests = HttpRequests::new();
    let mut heartbeat = Heartbeat::new(0);
    heartbeat.system_heartbeat_keepalive(&mut requests, &runner, 0);
    heartbeat.system_heartbeat_keepalive(&mut requests, &runner, 1);
    let started = requests.execute_requests();
    started[0].sender.send(ok(br#"{"tick":1}"#)).unwrap();
    requests.gather_responses();
    heartbeat.system_heartbeat_cleanup(&mut requests, 2);
    assert_eq!(heartbeat.in_flight_count(), 1);
}

#[test]
fn heartbeat_runs_on_its_interval() {
    let runner = ChromaRunner { root_url: "http://x/y/".to_string() };
    let mut requests = HttpRequests::new();
    let mut heartbeat = Heartbeat::new(0);
    heartbeat.run_heartbeat(&mut requests, Some(&runner), 999);
    assert_eq!(heartbeat.in_flight_count(), 0);
    heartbeat.run_heartbeat(&mut requests, Some(&runner), 1_000);
    assert_eq!(heartbeat.in_flight_count(), 1);
    heartbeat.run_heartbeat(&mut requests, Some(&runner), 1_500);
    assert_eq!(heartbeat.in_flight_count(), 1);
    heartbeat.run_heartbeat(&mut requests, None, 2_000);
    assert_eq!(heartbeat.in_flight_count(), 1);
    assert_eq!(requests.execute_requests().len(), 1);
}

#[test]
fn phases_run_in_order() {
    let mut p = HttpRequestSet::BeforeExecuteRequests;
    let mut seen = vec![p];
    while let Some(q) = p.next() {
        seen.push(q);
        p = q;
    }
    assert_eq!(
        seen,
        vec![
            HttpRequestSet::BeforeExecuteRequests,
            HttpRequestSet::ExecuteRequests,
            HttpRequestSet::AfterExecuteRequests,
            HttpRequestSet::GatherResponses,
            HttpRequestSet::AfterGatherResponses,
        ]
    );
}

#[test]
fn heartbeat_keeps_its_cadence() {
    let runner = ChromaRunner { root_url: "http://x/y/".to_string() };
    let mut requests = HttpRequests::new();
    let mut heartbeat = Heartbeat::new(0);
    // A late tick fires, and the next one stays on the one-second grid.
    heartbeat.run_heartbeat(&mut requests, Some(&runner), 1_500);
    assert_eq!(heartbeat.in_flight_count(), 1);
    heartbeat.run_heartbeat(&mut requests, Some(&runner), 1_999);
    assert_eq!(heartbeat.in_flight_count(), 1);
    heartbeat.run_heartbeat(&mut requests, Some(&runner), 2_000);
    assert_eq!(heartbeat.in_flight_count(), 2);
}

#[test]
fn no_init_request_after_error() {
    let mut app = ChromaApp::new(settings(), 0);
    let started = tick(&mut app, 0, |_| Some(Err(HttpRequestError::RequestFailed("refused".to_string()))));
    assert_eq!(started.len(), 1);
    assert!(app.update().is_some());
    assert_eq!(app.lifecycle.state(), RunnerState::Error);
    for now in [10, 20, 30] {
        assert!(tick(&mut app, now, |_| None).is_empty());
        assert_eq!(app.lifecycle.state(), RunnerState::Error);
    }
}
