use chroma_bridge::{
    HTTPMethod, HttpRequestError, HttpRequests, HttpResponse, PreparedRequest, RequestBody,
};

fn put(url: &str) -> PreparedRequest {
    PreparedRequest { method: HTTPMethod::Put, url: url.to_string(), body: RequestBody::EmptyObject }
}

#[test]
fn poll_is_none_until_the_outcome_then_stays() {
    let mut requests = HttpRequests::new();
    let h = requests.request(put("http://x/a"));
    assert!(requests.get_response(&h).is_none());
    let started = requests.execute_requests();
    assert_eq!(started.len(), 1);
    assert_eq!(started[0].request, put("http://x/a"));
    assert!(requests.get_response(&h).is_none());
    requests.gather_responses();
    assert!(requests.get_response(&h).is_none());
    for s in started {
        s.sender.send(Ok(HttpResponse::new(200, b"{}".to_vec()))).unwrap();
    }
    assert!(requests.get_response(&h).is_none());
    requests.gather_responses();
    let first = requests.get_response(&h).cloned();
    assert_eq!(first, Some(Ok(HttpResponse::new(200, b"{}".to_vec()))));
    requests.gather_responses();
    let _ = requests.execute_requests();
    let other = requests.request(put("http://x/b"));
    assert_eq!(requests.get_response(&h).cloned(), first);
    assert!(requests.get_response(&other).is_none());
}

#[test]
fn each_pending_request_is_started_once() {
    let mut requests = HttpRequests::new();
    let a = requests.request(put("http://x/a"));
    let b = requests.request(put("http://x/b"));
    assert_ne!(a, b);
    let started = requests.execute_requests();
    let ids: Vec<u64> = started.iter().map(|s| s.handle).collect();
    assert_eq!(ids, vec![a.id, b.id]);
    assert!(requests.execute_requests().is_empty());
}

#[test]
fn transport_failure_is_a_result() {
    let mut requests = HttpRequests::new();
    let h = requests.request(put("http://x/a"));
    let started = requests.execute_requests();
    let failure = HttpRequestError::RequestFailed("connection refused".to_string());
    started[0].sender.send(Err(failure.clone())).unwrap();
    requests.gather_responses();
    assert_eq!(requests.get_response(&h).cloned(), Some(Err(failure)));
}

#[test]
fn disposed_handle_is_not_resurrected() {
    let mut requests = HttpRequests::new();
    let h = requests.request(put("http://x/a"));
    let id = h.id;
    let started = requests.execute_requests();
    requests.dispose(h);
    for s in started {
        // The receiving half is gone with the record: the late send fails
        // and is simply dropped.
        assert!(s.sender.send(Ok(HttpResponse::new(200, vec![]))).is_err());
    }
    requests.gather_responses();
    let again = requests.request(put("http://x/b"));
    assert_ne!(again.id, id);
    assert!(requests.get_response(&again).is_none());
    assert!(requests.get_response(&chroma_bridge::HttpRequestHandle { id }).is_none());
}

#[test]
fn dispose_works_in_every_state() {
    let mut requests = HttpRequests::new();
    let pending = requests.request(put("http://x/a"));
    requests.dispose(pending);
    assert!(requests.execute_requests().is_empty());
    let done = requests.request(put("http://x/b"));
    let started = requests.execute_requests();
    started[0].sender.send(Ok(HttpResponse::new(204, vec![]))).unwrap();
    requests.gather_responses();
    assert!(requests.get_response(&done).is_some());
    let id = done.id;
    requests.dispose(done);
    assert!(requests.get_response(&chroma_bridge::HttpRequestHandle { id }).is_none());
}

#[test]
fn response_getters() {
    let r = HttpResponse::new(201, b"abc".to_vec());
    assert_eq!(r.status_code(), 201);
    assert_eq!(r.body_bytes(), b"abc");
}
