//! The session lifecycle: open a session with the daemon once, then hold the
//! base URL that every later request is resolved against.

use vstd::prelude::*;
use vstd::string::*;

use crate::api::InitRequest;
use crate::bridge::{
    response_of, submitted, HTTPMethod, OpState, HttpRequestError, HttpRequestHandle, HttpRequests,
    PreparedRequest, RequestBody,
};
use crate::wire::{check_url, decode_session_uri, join_url, session_uri, url_join, url_valid};

verus! {

/// Where the session stands. `Init` is where it starts; the others are
/// never left.
#[derive(Clone, Copy, Debug, PartialEq, Eq, Structural, Hash)]
pub enum RunnerState {
    Init,
    Running,
    Stopped,
    Error,
}

/// The daemon's session-open endpoint when none is given.
pub const DEFAULT_INIT_URL: &'static str = "http://localhost:54235/razer/chromasdk";

/// Where and how to open the session.
#[derive(Clone, Debug, PartialEq, Eq, PartialOrd, Ord, Hash)]
pub struct ChromaRunnerInitializationSettings {
    pub init_url: &'static str,
    pub init_request: InitRequest,
}

impl ChromaRunnerInitializationSettings {
    /// Opens the session at the default endpoint.
    pub fn new(init_request: InitRequest) -> (s: Self)
        ensures
            s.init_url@ == DEFAULT_INIT_URL@,
            s.init_request == init_request,
    {
        Self::new_with_init_url(DEFAULT_INIT_URL, init_request)
    }

    pub fn new_with_init_url(init_url: &'static str, init_request: InitRequest) -> (s: Self)
        ensures
            s.init_url == init_url,
            s.init_request == init_request,
    {
        Self { init_url, init_request }
    }
}

/// `s` with a trailing `/`, added only when missing.
pub open spec fn normalized(s: Seq<char>) -> Seq<char> {
    if s.len() > 0 && s.last() == '/' {
        s
    } else {
        s.push('/')
    }
}

/// Gives a base URL the trailing separator it needs so that relative paths
/// are resolved below it rather than beside it.
pub fn normalize_base_url(s: String) -> (r: String)
    ensures
        r@ == normalized(s@),
{
    let n = s.as_str().unicode_len();
    if n > 0 && s.as_str().get_char(n - 1) == '/' {
        s
    } else {
        proof {
            reveal_strlit("/");
        }
        s.concat("/")
    }
}

/// A normalized base URL ends with the separator, and normalizing it again
/// changes nothing.
pub proof fn law_normalized_base(s: Seq<char>)
    ensures
        normalized(s).len() > 0,
        normalized(s).last() == '/',
        normalized(normalized(s)) == normalized(s),
        normalized(s) == s || normalized(s) == s.push('/'),
{
}

/// An open session: the base URL of all later requests.
#[derive(Clone, Debug)]
pub struct ChromaRunner {
    pub root_url: String,
}

impl ChromaRunner {
    /// Its base URL ends with the separator and parses.
    pub open spec fn wf(&self) -> bool {
        &&& self.root_url@.len() > 0
        &&& self.root_url@.last() == '/'
        &&& url_valid(self.root_url@)
    }

    /// `relative_path` resolved against the session's base URL.
    pub fn get_session_url(&self, relative_path: &str) -> (r: Option<String>)
        ensures
            match r {
                Some(u) => url_join(self.root_url@, relative_path@) == Some(u@),
                None => url_join(self.root_url@, relative_path@) is None,
            },
    {
        join_url(self.root_url.as_str(), relative_path)
    }
}

/// Why the session could not be opened.
#[derive(Debug)]
pub enum InitError {
    /// The session-open request failed in transport.
    RequestError(HttpRequestError),
    /// The reply was not a session descriptor.
    ParseError,
    /// The base URL that the reply named does not parse.
    UrlError(url::ParseError),
}

/// A step of the lifecycle: it stays where it is, or leaves `Init` for
/// `Running` or `Error`.
pub open spec fn lifecycle_step(before: RunnerState, after: RunnerState) -> bool {
    after == before || (before == RunnerState::Init && (after == RunnerState::Running || after
        == RunnerState::Error))
}

/// Once the session is in `Error`, no run of lifecycle steps leaves it: it
/// never reaches `Running` afterwards.
pub proof fn law_error_is_final(trace: Seq<RunnerState>)
    requires
        trace.len() > 0,
        trace[0] == RunnerState::Error,
        forall|i: int| 0 <= i < trace.len() - 1 ==> lifecycle_step(#[trigger] trace[i], trace[i + 1]),
    ensures
        forall|i: int| 0 <= i < trace.len() ==> #[trigger] trace[i] == RunnerState::Error,
    decreases trace.len(),
{
    if trace.len() > 1 {
        let prefix = trace.drop_last();
        assert forall|i: int| 0 <= i < prefix.len() - 1 implies lifecycle_step(
            #[trigger] prefix[i],
            prefix[i + 1],
        ) by {
            assert(lifecycle_step(trace[i], trace[i + 1]));
        }
        law_error_is_final(prefix);
        let n = trace.len() - 1;
        assert(prefix[n - 1] == RunnerState::Error);
        assert(lifecycle_step(trace[n - 1], trace[n]));
        assert forall|i: int| 0 <= i < trace.len() implies #[trigger] trace[i] == RunnerState::Error by {
            if i < n {
                assert(prefix[i] == trace[i]);
            }
        }
    }
}

/// `request` opens the session that `settings` describe: a POST of the
/// descriptor to the session-open endpoint.
pub open spec fn is_init_request(
    request: PreparedRequest,
    settings: ChromaRunnerInitializationSettings,
) -> bool {
    &&& request.method == HTTPMethod::Post
    &&& request.url@ == settings.init_url@
    &&& request.body matches RequestBody::Init(d) && d.same_as(settings.init_request)
}

/// The session-open request was submitted as `h`.
pub open spec fn submitted_init(
    old_ops: Map<u64, OpState>,
    new_ops: Map<u64, OpState>,
    h: u64,
    settings: ChromaRunnerInitializationSettings,
) -> bool {
    &&& new_ops.contains_key(h)
    &&& new_ops[h] is Pending
    &&& submitted(old_ops, new_ops, h, new_ops[h]->Pending_0)
    &&& is_init_request(new_ops[h]->Pending_0, settings)
}

/// One session-open step with its error handling, from `before` and the
/// bridge `ops_before` (next handle `next_before`) to `after`, `ops_after`
/// and `next_after`, reporting `r`. Outside `Init` nothing changes. In
/// `Init`, the first step submits the session-open request at the next
/// handle. Later steps wait while the request has no outcome; a reply that
/// names a base URL which parses once normalized opens the session on that
/// URL and disposes the request; a transport failure, a reply that does not
/// decode or a URL that does not parse moves to `Error` and is reported,
/// with the bridge untouched.
pub open spec fn init_update(
    before: Lifecycle,
    ops_before: Map<u64, OpState>,
    next_before: u64,
    after: Lifecycle,
    ops_after: Map<u64, OpState>,
    next_after: u64,
    r: Option<InitError>,
) -> bool {
    let unchanged = after == before && ops_after == ops_before && next_after == next_before;
    let failed = after.spec_state() == RunnerState::Error && after.spec_runner() is None
        && after.pending_init() == before.pending_init() && after.spec_settings()
        == before.spec_settings() && ops_after == ops_before && next_after == next_before;
    if before.spec_state() != RunnerState::Init {
        r is None && unchanged
    } else {
        match before.pending_init() {
            None => {
                &&& r is None
                &&& after.spec_state() == RunnerState::Init
                &&& after.spec_runner() is None
                &&& after.spec_settings() == before.spec_settings()
                &&& after.pending_init() == Some(next_before)
                &&& submitted_init(ops_before, ops_after, next_before, before.spec_settings())
                &&& next_after == next_before + 1
            },
            Some(h) => match response_of(ops_before, h) {
                None => r is None && unchanged,
                Some(Err(e)) => r == Some(InitError::RequestError(e)) && failed,
                Some(Ok(resp)) => match session_uri(resp.body_bytes@) {
                    None => r == Some(InitError::ParseError) && failed,
                    Some(u) => if url_valid(normalized(u)) {
                        &&& r is None
                        &&& after.spec_state() == RunnerState::Running
                        &&& after.spec_runner() is Some
                        &&& after.spec_runner()->Some_0.root_url@ == normalized(u)
                        &&& after.pending_init() is None
                        &&& after.spec_settings() == before.spec_settings()
                        &&& ops_after == ops_before.remove(h)
                        &&& next_after == next_before
                    } else {
                        r matches Some(InitError::UrlError(_)) && failed
                    },
                },
            },
        }
    }
}

/// The session lifecycle state machine.
pub struct Lifecycle {
    state: RunnerState,
    init_handle: Option<HttpRequestHandle>,
    settings: ChromaRunnerInitializationSettings,
    runner: Option<ChromaRunner>,
}

impl Lifecycle {
    pub closed spec fn spec_state(&self) -> RunnerState {
        self.state
    }

    /// The handle of the session-open request, once it was submitted.
    pub closed spec fn pending_init(&self) -> Option<u64> {
        match self.init_handle {
            Some(h) => Some(h.id),
            None => None,
        }
    }

    pub closed spec fn spec_settings(&self) -> ChromaRunnerInitializationSettings {
        self.settings
    }

    /// The open session, once there is one.
    pub closed spec fn spec_runner(&self) -> Option<ChromaRunner> {
        self.runner
    }

    /// A session exists exactly while running, and it is well formed.
    pub open spec fn wf(&self) -> bool {
        &&& (self.spec_state() == RunnerState::Running) == (self.spec_runner() is Some)
        &&& self.spec_runner() matches Some(r) ==> r.wf()
        &&& self.pending_init() is Some ==> self.spec_state() == RunnerState::Init || self.spec_state()
            == RunnerState::Error
    }

    pub fn new(settings: ChromaRunnerInitializationSettings) -> (l: Lifecycle)
        ensures
            l.wf(),
            l.spec_state() == RunnerState::Init,
            l.pending_init() is None,
            l.spec_settings() == settings,
    {
        Lifecycle { state: RunnerState::Init, init_handle: None, settings, runner: None }
    }

    /// The current state.
    pub fn state(&self) -> (s: RunnerState)
        ensures
            s == self.spec_state(),
    {
        self.state
    }

    /// The open session, if there is one.
    pub fn runner(&self) -> (r: Option<&ChromaRunner>)
        ensures
            match r {
                Some(x) => self.spec_runner() == Some(*x),
                None => self.spec_runner() is None,
            },
    {
        match &self.runner {
            Some(r) => Some(r),
            None => None,
        }
    }

    /// One run of the session-open step while in `Init`. The first run
    /// submits the session-open request. Later runs poll it: with no outcome
    /// yet nothing changes; with a reply that names a base URL, the URL is
    /// normalized, checked, and becomes the session, the request is disposed
    /// and the state is `Running`; a transport failure, a reply that does not
    /// decode, or a URL that does not parse is returned as the error, with
    /// nothing else changed. Outside `Init` nothing happens.
    pub fn system_init(&mut self, requests: &mut HttpRequests) -> (r: Result<(), InitError>)
        requires
            old(self).wf(),
            old(requests).wf(),
            old(requests).next_handle() < u64::MAX,
        ensures
            final(self).wf(),
            final(requests).wf(),
            final(requests).next_handle() >= old(requests).next_handle(),
            final(self).spec_settings() == old(self).spec_settings(),
            lifecycle_step(old(self).spec_state(), final(self).spec_state()),
            final(self).spec_state() == RunnerState::Error ==> old(self).spec_state() == RunnerState::Error,
            old(self).spec_state() != RunnerState::Init ==> {
                &&& r is Ok
                &&& *final(self) == *old(self)
                &&& *final(requests) == *old(requests)
            },
            old(self).spec_state() == RunnerState::Init ==> match old(self).pending_init() {
                None => {
                    &&& r is Ok
                    &&& final(self).spec_state() == RunnerState::Init
                    &&& final(self).pending_init() == Some(old(requests).next_handle())
                    &&& submitted_init(old(requests)@, final(requests)@, old(requests).next_handle(), old(self).spec_settings())
                    &&& final(requests).next_handle() == old(requests).next_handle() + 1
                },
                Some(h) => match response_of(old(requests)@, h) {
                    None => {
                        &&& r is Ok
                        &&& *final(self) == *old(self)
                        &&& *final(requests) == *old(requests)
                    },
                    Some(Err(e)) => {
                        &&& r == Err::<(), InitError>(InitError::RequestError(e))
                        &&& *final(self) == *old(self)
                        &&& *final(requests) == *old(requests)
                    },
                    Some(Ok(resp)) => match session_uri(resp.body_bytes@) {
                        None => {
                            &&& r == Err::<(), InitError>(InitError::ParseError)
                            &&& *final(self) == *old(self)
                            &&& *final(requests) == *old(requests)
                        },
                        Some(u) => if url_valid(normalized(u)) {
                            &&& r is Ok
                            &&& final(self).spec_state() == RunnerState::Running
                            &&& final(self).spec_runner() is Some
                            &&& final(self).spec_runner()->Some_0.root_url@ == normalized(u)
                            &&& final(self).pending_init() is None
                            &&& final(requests)@ == old(requests)@.remove(h)
                            &&& final(requests).next_handle() == old(requests).next_handle()
                        } else {
                            &&& r matches Err(InitError::UrlError(_))
                            &&& *final(self) == *old(self)
                            &&& *final(requests) == *old(requests)
                        },
                    },
                },
            },
    {
        if self.state != RunnerState::Init {
            return Ok(());
        }
        match &self.init_handle {
            None => {
                let request = PreparedRequest {
                    method: HTTPMethod::Post,
                    url: String::from_str(self.settings.init_url),
                    body: RequestBody::Init(self.settings.init_request.duplicate()),
                };
                let h = requests.request(request);
                self.init_handle = Some(h);
                Ok(())
            },
            Some(h) => {
                let outcome = match requests.get_response(h) {
                    None => return Ok(()),
                    Some(Err(e)) => return Err(InitError::RequestError(e.duplicate())),
                    Some(Ok(resp)) => decode_session_uri(resp.body_bytes()),
                };
                let uri = match outcome {
                    None => return Err(InitError::ParseError),
                    Some(u) => u,
                };
                let root_url = normalize_base_url(uri);
                match check_url(root_url.as_str()) {
                    Err(e) => return Err(InitError::UrlError(e)),
                    Ok(()) => {},
                }
                let handle = self.init_handle.take();
                match handle {
                    Some(h) => requests.dispose(h),
                    None => {},
                }
                self.runner = Some(ChromaRunner { root_url });
                self.state = RunnerState::Running;
                Ok(())
            },
        }
    }

    /// Turns a failed session-open step into the `Error` state; no retry
    /// follows.
    pub fn system_init_error_handler(&mut self, result: &Result<(), InitError>)
        requires
            old(self).wf(),
        ensures
            final(self).wf(),
            final(self).spec_settings() == old(self).spec_settings(),
            final(self).pending_init() == old(self).pending_init(),
            final(self).spec_runner() == old(self).spec_runner(),
            result is Ok ==> *final(self) == *old(self),
            result is Err && old(self).spec_state() == RunnerState::Init ==> final(self).spec_state()
                == RunnerState::Error,
            result is Err && old(self).spec_state() != RunnerState::Init ==> *final(self) == *old(self),
    {
        if result.is_err() && self.state == RunnerState::Init {
            self.state = RunnerState::Error;
        }
    }

    /// The session-open step followed by its error handling, as run once
    /// per tick. Returns the failure, if this step had one, for reporting.
    pub fn update(&mut self, requests: &mut HttpRequests) -> (r: Option<InitError>)
        requires
            old(self).wf(),
            old(requests).wf(),
            old(requests).next_handle() < u64::MAX,
        ensures
            final(self).wf(),
            final(requests).wf(),
            final(requests).next_handle() >= old(requests).next_handle(),
            lifecycle_step(old(self).spec_state(), final(self).spec_state()),
            (final(self).spec_state() == RunnerState::Error) == (old(self).spec_state() == RunnerState::Error || r is Some),
            init_update(
                *old(self),
                old(requests)@,
                old(requests).next_handle(),
                *final(self),
                final(requests)@,
                final(requests).next_handle(),
                r,
            ),
    {
        let result = self.system_init(requests);
        match result {
            Ok(()) => None,
            Err(e) => {
                let failed: Result<(), InitError> = Err(e);
                self.system_init_error_handler(&failed);
                match failed {
                    Err(e) => Some(e),
                    Ok(()) => None,
                }
            },
        }
    }
}

} // verus!
