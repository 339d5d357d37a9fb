//! The request/response bridge: prepared requests become background
//! operations, and their results are read back without blocking.
//!
//! Each operation is one record, keyed by a handle that is never reused.
//! A record is pending until the start phase hands its request out with the
//! sending half of a one-slot channel, in progress until the gather phase
//! finds a value in that channel, and then done for good. Disposing a record
//! drops it and its channel, so a late delivery goes nowhere.

use vstd::prelude::*;

use crossbeam_channel::{Receiver, Sender};

use crate::api::{Effect, InitRequest};

verus! {

#[verifier::external_type_specification]
#[verifier::external_body]
#[verifier::reject_recursive_types(T)]
pub struct ExSender<T>(crossbeam_channel::Sender<T>);

#[verifier::external_type_specification]
#[verifier::external_body]
#[verifier::reject_recursive_types(T)]
pub struct ExReceiver<T>(crossbeam_channel::Receiver<T>);

/// Relies on crossbeam_channel::bounded: makes a channel, here with room for
/// one value; nothing is promised of its two halves beyond their types.
pub assume_specification<T>[ crossbeam_channel::bounded::<T> ](cap: usize) -> (Sender<T>, Receiver<T>);

/// Relies on crossbeam_channel::Receiver::try_recv: takes the value waiting in
/// the channel without blocking, if there is one. Whether one is there depends
/// on the worker's timing, so nothing is promised.
#[verifier::external_body]
fn try_take<T>(receiver: &Receiver<T>) -> Option<T> {
    receiver.try_recv().ok()
}

/// The HTTP verbs the daemon's API uses.
#[derive(Clone, Copy, Debug, PartialEq, Eq, Structural, Hash)]
pub enum HTTPMethod {
    Get,
    Post,
    Put,
}

/// What a request carries as its JSON body; the transport encodes it.
#[derive(Clone, Debug, PartialEq, Eq)]
pub enum RequestBody {
    /// `{}`.
    EmptyObject,
    /// The session descriptor.
    Init(InitRequest),
    /// An effect: its name as the tag and its parameters as the content.
    Effect(Effect),
    /// `{"id": ...}`, naming an effect that the daemon created.
    EffectId(String),
}

/// A request that is fully described but not yet sent.
#[derive(Clone, Debug, PartialEq, Eq)]
pub struct PreparedRequest {
    pub method: HTTPMethod,
    pub url: String,
    pub body: RequestBody,
}

/// Status code and raw body of a response.
#[derive(Clone, Debug, PartialEq, Eq)]
pub struct HttpResponse {
    pub status_code: u16,
    pub body_bytes: Vec<u8>,
}

impl HttpResponse {
    pub fn new(status_code: u16, body_bytes: Vec<u8>) -> (r: HttpResponse)
        ensures
            r.status_code == status_code,
            r.body_bytes@ == body_bytes@,
    {
        HttpResponse { status_code, body_bytes }
    }

    pub fn body_bytes(&self) -> (b: &[u8])
        ensures
            b@ == self.body_bytes@,
    {
        self.body_bytes.as_slice()
    }

    pub fn status_code(&self) -> (c: u16)
        ensures
            c == self.status_code,
    {
        self.status_code
    }
}

/// A request that did not produce a response.
#[derive(Clone, Debug, PartialEq, Eq)]
pub enum HttpRequestError {
    /// The transport failed: connection refused, timeout, a malformed
    /// response at the HTTP layer. Holds the transport's description.
    RequestFailed(String),
}

impl HttpRequestError {
    /// A copy of the error.
    pub fn duplicate(&self) -> (r: HttpRequestError)
        ensures
            r == *self,
    {
        match self {
            HttpRequestError::RequestFailed(s) => HttpRequestError::RequestFailed(s.clone()),
        }
    }
}

/// The outcome of one request.
pub type HttpResult = Result<HttpResponse, HttpRequestError>;

/// Refers to one operation of the bridge.
#[derive(Debug, PartialEq, Eq, Structural, PartialOrd, Ord, Hash)]
pub struct HttpRequestHandle {
    pub id: u64,
}

/// A request handed out by the start phase: the transport sends it and puts
/// the outcome into `sender`.
#[derive(Debug)]
pub struct StartedRequest {
    pub handle: u64,
    pub request: PreparedRequest,
    pub sender: Sender<HttpResult>,
}

/// Where an operation stands, as seen through the bridge.
pub enum OpState {
    /// Submitted, not yet handed to the transport.
    Pending(PreparedRequest),
    /// Handed to the transport; no outcome read yet.
    InProgress,
    /// Finished with this outcome.
    Done(HttpResult),
}

enum OpRecord {
    Pending(PreparedRequest),
    InProgress(Receiver<HttpResult>),
    Done(HttpResult),
}

impl OpRecord {
    spec fn state(&self) -> OpState {
        match self {
            OpRecord::Pending(r) => OpState::Pending(*r),
            OpRecord::InProgress(_) => OpState::InProgress,
            OpRecord::Done(r) => OpState::Done(*r),
        }
    }
}

struct OpEntry {
    handle: u64,
    record: OpRecord,
}

/// The outcome that polling `h` reads: present only once the operation is done.
pub open spec fn response_of(ops: Map<u64, OpState>, h: u64) -> Option<HttpResult> {
    match ops.get(h) {
        Some(OpState::Done(r)) => Some(r),
        _ => None,
    }
}

/// `ops` gains the pending operation `h`, which it did not hold.
pub open spec fn submitted(
    old_ops: Map<u64, OpState>,
    new_ops: Map<u64, OpState>,
    h: u64,
    request: PreparedRequest,
) -> bool {
    &&& !old_ops.contains_key(h)
    &&& new_ops == old_ops.insert(h, OpState::Pending(request))
}

/// What the start phase does to one operation.
pub open spec fn start_one(s: OpState) -> OpState {
    match s {
        OpState::Pending(_) => OpState::InProgress,
        _ => s,
    }
}

/// The start phase: every pending operation is now in progress; nothing else changes.
pub open spec fn started(old_ops: Map<u64, OpState>, new_ops: Map<u64, OpState>) -> bool {
    &&& new_ops.dom() == old_ops.dom()
    &&& forall|k: u64| #[trigger] old_ops.contains_key(k) ==> new_ops[k] == start_one(old_ops[k])
}

/// What the gather phase may do to one operation: finish it if it is in
/// progress, and otherwise leave it as it is.
pub open spec fn gather_one(s: OpState, t: OpState) -> bool {
    t == s || (s is InProgress && t is Done)
}

/// The gather phase: no operation appears or disappears, and only operations
/// in progress may become done.
pub open spec fn gathered(old_ops: Map<u64, OpState>, new_ops: Map<u64, OpState>) -> bool {
    &&& new_ops.dom() == old_ops.dom()
    &&& forall|k: u64| #[trigger] old_ops.contains_key(k) ==> gather_one(old_ops[k], new_ops[k])
}

/// One step of the bridge, on its operations and its next handle: a
/// submission, the start phase, the gather phase or a disposal, as the
/// functions of [`HttpRequests`] state them.
pub open spec fn bridge_step(
    old_ops: Map<u64, OpState>,
    old_next: u64,
    new_ops: Map<u64, OpState>,
    new_next: u64,
) -> bool {
    ||| (exists|r: PreparedRequest| submitted(old_ops, new_ops, old_next, r)) && new_next == old_next + 1
    ||| started(old_ops, new_ops) && new_next == old_next
    ||| gathered(old_ops, new_ops) && new_next == old_next
    ||| (exists|h: u64| new_ops == old_ops.remove(h)) && new_next == old_next
}

/// Every pair of neighbours in `trace` is one step of the bridge.
pub open spec fn is_run(trace: Seq<(Map<u64, OpState>, u64)>) -> bool {
    forall|i: int|
        0 <= i < trace.len() - 1 ==> bridge_step(
            #[trigger] trace[i].0,
            trace[i].1,
            trace[i + 1].0,
            trace[i + 1].1,
        )
}

/// A result appears only when the gather phase reads it for an operation
/// that was in progress: before that, polling returns nothing.
pub proof fn law_result_appears_only_when_gathered(
    old_ops: Map<u64, OpState>,
    old_next: u64,
    new_ops: Map<u64, OpState>,
    new_next: u64,
    h: u64,
)
    requires
        bridge_step(old_ops, old_next, new_ops, new_next),
        response_of(old_ops, h) is None,
        response_of(new_ops, h) is Some,
    ensures
        gathered(old_ops, new_ops),
        old_ops.contains_key(h),
        old_ops[h] is InProgress,
{
    if exists|r: PreparedRequest| submitted(old_ops, new_ops, old_next, r) {
        let r = choose|r: PreparedRequest| submitted(old_ops, new_ops, old_next, r);
        assert(new_ops[h] == old_ops[h] || new_ops[h] == OpState::Pending(r));
    } else if started(old_ops, new_ops) && !gathered(old_ops, new_ops) {
        assert(old_ops.contains_key(h));
    } else if !gathered(old_ops, new_ops) {
        let k = choose|k: u64| new_ops == old_ops.remove(k);
        assert(new_ops[h] == old_ops[h]);
    }
}

/// Once an operation has its result, every later poll of it returns that
/// same result, for as long as the operation is not disposed.
pub proof fn law_result_is_stable(trace: Seq<(Map<u64, OpState>, u64)>, h: u64)
    requires
        trace.len() > 0,
        is_run(trace),
        response_of(trace[0].0, h) is Some,
        forall|i: int| 0 <= i < trace.len() ==> (#[trigger] trace[i]).0.contains_key(h),
    ensures
        forall|i: int|
            0 <= i < trace.len() ==> response_of((#[trigger] trace[i]).0, h) == response_of(
                trace[0].0,
                h,
            ),
    decreases trace.len(),
{
    if trace.len() > 1 {
        let prefix = trace.drop_last();
        assert forall|i: int| 0 <= i < prefix.len() - 1 implies bridge_step(
            #[trigger] prefix[i].0,
            prefix[i].1,
            prefix[i + 1].0,
            prefix[i + 1].1,
        ) by {
            assert(prefix[i] == trace[i] && prefix[i + 1] == trace[i + 1]);
            assert(bridge_step(trace[i].0, trace[i].1, trace[i + 1].0, trace[i + 1].1));
        }
        assert forall|i: int| 0 <= i < prefix.len() implies (#[trigger] prefix[i]).0.contains_key(h) by {
            assert(prefix[i] == trace[i]);
        }
        law_result_is_stable(prefix, h);
        let n = trace.len() - 1;
        let (a, an) = trace[n - 1];
        let (b, bn) = trace[n];
        assert(prefix[n - 1] == trace[n - 1]);
        assert(bridge_step(a, an, b, bn));
        assert(a.contains_key(h) && b.contains_key(h));
        if exists|r: PreparedRequest| submitted(a, b, an, r) {
            let r = choose|r: PreparedRequest| submitted(a, b, an, r);
            assert(b[h] == a[h]);
        } else if started(a, b) {
            assert(b[h] == start_one(a[h]));
        } else if gathered(a, b) {
            assert(gather_one(a[h], b[h]));
        } else {
            let k = choose|k: u64| b == a.remove(k);
            assert(b[h] == a[h]);
        }
        assert forall|i: int| 0 <= i < trace.len() implies response_of((#[trigger] trace[i]).0, h)
            == response_of(trace[0].0, h) by {
            if i < n {
                assert(prefix[i] == trace[i]);
            }
        }
    }
}

/// A disposed handle never comes back: no later step makes it a key again,
/// so nothing delivered for it afterwards can be read, through it or through
/// any other handle.
pub proof fn law_disposed_handle_stays_gone(trace: Seq<(Map<u64, OpState>, u64)>, h: u64)
    requires
        trace.len() > 0,
        is_run(trace),
        !trace[0].0.contains_key(h),
        h < trace[0].1,
    ensures
        forall|i: int|
            0 <= i < trace.len() ==> !(#[trigger] trace[i]).0.contains_key(h) && h < trace[i].1,
    decreases trace.len(),
{
    if trace.len() > 1 {
        let prefix = trace.drop_last();
        assert forall|i: int| 0 <= i < prefix.len() - 1 implies bridge_step(
            #[trigger] prefix[i].0,
            prefix[i].1,
            prefix[i + 1].0,
            prefix[i + 1].1,
        ) by {
            assert(prefix[i] == trace[i] && prefix[i + 1] == trace[i + 1]);
            assert(bridge_step(trace[i].0, trace[i].1, trace[i + 1].0, trace[i + 1].1));
        }
        law_disposed_handle_stays_gone(prefix, h);
        let n = trace.len() - 1;
        let (a, an) = trace[n - 1];
        let (b, bn) = trace[n];
        assert(prefix[n - 1] == trace[n - 1]);
        assert(bridge_step(a, an, b, bn));
        assert(!a.contains_key(h) && h < an);
        if exists|r: PreparedRequest| submitted(a, b, an, r) {
            let r = choose|r: PreparedRequest| submitted(a, b, an, r);
            assert(!b.contains_key(h));
        } else if started(a, b) {
            assert(!b.contains_key(h));
        } else if gathered(a, b) {
            assert(!b.contains_key(h));
        } else {
            let k = choose|k: u64| b == a.remove(k);
            assert(!b.contains_key(h));
        }
        assert forall|i: int| 0 <= i < trace.len() implies !(#[trigger] trace[i]).0.contains_key(h) && h
            < trace[i].1 by {
            if i < n {
                assert(prefix[i] == trace[i]);
            }
        }
    }
}

/// The operations and their states, in the order they were submitted.
pub struct HttpRequests {
    entries: Vec<OpEntry>,
    next_id: u64,
    ops: Ghost<Map<u64, OpState>>,
}

impl View for HttpRequests {
    type V = Map<u64, OpState>;

    closed spec fn view(&self) -> Map<u64, OpState> {
        self.ops@
    }
}

impl HttpRequests {
    /// The handle that the next submitted request receives.
    pub closed spec fn next_handle(&self) -> u64 {
        self.next_id
    }

    pub closed spec fn inv(&self) -> bool {
        &&& forall|i: int, j: int|
            0 <= i < j < self.entries.len() ==> self.entries[i].handle < self.entries[j].handle
        &&& forall|i: int|
            0 <= i < self.entries.len() ==> {
                &&& self.ops@.contains_key(#[trigger] self.entries[i].handle)
                &&& self.ops@[self.entries[i].handle] == self.entries[i].record.state()
            }
        &&& forall|k: u64|
            #[trigger] self.ops@.contains_key(k) ==> exists|i: int|
                0 <= i < self.entries.len() && #[trigger] self.entries[i].handle == k
    }

    /// Well-formed: every handle in use was issued before the next one.
    pub open spec fn wf(&self) -> bool {
        &&& self.inv()
        &&& forall|k: u64| #[trigger] self@.contains_key(k) ==> k < self.next_handle()
    }

    pub fn new() -> (b: HttpRequests)
        ensures
            b.wf(),
            b@ == Map::<u64, OpState>::empty(),
            b.next_handle() == 0,
    {
        HttpRequests { entries: Vec::new(), next_id: 0, ops: Ghost(Map::empty()) }
    }

    /// The handle that the next submitted request receives.
    pub fn next_handle_value(&self) -> (n: u64)
        ensures
            n == self.next_handle(),
    {
        self.next_id
    }

    /// Index of the entry for `h`, if there is one.
    fn find(&self, h: u64) -> (r: Option<usize>)
        requires
            self.wf(),
        ensures
            match r {
                Some(i) => i < self.entries.len() && self.entries[i as int].handle == h,
                None => !self@.contains_key(h),
            },
    {
        let mut i: usize = 0;
        while i < self.entries.len()
            invariant
                self.wf(),
                i <= self.entries.len(),
                forall|j: int| 0 <= j < i ==> self.entries[j].handle != h,
            decreases self.entries.len() - i,
        {
            if self.entries[i].handle == h {
                return Some(i);
            }
            i = i + 1;
        }
        None
    }

    /// Submits a prepared request; it is sent at the next start phase.
    pub fn request(&mut self, request: PreparedRequest) -> (h: HttpRequestHandle)
        requires
            old(self).wf(),
            old(self).next_handle() < u64::MAX,
        ensures
            final(self).wf(),
            h.id == old(self).next_handle(),
            final(self).next_handle() == old(self).next_handle() + 1,
            submitted(old(self)@, final(self)@, h.id, request),
    {
        let id = self.next_id;
        let ghost req = request;
        let ghost old_entries = self.entries@;
        self.entries.push(OpEntry { handle: id, record: OpRecord::Pending(request) });
        self.next_id = id + 1;
        self.ops = Ghost(self.ops@.insert(id, OpState::Pending(req)));
        proof {
            let n = old_entries.len() as int;
            assert(self.entries[n].handle == id);
            assert forall|i: int| 0 <= i < n implies #[trigger] old_entries[i].handle < id by {
                assert(old(self)@.contains_key(old_entries[i].handle));
            }
            assert forall|i: int, j: int| 0 <= i < j < self.entries.len() implies self.entries[i].handle
                < self.entries[j].handle by {
                assert(old_entries[i].handle < id);
            }
            assert forall|i: int| 0 <= i < self.entries.len() implies {
                &&& self.ops@.contains_key(#[trigger] self.entries[i].handle)
                &&& self.ops@[self.entries[i].handle] == self.entries[i].record.state()
            } by {
                if i < n {
                    assert(old_entries[i].handle < id);
                }
            }
            assert forall|k: u64| #[trigger] self.ops@.contains_key(k) implies exists|i: int|
                0 <= i < self.entries.len() && #[trigger] self.entries[i].handle == k by {
                if k != id {
                    let i = choose|i: int| 0 <= i < old_entries.len() && #[trigger] old_entries[i].handle == k;
                    assert(self.entries[i].handle == k);
                }
            }
        }
        HttpRequestHandle { id }
    }

    /// The outcome of `h`, once the gather phase has read it; `None` before,
    /// and for a handle that was disposed.
    pub fn get_response(&self, h: &HttpRequestHandle) -> (r: Option<&HttpResult>)
        requires
            self.wf(),
        ensures
            match r {
                Some(x) => response_of(self@, h.id) == Some(*x),
                None => response_of(self@, h.id) is None,
            },
    {
        match self.find(h.id) {
            Some(i) => {
                let e = &self.entries[i];
                match &e.record {
                    OpRecord::Done(r) => Some(r),
                    _ => None,
                }
            },
            None => None,
        }
    }

    /// Drops the operation `h` whatever its state. An outcome that arrives
    /// for it later is never read.
    pub fn dispose(&mut self, h: HttpRequestHandle)
        requires
            old(self).wf(),
        ensures
            final(self).wf(),
            final(self)@ == old(self)@.remove(h.id),
            final(self).next_handle() == old(self).next_handle(),
    {
        match self.find(h.id) {
            Some(i) => {
                let ghost old_entries = self.entries@;
                let _ = self.entries.remove(i);
                self.ops = Ghost(self.ops@.remove(h.id));
                proof {
                    assert forall|k: u64| #[trigger] self@.contains_key(k) implies k < self.next_id by {
                        assert(old(self)@.contains_key(k));
                    }
                    assert forall|a: int, b: int| 0 <= a < b < self.entries.len() implies self.entries[a].handle
                        < self.entries[b].handle by {
                        if a >= i {
                            assert(old_entries[a + 1].handle < old_entries[b + 1].handle);
                        } else if b >= i {
                            assert(old_entries[a].handle < old_entries[b + 1].handle);
                        }
                    }
                    assert forall|a: int| 0 <= a < self.entries.len() implies {
                        &&& self.ops@.contains_key(#[trigger] self.entries[a].handle)
                        &&& self.ops@[self.entries[a].handle] == self.entries[a].record.state()
                    } by {
                        if a >= i {
                            assert(old_entries[i as int].handle < old_entries[a + 1].handle);
                        } else {
                            assert(old_entries[a].handle < old_entries[i as int].handle);
                        }
                    }
                    assert forall|k: u64| #[trigger] self.ops@.contains_key(k) implies exists|j: int|
                        0 <= j < self.entries.len() && #[trigger] self.entries[j].handle == k by {
                        let j = choose|j: int| 0 <= j < old_entries.len() && #[trigger] old_entries[j].handle == k;
                        if j < i {
                            assert(self.entries[j].handle == k);
                        } else {
                            assert(j != i);
                            assert(self.entries[j - 1].handle == k);
                        }
                    }
                }
            },
            None => {
                assert(self.ops@.remove(h.id) =~= self.ops@);
            },
        }
    }

    /// The start phase: hands out every pending request, in the order they
    /// were submitted, each with the sending half of a fresh one-slot channel
    /// whose receiving half its record keeps. Every pending operation is
    /// handed out exactly once.
    pub fn execute_requests(&mut self) -> (out: Vec<StartedRequest>)
        requires
            old(self).wf(),
        ensures
            final(self).wf(),
            final(self).next_handle() == old(self).next_handle(),
            started(old(self)@, final(self)@),
            forall|j: int|
                0 <= j < out.len() ==> {
                    &&& old(self)@.contains_key(#[trigger] out[j].handle)
                    &&& old(self)@[out[j].handle] == OpState::Pending(out[j].request)
                },
            forall|k: u64|
                #[trigger] old(self)@.contains_key(k) && old(self)@[k] is Pending ==> exists|j: int|
                    0 <= j < out.len() && #[trigger] out[j].handle == k,
            forall|a: int, b: int| 0 <= a < b < out.len() ==> out[a].handle < out[b].handle,
    {
        let mut rest: Vec<OpEntry> = Vec::new();
        std::mem::swap(&mut rest, &mut self.entries);
        let ghost orig = rest@;
        let ghost old_ops = self.ops@;
        let mut out: Vec<StartedRequest> = Vec::new();
        // `src[j]` is the position in `orig` that `out[j]` came from, and
        // `pos[i]` the position in `out` of the pending entry `orig[i]`.
        let ghost mut src: Seq<int> = Seq::empty();
        let ghost mut pos: Map<int, int> = Map::empty();
        while rest.len() > 0
            invariant
                old(self).wf(),
                orig == old(self).entries@,
                old_ops == old(self).ops@,
                self.next_id == old(self).next_id,
                self.entries.len() <= orig.len(),
                rest@ == orig.subrange(self.entries.len() as int, orig.len() as int),
                forall|i: int|
                    0 <= i < self.entries.len() ==> {
                        &&& (#[trigger] self.entries[i]).handle == orig[i].handle
                        &&& self.entries[i].record.state() == start_one(orig[i].record.state())
                    },
                src.len() == out.len(),
                forall|j: int|
                    0 <= j < out.len() ==> {
                        &&& 0 <= #[trigger] src[j] < self.entries.len()
                        &&& orig[src[j]].handle == out[j].handle
                        &&& orig[src[j]].record.state() == OpState::Pending(out[j].request)
                    },
                forall|i: int|
                    0 <= i < self.entries.len() && (#[trigger] orig[i]).record.state() is Pending ==> {
                        &&& pos.contains_key(i)
                        &&& 0 <= pos[i] < out.len()
                        &&& out[pos[i]].handle == orig[i].handle
                    },
                forall|a: int, b: int| 0 <= a < b < src.len() ==> src[a] < src[b],
            decreases rest.len(),
        {
            let ghost n = self.entries.len() as int;
            let e = rest.remove(0);
            assert(e == orig[n]);
            let OpEntry { handle, record } = e;
            match record {
                OpRecord::Pending(request) => {
                    let (sender, receiver) = crossbeam_channel::bounded(1);
                    self.entries.push(OpEntry { handle, record: OpRecord::InProgress(receiver) });
                    out.push(StartedRequest { handle, request, sender });
                    proof {
                        pos = pos.insert(n, src.len() as int);
                        src = src.push(n);
                    }
                },
                other => {
                    self.entries.push(OpEntry { handle, record: other });
                },
            }
        }
        self.ops = Ghost(Map::new(|k: u64| old_ops.contains_key(k), |k: u64| start_one(old_ops[k])));
        proof {
            assert(self.entries.len() == orig.len());
            assert(self.ops@.dom() =~= old_ops.dom());
            assert forall|k: u64| #[trigger] self.ops@.contains_key(k) implies exists|i: int|
                0 <= i < self.entries.len() && #[trigger] self.entries[i].handle == k by {
                let i = choose|i: int| 0 <= i < orig.len() && #[trigger] orig[i].handle == k;
                assert(self.entries[i].handle == k);
            }
            assert forall|a: int, b: int| 0 <= a < b < self.entries.len() implies self.entries[a].handle
                < self.entries[b].handle by {
                assert(orig[a].handle < orig[b].handle);
            }
            assert forall|i: int| 0 <= i < self.entries.len() implies {
                &&& self.ops@.contains_key(#[trigger] self.entries[i].handle)
                &&& self.ops@[self.entries[i].handle] == self.entries[i].record.state()
            } by {
                assert(old_ops.contains_key(orig[i].handle));
            }
            assert forall|k: u64| #[trigger] self@.contains_key(k) implies k < self.next_id by {
                assert(old(self)@.contains_key(k));
            }
            assert forall|a: int, b: int| 0 <= a < b < out.len() implies out[a].handle < out[b].handle by {
                assert(src[a] < src[b]);
                assert(orig[src[a]].handle < orig[src[b]].handle);
            }
            assert forall|j: int| 0 <= j < out.len() implies {
                &&& old(self)@.contains_key(#[trigger] out[j].handle)
                &&& old(self)@[out[j].handle] == OpState::Pending(out[j].request)
            } by {
                assert(old_ops.contains_key(orig[src[j]].handle));
            }
            assert forall|k: u64|
                #[trigger] old(self)@.contains_key(k) && old(self)@[k] is Pending implies exists|j: int|
                0 <= j < out.len() && #[trigger] out[j].handle == k by {
                let i = choose|i: int| 0 <= i < orig.len() && #[trigger] orig[i].handle == k;
                assert(orig[i].record.state() is Pending);
                assert(out[pos[i]].handle == k);
            }
        }
        out
    }

    /// The gather phase: reads, without blocking, the channel of every
    /// operation in progress; one that has its outcome becomes done with it.
    /// Nothing else changes: no operation appears or disappears, and a
    /// finished one keeps its outcome.
    pub fn gather_responses(&mut self)
        requires
            old(self).wf(),
        ensures
            final(self).wf(),
            final(self).next_handle() == old(self).next_handle(),
            gathered(old(self)@, final(self)@),
    {
        let mut rest: Vec<OpEntry> = Vec::new();
        std::mem::swap(&mut rest, &mut self.entries);
        let ghost orig = rest@;
        let ghost old_ops = self.ops@;
        while rest.len() > 0
            invariant
                old(self).wf(),
                orig == old(self).entries@,
                old_ops == old(self).ops@,
                self.next_id == old(self).next_id,
                self.entries.len() <= orig.len(),
                rest@ == orig.subrange(self.entries.len() as int, orig.len() as int),
                self.ops@.dom() == old_ops.dom(),
                forall|i: int|
                    0 <= i < self.entries.len() ==> {
                        &&& (#[trigger] self.entries[i]).handle == orig[i].handle
                        &&& self.ops@[orig[i].handle] == self.entries[i].record.state()
                    },
                forall|i: int|
                    self.entries.len() <= i < orig.len() ==> self.ops@[(#[trigger] orig[i]).handle]
                        == orig[i].record.state(),
                forall|k: u64| #[trigger] old_ops.contains_key(k) ==> gather_one(old_ops[k], self.ops@[k]),
            decreases rest.len(),
        {
            let ghost n = self.entries.len() as int;
            let e = rest.remove(0);
            assert(e == orig[n]);
            let OpEntry { handle, record } = e;
            let next = match record {
                OpRecord::InProgress(receiver) => match try_take(&receiver) {
                    Some(result) => OpRecord::Done(result),
                    None => OpRecord::InProgress(receiver),
                },
                other => other,
            };
            proof {
                assert(old_ops.contains_key(handle));
                assert(gather_one(orig[n].record.state(), next.state()));
                assert forall|i: int| n < i < orig.len() implies (#[trigger] orig[i]).handle != handle by {
                    assert(orig[n].handle < orig[i].handle);
                }
                assert forall|i: int| 0 <= i < n implies (#[trigger] orig[i]).handle != handle by {
                    assert(orig[i].handle < orig[n].handle);
                }
            }
            self.ops = Ghost(self.ops@.insert(handle, next.state()));
            self.entries.push(OpEntry { handle, record: next });
        }
        proof {
            assert(self.entries.len() == orig.len());
            assert forall|k: u64| #[trigger] self.ops@.contains_key(k) implies exists|i: int|
                0 <= i < self.entries.len() && #[trigger] self.entries[i].handle == k by {
                let i = choose|i: int| 0 <= i < orig.len() && #[trigger] orig[i].handle == k;
                assert(self.entries[i].handle == k);
            }
            assert forall|a: int, b: int| 0 <= a < b < self.entries.len() implies self.entries[a].handle
                < self.entries[b].handle by {
                assert(orig[a].handle < orig[b].handle);
            }
            assert forall|k: u64| #[trigger] self@.contains_key(k) implies k < self.next_id by {
                assert(old(self)@.contains_key(k));
            }
        }
    }
}

} // verus!
