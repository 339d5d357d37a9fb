//! The heartbeat keepalive: while a session is open, a ping is submitted on a
//! fixed interval, and pings that were answered or that expired unanswered
//! are disposed and forgotten, so a stalled daemon cannot make them pile up.

use vstd::prelude::*;

use crate::bridge::{
    response_of, submitted, HTTPMethod, HttpRequests, OpState, PreparedRequest, RequestBody,
};
use crate::session::ChromaRunner;
use crate::tracking::{
    lemma_without_other, ascending_below, dropped_records, handles_of, kept_records, still_waiting, retire_tracked,
    tracked_view, without, TrackedRequest,
};
use crate::wire::url_join;

verus! {

/// Milliseconds between two keepalives.
pub const HEARTBEAT_INTERVAL_MS: u64 = 1000;

/// Milliseconds after which an unanswered keepalive is abandoned.
pub const HEARTBEAT_TIMEOUT_MS: u64 = 10_000;

/// The keepalive's path below the session's base URL.
pub const HEARTBEAT_API: &'static str = "heartbeat";

/// Filters whose conditions agree on every element of `s` keep the same
/// elements.
proof fn lemma_filter_congruent(
    s: Seq<(u64, u64)>,
    p: spec_fn((u64, u64)) -> bool,
    q: spec_fn((u64, u64)) -> bool,
)
    requires
        forall|i: int| 0 <= i < s.len() ==> p(#[trigger] s[i]) == q(s[i]),
    ensures
        s.filter(p) == s.filter(q),
    decreases s.len(),
{
    reveal(Seq::filter);
    if s.len() > 0 {
        let pre = s.drop_last();
        assert forall|i: int| 0 <= i < pre.len() implies p(#[trigger] pre[i]) == q(pre[i]) by {
            assert(pre[i] == s[i]);
        }
        lemma_filter_congruent(pre, p, q);
        assert(p(s[s.len() - 1]) == q(s[s.len() - 1]));
    }
}

/// A keepalive goes out for a session whose base URL is `root`: there is
/// a session and the heartbeat path resolves against its base URL.
pub open spec fn keepalive_sent(root: Option<Seq<char>>) -> bool {
    root is Some && url_join(root->Some_0, HEARTBEAT_API@) is Some
}

/// `s` is a keepalive for the session at `root`: a pending PUT of `{}` to
/// the heartbeat path below it.
pub open spec fn is_keepalive(s: OpState, root: Seq<char>) -> bool {
    &&& s is Pending
    &&& s->Pending_0.method == HTTPMethod::Put
    &&& url_join(root, HEARTBEAT_API@) == Some(s->Pending_0.url@)
    &&& s->Pending_0.body == RequestBody::EmptyObject
}

/// When every handle in `recs` is below `bound`, no filter of them holds
/// `bound`.
proof fn lemma_handles_below(recs: Seq<(u64, u64)>, p: spec_fn((u64, u64)) -> bool, bound: u64)
    requires
        forall|i: int| 0 <= i < recs.len() ==> (#[trigger] recs[i]).0 < bound,
    ensures
        !handles_of(recs.filter(p)).contains(bound),
{
    let f = recs.filter(p);
    if handles_of(f).contains(bound) {
        let i = choose|i: int| 0 <= i < handles_of(f).len() && handles_of(f)[i] == bound;
        assert(f.contains(f[i]));
        recs.lemma_filter_contains_rev(p, f[i]);
        let j = choose|j: int| 0 <= j < recs.len() && recs[j] == f[i];
        assert(recs[j].0 < bound);
    }
}

/// The instant a repeating timer that fell due at `due` fires next, seen at
/// `now`: it keeps its cadence, the next multiple of the interval after
/// `due` that is past `now`.
pub open spec fn next_due_after(due: u64, now: u64) -> u64 {
    now.saturating_add((HEARTBEAT_INTERVAL_MS - (now - due) % (HEARTBEAT_INTERVAL_MS as int)) as u64) as u64
}

/// The heartbeat's share of one tick at `now`, from `before` with the
/// bridge `ops_before` (next handle `next_before`) to `after`, `ops_after`
/// and `next_after`, with `root` the base URL of the open session if any.
/// Before the due instant nothing changes. From it on, the next one is an
/// interval later; when a session is open a keepalive is submitted at the
/// next handle and recorded with its expiry; the records that have an
/// outcome or have expired are dropped and their requests disposed.
pub open spec fn heartbeat_tick(
    before: Heartbeat,
    ops_before: Map<u64, OpState>,
    next_before: u64,
    after: Heartbeat,
    ops_after: Map<u64, OpState>,
    next_after: u64,
    root: Option<Seq<char>>,
    now: u64,
) -> bool {
    let kept = kept_records(ops_before, now, before.records());
    let gone = handles_of(dropped_records(ops_before, now, before.records()));
    if now < before.spec_next_due() {
        after == before && ops_after == ops_before && next_after == next_before
    } else {
        &&& after.spec_next_due() == next_due_after(before.spec_next_due(), now)
        &&& if keepalive_sent(root) {
            &&& after.records() == kept.push(
                (next_before, now.saturating_add(HEARTBEAT_TIMEOUT_MS) as u64),
            )
            &&& next_after == next_before + 1
            &&& ops_after.contains_key(next_before)
            &&& is_keepalive(ops_after[next_before], root->Some_0)
            &&& ops_after == without(ops_before.insert(next_before, ops_after[next_before]), gone)
        } else {
            &&& after.records() == kept
            &&& next_after == next_before
            &&& ops_after == without(ops_before, gone)
        }
    }
}

/// The keepalive records and the instant of the next keepalive.
pub struct Heartbeat {
    in_flight: Vec<TrackedRequest>,
    next_due: u64,
}

impl Heartbeat {
    /// The records in flight, oldest first, as `(handle, expiry)`.
    pub closed spec fn records(&self) -> Seq<(u64, u64)> {
        tracked_view(self.in_flight@)
    }

    pub closed spec fn spec_next_due(&self) -> u64 {
        self.next_due
    }

    /// Well formed next to the bridge `requests`.
    pub open spec fn wf(&self, requests: &HttpRequests) -> bool {
        ascending_below(self.records(), requests.next_handle())
    }

    /// How many keepalives are in flight.
    pub fn in_flight_count(&self) -> (n: usize)
        ensures
            n == self.records().len(),
    {
        self.in_flight.len()
    }

    /// No keepalive in flight; the first one is due `HEARTBEAT_INTERVAL_MS`
    /// after `now`.
    pub fn new(now: u64) -> (h: Heartbeat)
        ensures
            h.records() == Seq::<(u64, u64)>::empty(),
            h.spec_next_due() == now.saturating_add(HEARTBEAT_INTERVAL_MS) as u64,
    {
        let h = Heartbeat { in_flight: Vec::new(), next_due: now.saturating_add(HEARTBEAT_INTERVAL_MS) };
        assert(h.records() =~= Seq::<(u64, u64)>::empty());
        h
    }

    /// Submits a keepalive, a PUT of `{}` to the session's heartbeat path,
    /// and records it with expiry `now + HEARTBEAT_TIMEOUT_MS`. When that
    /// path cannot be resolved against the base URL, nothing is sent.
    pub fn system_heartbeat_keepalive(
        &mut self,
        requests: &mut HttpRequests,
        runner: &ChromaRunner,
        now: u64,
    )
        requires
            old(self).wf(old(requests)),
            old(requests).wf(),
            old(requests).next_handle() < u64::MAX,
        ensures
            final(self).wf(final(requests)),
            final(requests).wf(),
            final(self).spec_next_due() == old(self).spec_next_due(),
            match url_join(runner.root_url@, HEARTBEAT_API@) {
                None => *final(requests) == *old(requests) && final(self).records() == old(self).records(),
                Some(u) => {
                    &&& final(requests).next_handle() == old(requests).next_handle() + 1
                    &&& final(self).records() == old(self).records().push(
                        (old(requests).next_handle(), now.saturating_add(HEARTBEAT_TIMEOUT_MS) as u64),
                    )
                    &&& final(requests)@.contains_key(old(requests).next_handle())
                    &&& final(requests)@[old(requests).next_handle()] matches OpState::Pending(r)
                        && r.method == HTTPMethod::Put && r.url@ == u && r.body == RequestBody::EmptyObject
                    &&& submitted(old(requests)@, final(requests)@, old(requests).next_handle(), final(requests)@[old(requests).next_handle()]->Pending_0)
                },
            },
    {
        let url = match runner.get_session_url(HEARTBEAT_API) {
            Some(u) => u,
            None => return,
        };
        let request = PreparedRequest { method: HTTPMethod::Put, url, body: RequestBody::EmptyObject };
        let handle = requests.request(request);
        let ghost old_recs = self.records();
        self.in_flight.push(
            TrackedRequest {
                expires_at: now.saturating_add(HEARTBEAT_TIMEOUT_MS),
                request_handle: handle,
            },
        );
        assert(self.records() =~= old_recs.push(
            (old(requests).next_handle(), now.saturating_add(HEARTBEAT_TIMEOUT_MS) as u64),
        ));
    }


    /// Disposes and forgets every keepalive that has its outcome or that has
    /// expired by `now`; the others stay, in order.
    pub fn system_heartbeat_cleanup(&mut self, requests: &mut HttpRequests, now: u64)
        requires
            old(self).wf(old(requests)),
            old(requests).wf(),
        ensures
            final(self).wf(final(requests)),
            final(requests).wf(),
            final(requests).next_handle() == old(requests).next_handle(),
            final(self).spec_next_due() == old(self).spec_next_due(),
            final(self).records() == kept_records(old(requests)@, now, old(self).records()),
            final(requests)@ == without(
                old(requests)@,
                handles_of(
                    dropped_records(old(requests)@, now, old(self).records()),
                ),
            ),
    {
        retire_tracked(&mut self.in_flight, requests, now);
    }

    /// The heartbeat's share of a tick. Once `now` reaches the due instant,
    /// the next one is set an interval later, a keepalive is submitted when
    /// a session is open, and answered or expired keepalives are retired;
    /// before that, nothing happens.
    pub fn run_heartbeat(
        &mut self,
        requests: &mut HttpRequests,
        runner: Option<&ChromaRunner>,
        now: u64,
    )
        requires
            old(self).wf(old(requests)),
            old(requests).wf(),
            old(requests).next_handle() < u64::MAX,
        ensures
            final(self).wf(final(requests)),
            final(requests).wf(),
            final(requests).next_handle() >= old(requests).next_handle(),
            heartbeat_tick(
                *old(self),
                old(requests)@,
                old(requests).next_handle(),
                *final(self),
                final(requests)@,
                final(requests).next_handle(),
                match runner {
                    Some(r) => Some(r.root_url@),
                    None => None,
                },
                now,
            ),
    {
        if now < self.next_due {
            return;
        }
        self.next_due = now.saturating_add(HEARTBEAT_INTERVAL_MS - (now - self.next_due) % HEARTBEAT_INTERVAL_MS);
        let ghost ops0 = requests@;
        let ghost next0 = requests.next_handle();
        let ghost recs0 = self.records();
        match runner {
            Some(r) => self.system_heartbeat_keepalive(requests, r, now),
            None => {},
        }
        let ghost ops1 = requests@;
        let ghost recs1 = self.records();
        self.system_heartbeat_cleanup(requests, now);
        proof {
            if runner is Some && url_join(runner->Some_0.root_url@, HEARTBEAT_API@) is Some {
                assert(runner->Some_0.root_url@ == (match runner {
                    Some(r) => Some(r.root_url@),
                    None => None::<Seq<char>>,
                })->Some_0);
                let fresh = (next0, now.saturating_add(HEARTBEAT_TIMEOUT_MS) as u64);
                let kp1 = |r: (u64, u64)| still_waiting(ops1, now, r);
                let kp0 = |r: (u64, u64)| still_waiting(ops0, now, r);
                assert(recs1 == recs0.push(fresh));
                assert(response_of(ops1, next0) is None);
                recs0.lemma_filter_push(fresh, kp1);
                assert forall|i: int| 0 <= i < recs0.len() implies kp1(#[trigger] recs0[i]) == kp0(recs0[i]) by {
                    assert(recs0[i].0 < next0);
                    assert(ops1 == ops0.insert(next0, ops1[next0]));
                }
                lemma_filter_congruent(recs0, kp1, kp0);
                let dp1 = |r: (u64, u64)| !still_waiting(ops1, now, r);
                let dp0 = |r: (u64, u64)| !still_waiting(ops0, now, r);
                recs0.lemma_filter_push(fresh, dp1);
                assert forall|i: int| 0 <= i < recs0.len() implies dp1(#[trigger] recs0[i]) == dp0(recs0[i]) by {
                    assert(kp1(recs0[i]) == kp0(recs0[i]));
                }
                lemma_filter_congruent(recs0, dp1, dp0);
                let hs = handles_of(dropped_records(ops0, now, recs0));
                lemma_handles_below(recs0, dp0, next0);
                lemma_without_other(ops1, hs, next0);
                assert(ops1 == ops0.insert(next0, ops1[next0]));
            }
        }
    }
}

} // verus!
