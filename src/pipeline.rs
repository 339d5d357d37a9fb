//! The effect pipeline: effects are created on the daemon once, then applied
//! by identifier, each application with a deadline after which it is
//! abandoned.

use vstd::prelude::*;

use crate::api::{api_path, Effect};
use crate::bridge::{
    response_of, HTTPMethod, HttpRequestHandle, HttpRequests, OpState, PreparedRequest,
    RequestBody,
};
use crate::session::ChromaRunner;
use crate::tracking::{
    ascending_below, dropped_records, handles_of, kept_records, retire_tracked, tracked_view, without,
    TrackedRequest,
};
use crate::wire::{created_effect_id, decode_created_effect_id, url_join};

verus! {

/// Milliseconds an application may wait when its caller names no deadline.
pub const DEFAULT_APPLY_DEADLINE_MS: u64 = 60_000;

/// The path, below the session's base URL, that applies an effect.
pub const APPLY_API: &'static str = "effect";

/// Refers to an effect declared through [`Chroma::create_effect`].
#[derive(Debug, PartialEq, Eq, Structural, PartialOrd, Ord, Hash)]
pub struct EffectHandle {
    pub id: u64,
}

/// How far the daemon has got with an effect.
#[derive(Debug)]
pub enum EffectStage {
    /// Declared; its creation request is not yet submitted.
    Uncreated,
    /// Its creation request is in flight.
    Creating(HttpRequestHandle),
    /// The daemon created it under this identifier.
    Created(String),
    /// Its creation failed; it is not tried again.
    Failed,
}

/// An effect and where its creation stands.
#[derive(Debug)]
pub struct EffectRecord {
    pub effect: Effect,
    pub stage: EffectStage,
}

/// An intent to apply a declared effect, abandoned after `deadline`.
#[derive(Clone, Copy, Debug, PartialEq, Eq, Structural)]
pub struct ApplyEffectRequest {
    pub effect: u64,
    pub deadline: u64,
}

impl ApplyEffectRequest {
    /// Whether `now` is past the deadline.
    pub fn is_expired(&self, now: u64) -> (r: bool)
        ensures
            r == (now > self.deadline),
    {
        now > self.deadline
    }
}

/// What the create phase makes of effect record `a`, given as `b`, when the
/// session's base URL is `root`: an uncreated effect gets a creation request
/// — a POST of the effect to its device class's path — or, when that path
/// cannot be resolved, fails; any other record is left as it is.
pub open spec fn create_step(
    a: EffectRecord,
    b: EffectRecord,
    old_ops: Map<u64, OpState>,
    new_ops: Map<u64, OpState>,
    root: Seq<char>,
) -> bool {
    &&& b.effect == a.effect
    &&& if a.stage is Uncreated {
        match url_join(root, api_path(a.effect)) {
            None => b.stage is Failed,
            Some(u) => {
                &&& b.stage is Creating
                &&& !old_ops.contains_key(b.stage->Creating_0.id)
                &&& new_ops.contains_key(b.stage->Creating_0.id)
                &&& new_ops[b.stage->Creating_0.id] matches OpState::Pending(r) && r.method
                    == HTTPMethod::Post && r.url@ == u && r.body == RequestBody::Effect(a.effect)
            },
        }
    } else {
        b == a
    }
}

/// What the create-gather phase makes of effect record `a`, given as `b`,
/// when the bridge holds `ops`: a creation request with a reply that names
/// an identifier gives a created effect; one that failed, or whose reply
/// names none, gives a failed effect; one without an outcome, and any other
/// record, stay as they are.
pub open spec fn gather_creation(a: EffectRecord, b: EffectRecord, ops: Map<u64, OpState>) -> bool {
    &&& b.effect == a.effect
    &&& if a.stage is Creating {
        match response_of(ops, a.stage->Creating_0.id) {
            None => b == a,
            Some(Ok(resp)) => match created_effect_id(resp.body_bytes@) {
                Some(id) => b.stage is Created && b.stage->Created_0@ == id,
                None => b.stage is Failed,
            },
            Some(Err(_)) => b.stage is Failed,
        }
    } else {
        b == a
    }
}

/// The creation requests of `effects` that have an outcome in `ops`, in order.
pub open spec fn resolved_creations(effects: Seq<EffectRecord>, ops: Map<u64, OpState>) -> Seq<u64>
    decreases effects.len(),
{
    if effects.len() == 0 {
        Seq::empty()
    } else {
        let rest = resolved_creations(effects.drop_last(), ops);
        let last = effects.last();
        if last.stage is Creating && response_of(ops, last.stage->Creating_0.id) is Some {
            rest.push(last.stage->Creating_0.id)
        } else {
            rest
        }
    }
}

/// The ids of `hs`.
pub open spec fn ids_of(hs: Seq<HttpRequestHandle>) -> Seq<u64> {
    hs.map_values(|h: HttpRequestHandle| h.id)
}

/// Disposes `handles`, first to last.
fn dispose_all(requests: &mut HttpRequests, handles: Vec<HttpRequestHandle>)
    requires
        old(requests).wf(),
    ensures
        final(requests).wf(),
        final(requests).next_handle() == old(requests).next_handle(),
        final(requests)@ == without(old(requests)@, ids_of(handles@)),
{
    let mut rest = handles;
    let ghost all = rest@;
    let ghost ops0 = requests@;
    let ghost mut done: int = 0;
    assert(ids_of(all.subrange(0, 0)) =~= Seq::<u64>::empty());
    while rest.len() > 0
        invariant
            0 <= done <= all.len(),
            rest@ == all.subrange(done, all.len() as int),
            requests.wf(),
            requests.next_handle() == old(requests).next_handle(),
            ops0 == old(requests)@,
            requests@ == without(ops0, ids_of(all.subrange(0, done))),
        decreases rest.len(),
    {
        let h = rest.remove(0);
        assert(h == all[done]);
        requests.dispose(h);
        proof {
            assert(ids_of(all.subrange(0, done + 1)).drop_last() =~= ids_of(all.subrange(0, done)));
            assert(rest@ =~= all.subrange(done + 1, all.len() as int));
            done = done + 1;
        }
    }
    assert(all.subrange(0, all.len() as int) =~= all);
}

/// The identifier under which the daemon created the target of `r`, once it has.
pub open spec fn created_id_of(effects: Seq<EffectRecord>, r: ApplyEffectRequest) -> Option<Seq<char>> {
    if r.effect < effects.len() && effects[r.effect as int].stage is Created {
        Some(effects[r.effect as int].stage->Created_0@)
    } else {
        None
    }
}

/// At `now`, `r` is sent: its deadline has not passed, its effect was
/// created, and the apply path resolves against the base URL `root`.
pub open spec fn apply_sent(
    effects: Seq<EffectRecord>,
    root: Seq<char>,
    now: u64,
    r: ApplyEffectRequest,
) -> bool {
    &&& now <= r.deadline
    &&& created_id_of(effects, r) is Some
    &&& url_join(root, APPLY_API@) is Some
}

/// The applications of `applies` that are sent at `now`, in order.
pub open spec fn applies_sent(
    applies: Seq<ApplyEffectRequest>,
    effects: Seq<EffectRecord>,
    root: Seq<char>,
    now: u64,
) -> Seq<ApplyEffectRequest> {
    applies.filter(|r: ApplyEffectRequest| apply_sent(effects, root, now, r))
}

/// At `now`, `r` keeps waiting: its deadline has not passed and its effect
/// is not created yet.
pub open spec fn apply_waits(effects: Seq<EffectRecord>, now: u64, r: ApplyEffectRequest) -> bool {
    now <= r.deadline && created_id_of(effects, r) is None
}

/// `k` is a PUT of `{"id": ...}` naming the effect that `r` targets, to the
/// apply path below `root`, which `old_ops` did not hold.
pub open spec fn apply_request_sent(
    old_ops: Map<u64, OpState>,
    new_ops: Map<u64, OpState>,
    k: u64,
    effects: Seq<EffectRecord>,
    root: Seq<char>,
    r: ApplyEffectRequest,
) -> bool {
    &&& !old_ops.contains_key(k)
    &&& new_ops.contains_key(k)
    &&& new_ops[k] is Pending
    &&& new_ops[k]->Pending_0.method == HTTPMethod::Put
    &&& url_join(root, APPLY_API@) == Some(new_ops[k]->Pending_0.url@)
    &&& new_ops[k]->Pending_0.body is EffectId
    &&& created_id_of(effects, r) == Some(new_ops[k]->Pending_0.body->EffectId_0@)
}

/// An application whose deadline has already passed is neither sent nor
/// kept waiting by the apply phase: it never reaches the transport.
pub proof fn law_expired_apply_is_never_sent(
    c: Chroma,
    root: Seq<char>,
    now: u64,
    r: ApplyEffectRequest,
)
    requires
        now > r.deadline,
    ensures
        !c.sent_applies(root, now).contains(r),
        !c.spec_apply_requests().filter(|x: ApplyEffectRequest| apply_waits(c.spec_effects(), now, x)).contains(
            r,
        ),
{
    broadcast use vstd::seq_lib::group_filter_ensures;

    let sp = |x: ApplyEffectRequest| apply_sent(c.spec_effects(), root, now, x);
    let wp = |x: ApplyEffectRequest| apply_waits(c.spec_effects(), now, x);
    let sent = c.spec_apply_requests().filter(sp);
    let waiting = c.spec_apply_requests().filter(wp);
    if sent.contains(r) {
        let j = choose|j: int| 0 <= j < sent.len() && sent[j] == r;
        assert(sp(sent[j]));
    }
    if waiting.contains(r) {
        let j = choose|j: int| 0 <= j < waiting.len() && waiting[j] == r;
        assert(wp(waiting[j]));
    }
}

/// The creation request of `rec` is the operation `k`.
pub open spec fn awaits_creation(rec: EffectRecord, k: u64) -> bool {
    rec.stage is Creating && rec.stage->Creating_0.id == k
}

/// The effects, the applications waiting for their effect, and the
/// applications in flight.
pub struct Chroma {
    effects: Vec<EffectRecord>,
    apply_requests: Vec<ApplyEffectRequest>,
    in_flight_applies: Vec<TrackedRequest>,
}

impl Chroma {
    pub closed spec fn spec_effects(&self) -> Seq<EffectRecord> {
        self.effects@
    }

    pub closed spec fn spec_apply_requests(&self) -> Seq<ApplyEffectRequest> {
        self.apply_requests@
    }

    /// The applications in flight as `(handle, deadline)`.
    pub closed spec fn spec_in_flight(&self) -> Seq<(u64, u64)> {
        tracked_view(self.in_flight_applies@)
    }

    /// The waiting applications that the apply phase sends at `now`, with
    /// the base URL `root`.
    pub open spec fn sent_applies(&self, root: Seq<char>, now: u64) -> Seq<ApplyEffectRequest> {
        applies_sent(self.spec_apply_requests(), self.spec_effects(), root, now)
    }

    /// Well formed next to the bridge `requests`: in-flight handles increase
    /// and were all issued.
    pub open spec fn wf(&self, requests: &HttpRequests) -> bool {
        ascending_below(self.spec_in_flight(), requests.next_handle())
    }

    pub fn new() -> (c: Chroma)
        ensures
            c.spec_effects().len() == 0,
            c.spec_apply_requests().len() == 0,
            c.spec_in_flight().len() == 0,
    {
        Chroma { effects: Vec::new(), apply_requests: Vec::new(), in_flight_applies: Vec::new() }
    }

    /// How many effects were declared.
    pub fn effect_count(&self) -> (n: usize)
        ensures
            n == self.spec_effects().len(),
    {
        self.effects.len()
    }

    /// The record of the effect `h`, if it was declared.
    pub fn effect(&self, h: &EffectHandle) -> (r: Option<&EffectRecord>)
        ensures
            match r {
                Some(x) => h.id < self.spec_effects().len() && *x == self.spec_effects()[h.id as int],
                None => h.id >= self.spec_effects().len(),
            },
    {
        if h.id < self.effects.len() as u64 {
            Some(&self.effects[h.id as usize])
        } else {
            None
        }
    }

    /// How many applications are in flight.
    pub fn in_flight_apply_count(&self) -> (n: usize)
        ensures
            n == self.spec_in_flight().len(),
    {
        self.in_flight_applies.len()
    }

    /// How many applications wait for their effect.
    pub fn waiting_apply_count(&self) -> (n: usize)
        ensures
            n == self.spec_apply_requests().len(),
    {
        self.apply_requests.len()
    }

    /// Declares an effect; it is created on the daemon once a session runs.
    pub fn create_effect(&mut self, effect: Effect) -> (h: EffectHandle)
        requires
            old(self).spec_effects().len() < u64::MAX,
        ensures
            h.id == old(self).spec_effects().len(),
            final(self).spec_effects().len() == old(self).spec_effects().len() + 1,
            final(self).spec_effects().subrange(0, h.id as int) == old(self).spec_effects(),
            final(self).spec_effects()[h.id as int].effect == effect,
            final(self).spec_effects()[h.id as int].stage is Uncreated,
            final(self).spec_apply_requests() == old(self).spec_apply_requests(),
            final(self).spec_in_flight() == old(self).spec_in_flight(),
    {
        let id = self.effects.len() as u64;
        self.effects.push(EffectRecord { effect, stage: EffectStage::Uncreated });
        assert(self.effects@.subrange(0, id as int) =~= old(self).effects@);
        EffectHandle { id }
    }

    /// Asks for the effect to be applied, unless `deadline` passes first.
    pub fn apply_effect_with_deadline(&mut self, effect_handle: &EffectHandle, deadline: u64)
        ensures
            final(self).spec_apply_requests() == old(self).spec_apply_requests().push(
                ApplyEffectRequest { effect: effect_handle.id, deadline },
            ),
            final(self).spec_effects() == old(self).spec_effects(),
            final(self).spec_in_flight() == old(self).spec_in_flight(),
    {
        self.apply_requests.push(ApplyEffectRequest { effect: effect_handle.id, deadline });
    }

    /// Asks for the effect to be applied within the default deadline of
    /// `now`.
    pub fn apply_effect(&mut self, effect_handle: &EffectHandle, now: u64)
        ensures
            final(self).spec_apply_requests() == old(self).spec_apply_requests().push(
                ApplyEffectRequest {
                    effect: effect_handle.id,
                    deadline: now.saturating_add(DEFAULT_APPLY_DEADLINE_MS) as u64,
                },
            ),
            final(self).spec_effects() == old(self).spec_effects(),
            final(self).spec_in_flight() == old(self).spec_in_flight(),
    {
        self.apply_effect_with_deadline(effect_handle, now.saturating_add(DEFAULT_APPLY_DEADLINE_MS));
    }

    /// The create phase: every uncreated effect gets its creation request.
    pub fn system_create_pending_effects(&mut self, requests: &mut HttpRequests, runner: &ChromaRunner)
        requires
            old(self).wf(old(requests)),
            old(requests).wf(),
            old(requests).next_handle() + old(self).spec_effects().len() < u64::MAX,
        ensures
            final(self).wf(final(requests)),
            final(requests).wf(),
            final(requests).next_handle() >= old(requests).next_handle(),
            final(requests).next_handle() <= old(requests).next_handle() + old(self).spec_effects().len(),
            final(self).spec_apply_requests() == old(self).spec_apply_requests(),
            final(self).spec_in_flight() == old(self).spec_in_flight(),
            final(self).spec_effects().len() == old(self).spec_effects().len(),
            forall|i: int|
                0 <= i < old(self).spec_effects().len() ==> create_step(
                    #[trigger] old(self).spec_effects()[i],
                    final(self).spec_effects()[i],
                    old(requests)@,
                    final(requests)@,
                    runner.root_url@,
                ),
            forall|k: u64|
                #[trigger] old(requests)@.contains_key(k) ==> final(requests)@.contains_key(k)
                    && final(requests)@[k] == old(requests)@[k],
            forall|k: u64|
                #[trigger] final(requests)@.contains_key(k) && !old(requests)@.contains_key(k)
                    ==> exists|i: int|
                    0 <= i < final(self).spec_effects().len()
                        && awaits_creation(#[trigger] final(self).spec_effects()[i], k),
            forall|i: int, j: int|
                0 <= i < old(self).spec_effects().len() && 0 <= j < old(self).spec_effects().len()
                    && i != j && old(self).spec_effects()[i].stage is Uncreated
                    && old(self).spec_effects()[j].stage is Uncreated
                    && (#[trigger] final(self).spec_effects()[i]).stage is Creating
                    && (#[trigger] final(self).spec_effects()[j]).stage is Creating
                    ==> final(self).spec_effects()[i].stage->Creating_0.id
                    != final(self).spec_effects()[j].stage->Creating_0.id,
    {
        let mut rest: Vec<EffectRecord> = Vec::new();
        std::mem::swap(&mut rest, &mut self.effects);
        let ghost orig = rest@;
        let ghost ops0 = requests@;
        // `fresh[k]` is the effect whose creation request is `k`.
        let ghost mut fresh: Map<u64, int> = Map::empty();
        while rest.len() > 0
            invariant
                orig == old(self).effects@,
                ops0 == old(requests)@,
                requests.wf(),
                requests.next_handle() >= old(requests).next_handle(),
                requests.next_handle() <= old(requests).next_handle() + self.effects.len(),
                old(requests).next_handle() + orig.len() < u64::MAX,
                self.effects.len() <= orig.len(),
                rest@ == orig.subrange(self.effects.len() as int, orig.len() as int),
                self.apply_requests == old(self).apply_requests,
                self.in_flight_applies == old(self).in_flight_applies,
                forall|i: int|
                    0 <= i < self.effects.len() ==> create_step(
                        #[trigger] orig[i],
                        self.effects[i],
                        ops0,
                        requests@,
                        runner.root_url@,
                    ),
                forall|k: u64|
                    #[trigger] ops0.contains_key(k) ==> requests@.contains_key(k) && requests@[k]
                        == ops0[k],
                forall|k: u64|
                    #[trigger] requests@.contains_key(k) && !ops0.contains_key(k) ==> {
                        &&& fresh.contains_key(k)
                        &&& 0 <= fresh[k] < self.effects.len()
                        &&& awaits_creation(self.effects[fresh[k]], k)
                    },
                forall|i: int|
                    0 <= i < self.effects.len() && orig[i].stage is Uncreated
                        && (#[trigger] self.effects[i]).stage is Creating ==> {
                        &&& fresh.contains_key(self.effects[i].stage->Creating_0.id)
                        &&& fresh[self.effects[i].stage->Creating_0.id] == i
                    },
            decreases rest.len(),
        {
            let ghost n = self.effects.len() as int;
            let ghost before = requests@;
            let e = rest.remove(0);
            assert(e == orig[n]);
            let EffectRecord { effect, stage } = e;
            let next_stage = match stage {
                EffectStage::Uncreated => match runner.get_session_url(effect.get_api()) {
                    Some(url) => {
                        let request = PreparedRequest {
                            method: HTTPMethod::Post,
                            url,
                            body: RequestBody::Effect(effect),
                        };
                        let h = requests.request(request);
                        proof {
                            fresh = fresh.insert(h.id, n);
                        }
                        EffectStage::Creating(h)
                    },
                    None => EffectStage::Failed,
                },
                other => other,
            };
            self.effects.push(EffectRecord { effect, stage: next_stage });
            proof {
                assert forall|i: int|
                    0 <= i < self.effects.len() && orig[i].stage is Uncreated
                        && (#[trigger] self.effects[i]).stage is Creating implies {
                        &&& fresh.contains_key(self.effects[i].stage->Creating_0.id)
                        &&& fresh[self.effects[i].stage->Creating_0.id] == i
                    } by {
                    if i < n {
                        let k = self.effects[i].stage->Creating_0.id;
                        assert(create_step(orig[i], self.effects[i], ops0, before, runner.root_url@));
                        assert(before.contains_key(k));
                    }
                }
                assert forall|i: int| 0 <= i < self.effects.len() implies create_step(
                    #[trigger] orig[i],
                    self.effects[i],
                    ops0,
                    requests@,
                    runner.root_url@,
                ) by {
                    if i < n {
                        assert(create_step(orig[i], self.effects[i], ops0, before, runner.root_url@));
                        if orig[i].stage is Uncreated && self.effects[i].stage is Creating {
                            let k = self.effects[i].stage->Creating_0.id;
                            assert(before.contains_key(k));
                        }
                    }
                }
            }
        }
        assert(self.effects.len() == orig.len());
        proof {
            assert forall|k: u64|
                #[trigger] requests@.contains_key(k) && !old(requests)@.contains_key(k) implies exists|i: int|
                0 <= i < self.spec_effects().len() && awaits_creation(#[trigger] self.spec_effects()[i], k) by {
                let i = fresh[k];
                assert(awaits_creation(self.spec_effects()[i], k));
            }
            assert forall|i: int, j: int|
                0 <= i < orig.len() && 0 <= j < orig.len() && i != j && orig[i].stage is Uncreated
                    && orig[j].stage is Uncreated && (#[trigger] self.spec_effects()[i]).stage is Creating
                    && (#[trigger] self.spec_effects()[j]).stage is Creating implies self.spec_effects()[i].stage->Creating_0.id
                    != self.spec_effects()[j].stage->Creating_0.id by {
                assert(self.effects[i] == self.spec_effects()[i]);
                assert(self.effects[j] == self.spec_effects()[j]);
            }
        }
    }

    /// The create-gather phase: every creation request that has its outcome
    /// is disposed, and its effect becomes created, under the identifier that
    /// the reply names, or failed, for good.
    pub fn system_gather_create_effect_results(&mut self, requests: &mut HttpRequests)
        requires
            old(self).wf(old(requests)),
            old(requests).wf(),
        ensures
            final(self).wf(final(requests)),
            final(requests).wf(),
            final(requests).next_handle() == old(requests).next_handle(),
            final(self).spec_apply_requests() == old(self).spec_apply_requests(),
            final(self).spec_in_flight() == old(self).spec_in_flight(),
            final(self).spec_effects().len() == old(self).spec_effects().len(),
            forall|i: int|
                0 <= i < old(self).spec_effects().len() ==> gather_creation(
                    #[trigger] old(self).spec_effects()[i],
                    final(self).spec_effects()[i],
                    old(requests)@,
                ),
            final(requests)@ == without(
                old(requests)@,
                resolved_creations(old(self).spec_effects(), old(requests)@),
            ),
    {
        let mut rest: Vec<EffectRecord> = Vec::new();
        std::mem::swap(&mut rest, &mut self.effects);
        let ghost orig = rest@;
        let ghost ops0 = requests@;
        let mut finished: Vec<HttpRequestHandle> = Vec::new();
        assert(orig.subrange(0, 0) =~= Seq::<EffectRecord>::empty());
        assert(ids_of(finished@) =~= Seq::<u64>::empty());
        while rest.len() > 0
            invariant
                orig == old(self).effects@,
                ops0 == old(requests)@,
                *requests == *old(requests),
                requests.wf(),
                self.effects.len() <= orig.len(),
                rest@ == orig.subrange(self.effects.len() as int, orig.len() as int),
                self.apply_requests == old(self).apply_requests,
                self.in_flight_applies == old(self).in_flight_applies,
                forall|i: int|
                    0 <= i < self.effects.len() ==> gather_creation(
                        #[trigger] orig[i],
                        self.effects[i],
                        ops0,
                    ),
                ids_of(finished@) == resolved_creations(orig.subrange(0, self.effects.len() as int), ops0),
            decreases rest.len(),
        {
            let ghost n = self.effects.len() as int;
            let e = rest.remove(0);
            assert(e == orig[n]);
            assert(orig.subrange(0, n + 1).drop_last() =~= orig.subrange(0, n));
            assert(orig.subrange(0, n + 1).last() == orig[n]);
            let ghost finished_before = finished@;
            let EffectRecord { effect, stage } = e;
            let next_stage = match stage {
                EffectStage::Creating(h) => {
                    let outcome: Option<Option<String>> = match requests.get_response(&h) {
                        None => None,
                        Some(Ok(resp)) => Some(decode_created_effect_id(resp.body_bytes())),
                        Some(Err(_)) => Some(None),
                    };
                    match outcome {
                        None => EffectStage::Creating(h),
                        Some(Some(id)) => {
                            finished.push(h);
                            EffectStage::Created(id)
                        },
                        Some(None) => {
                            finished.push(h);
                            EffectStage::Failed
                        },
                    }
                },
                other => other,
            };
            self.effects.push(EffectRecord { effect, stage: next_stage });
            proof {
                if finished@.len() > finished_before.len() {
                    assert(ids_of(finished@) =~= ids_of(finished_before).push(orig[n].stage->Creating_0.id));
                } else {
                    assert(finished@ == finished_before);
                }
            }
        }
        dispose_all(requests, finished);
        assert(orig.subrange(0, orig.len() as int) =~= orig);
    }

    /// The apply phase: a waiting application whose deadline has passed is
    /// dropped without contacting the daemon; one whose effect was created
    /// is sent, a PUT naming the effect's identifier, and tracked in flight
    /// with the same deadline; one whose effect is not created yet keeps
    /// waiting.
    pub fn system_apply_effects(&mut self, requests: &mut HttpRequests, runner: &ChromaRunner, now: u64)
        requires
            old(self).wf(old(requests)),
            old(requests).wf(),
            old(requests).next_handle() + old(self).spec_apply_requests().len() < u64::MAX,
        ensures
            final(self).wf(final(requests)),
            final(requests).wf(),
            final(requests).next_handle() >= old(requests).next_handle(),
            final(self).spec_effects() == old(self).spec_effects(),
            final(self).spec_apply_requests() == old(self).spec_apply_requests().filter(
                |r: ApplyEffectRequest| apply_waits(old(self).spec_effects(), now, r),
            ),
            final(self).spec_in_flight().subrange(0, old(self).spec_in_flight().len() as int)
                == old(self).spec_in_flight(),
            final(self).spec_in_flight().len() == old(self).spec_in_flight().len() + old(self).sent_applies(
                runner.root_url@,
                now,
            ).len(),
            forall|j: int|
                0 <= j < old(self).sent_applies(runner.root_url@, now).len() ==> {
                    &&& final(self).spec_in_flight()[old(self).spec_in_flight().len() + j].1 == (
                    #[trigger] old(self).sent_applies(runner.root_url@, now)[j]).deadline
                    &&& apply_request_sent(
                        old(requests)@,
                        final(requests)@,
                        final(self).spec_in_flight()[old(self).spec_in_flight().len() + j].0,
                        old(self).spec_effects(),
                        runner.root_url@,
                        old(self).sent_applies(runner.root_url@, now)[j],
                    )
                },
            forall|k: u64|
                #[trigger] old(requests)@.contains_key(k) ==> final(requests)@.contains_key(k)
                    && final(requests)@[k] == old(requests)@[k],
            forall|k: u64|
                #[trigger] final(requests)@.contains_key(k) && !old(requests)@.contains_key(k)
                    ==> exists|j: int|
                    old(self).spec_in_flight().len() <= j < final(self).spec_in_flight().len()
                        && (#[trigger] final(self).spec_in_flight()[j]).0 == k,
    {
        let mut rest: Vec<ApplyEffectRequest> = Vec::new();
        std::mem::swap(&mut rest, &mut self.apply_requests);
        let ghost orig = rest@;
        let ghost ops0 = requests@;
        let ghost effects = self.effects@;
        let ghost root = runner.root_url@;
        let ghost wp = |r: ApplyEffectRequest| apply_waits(effects, now, r);
        let ghost sp = |r: ApplyEffectRequest| apply_sent(effects, root, now, r);
        let ghost base = self.spec_in_flight();
        let ghost mut done: int = 0;
        assert(orig.subrange(0, 0) =~= Seq::<ApplyEffectRequest>::empty());
        assert(self.apply_requests@ =~= orig.subrange(0, 0).filter(wp)) by {
            reveal(Seq::filter);
        }
        assert(orig.subrange(0, 0).filter(sp) =~= Seq::<ApplyEffectRequest>::empty()) by {
            reveal(Seq::filter);
        }
        assert(self.spec_in_flight().subrange(0, base.len() as int) =~= base);
        while rest.len() > 0
            invariant
                0 <= done <= orig.len(),
                orig == old(self).apply_requests@,
                ops0 == old(requests)@,
                effects == old(self).effects@,
                root == runner.root_url@,
                wp == (|r: ApplyEffectRequest| apply_waits(effects, now, r)),
                sp == (|r: ApplyEffectRequest| apply_sent(effects, root, now, r)),
                base == old(self).spec_in_flight(),
                self.effects == old(self).effects,
                rest@ == orig.subrange(done, orig.len() as int),
                requests.wf(),
                requests.next_handle() >= old(requests).next_handle(),
                requests.next_handle() <= old(requests).next_handle() + done,
                old(requests).next_handle() + orig.len() < u64::MAX,
                ascending_below(self.spec_in_flight(), requests.next_handle()),
                self.apply_requests@ == orig.subrange(0, done).filter(wp),
                self.spec_in_flight().subrange(0, base.len() as int) == base,
                self.spec_in_flight().len() == base.len() + orig.subrange(0, done).filter(sp).len(),
                forall|j: int|
                    0 <= j < orig.subrange(0, done).filter(sp).len() ==> {
                        let rec = self.spec_in_flight()[base.len() + j];
                        &&& rec.1 == (#[trigger] orig.subrange(0, done).filter(sp)[j]).deadline
                        &&& apply_request_sent(ops0, requests@, rec.0, effects, root, orig.subrange(0, done).filter(sp)[j])
                    },
                forall|k: u64|
                    #[trigger] ops0.contains_key(k) ==> requests@.contains_key(k) && requests@[k] == ops0[k],
                forall|k: u64|
                    #[trigger] requests@.contains_key(k) && !ops0.contains_key(k) ==> exists|j: int|
                        base.len() <= j < self.spec_in_flight().len()
                            && (#[trigger] self.spec_in_flight()[j]).0 == k,
            decreases rest.len(),
        {
            let ghost before_ops = requests@;
            let ghost before_flight = self.spec_in_flight();
            let r = rest.remove(0);
            assert(r == orig[done]);
            assert(orig.subrange(0, done + 1) =~= orig.subrange(0, done).push(orig[done]));
            proof {
                orig.subrange(0, done).lemma_filter_push(orig[done], wp);
                orig.subrange(0, done).lemma_filter_push(orig[done], sp);
            }
            if r.is_expired(now) {
            } else {
                let created: Option<&String> = if r.effect < self.effects.len() as u64 {
                    match &self.effects[r.effect as usize].stage {
                        EffectStage::Created(id) => Some(id),
                        _ => None,
                    }
                } else {
                    None
                };
                match created {
                    None => {
                        self.apply_requests.push(r);
                    },
                    Some(id) => {
                        match runner.get_session_url(APPLY_API) {
                            None => {},
                            Some(url) => {
                                let request = PreparedRequest {
                                    method: HTTPMethod::Put,
                                    url,
                                    body: RequestBody::EffectId(id.clone()),
                                };
                                let h = requests.request(request);
                                let ghost hid = h.id;
                                self.in_flight_applies.push(TrackedRequest { expires_at: r.deadline, request_handle: h });
                                proof {
                                    let sent_before = orig.subrange(0, done).filter(sp);
                                    assert(self.spec_in_flight() =~= before_flight.push((hid, r.deadline)));
                                    assert(orig.subrange(0, done + 1).filter(sp) =~= sent_before.push(r));
                                    assert(!ops0.contains_key(hid));
                                    assert forall|j: int|
                                        0 <= j < orig.subrange(0, done + 1).filter(sp).len() implies {
                                            let rec = self.spec_in_flight()[base.len() + j];
                                            &&& rec.1 == (#[trigger] orig.subrange(0, done + 1).filter(sp)[j]).deadline
                                            &&& apply_request_sent(ops0, requests@, rec.0, effects, root, orig.subrange(0, done + 1).filter(sp)[j])
                                        } by {
                                        if j < sent_before.len() {
                                            let rec = before_flight[base.len() + j];
                                            assert(apply_request_sent(ops0, before_ops, rec.0, effects, root, sent_before[j]));
                                            assert(before_ops.contains_key(rec.0));
                                        }
                                    }
                                    assert forall|k: u64|
                                        #[trigger] requests@.contains_key(k) && !ops0.contains_key(k) implies exists|j: int|
                                        base.len() <= j < self.spec_in_flight().len()
                                            && (#[trigger] self.spec_in_flight()[j]).0 == k by {
                                        if k == hid {
                                            assert(self.spec_in_flight()[self.spec_in_flight().len() - 1].0 == k);
                                        } else {
                                            let j = choose|j: int| base.len() <= j < before_flight.len()
                                                && (#[trigger] before_flight[j]).0 == k;
                                            assert(self.spec_in_flight()[j].0 == k);
                                        }
                                    }
                                }
                            },
                        }
                    },
                }
            }
            proof {
                assert(rest@ =~= orig.subrange(done + 1, orig.len() as int));
                done = done + 1;
            }
        }
        assert(orig.subrange(0, orig.len() as int) =~= orig);
    }

    /// The apply-cleanup phase: every application in flight that has passed
    /// its deadline is disposed and dropped, whatever became of it; every one
    /// that has its outcome is disposed and dropped; the others stay.
    pub fn system_apply_effects_cleanup(&mut self, requests: &mut HttpRequests, now: u64)
        requires
            old(self).wf(old(requests)),
            old(requests).wf(),
        ensures
            final(self).wf(final(requests)),
            final(requests).wf(),
            final(requests).next_handle() == old(requests).next_handle(),
            final(self).spec_effects() == old(self).spec_effects(),
            final(self).spec_apply_requests() == old(self).spec_apply_requests(),
            final(self).spec_in_flight() == kept_records(old(requests)@, now, old(self).spec_in_flight()),
            final(requests)@ == without(
                old(requests)@,
                handles_of(
                    dropped_records(old(requests)@, now, old(self).spec_in_flight()),
                ),
            ),
    {
        retire_tracked(&mut self.in_flight_applies, requests, now);
    }
}

} // verus!
