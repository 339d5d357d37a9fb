//! The phases of a tick and the context that runs them.
//!
//! A tick runs, in order: the session-open step; the heartbeat; the phase
//! before execution, which submits requests; the start phase of the bridge;
//! the phase after execution, where request internals are not touched; the
//! gather phase of the bridge; and the phase after gathering, which consumes
//! results. A request submitted before the start phase of a tick is started
//! in that tick, and its result is read no earlier than that tick's gather
//! phase.

use vstd::prelude::*;

use crate::bridge::{gathered, started, HttpRequests, OpState, StartedRequest};
use crate::heartbeat::{heartbeat_tick, Heartbeat};
use crate::pipeline::{
    applies_sent, apply_request_sent, apply_waits, awaits_creation, create_step, gather_creation,
    resolved_creations, Chroma,
};
use crate::tracking::{dropped_records, handles_of, kept_records, without};
use crate::session::{
    init_update, lifecycle_step, ChromaRunnerInitializationSettings, InitError, Lifecycle, RunnerState,
};

verus! {

/// Names the schedule that runs the bridge's phases each tick.
#[derive(Clone, Copy, Debug, PartialEq, Eq, Structural, Hash)]
pub struct ExecuteHttpRequests;

/// The phases of the request schedule, in the order they run.
#[derive(Clone, Copy, Debug, PartialEq, Eq, Structural, Hash)]
pub enum HttpRequestSet {
    BeforeExecuteRequests,
    ExecuteRequests,
    AfterExecuteRequests,
    GatherResponses,
    AfterGatherResponses,
}

/// The place of a phase in the schedule, from zero.
pub open spec fn phase_rank(p: HttpRequestSet) -> nat {
    match p {
        HttpRequestSet::BeforeExecuteRequests => 0,
        HttpRequestSet::ExecuteRequests => 1,
        HttpRequestSet::AfterExecuteRequests => 2,
        HttpRequestSet::GatherResponses => 3,
        HttpRequestSet::AfterGatherResponses => 4,
    }
}

impl HttpRequestSet {
    /// The phase that runs next within the tick, if any.
    pub fn next(&self) -> (n: Option<HttpRequestSet>)
        ensures
            match n {
                Some(q) => phase_rank(q) == phase_rank(*self) + 1,
                None => phase_rank(*self) == 4,
            },
    {
        match self {
            HttpRequestSet::BeforeExecuteRequests => Some(HttpRequestSet::ExecuteRequests),
            HttpRequestSet::ExecuteRequests => Some(HttpRequestSet::AfterExecuteRequests),
            HttpRequestSet::AfterExecuteRequests => Some(HttpRequestSet::GatherResponses),
            HttpRequestSet::GatherResponses => Some(HttpRequestSet::AfterGatherResponses),
            HttpRequestSet::AfterGatherResponses => None,
        }
    }
}

/// The bridge and the three protocols built on it, run phase by phase.
pub struct ChromaApp {
    pub requests: HttpRequests,
    pub lifecycle: Lifecycle,
    pub heartbeat: Heartbeat,
    pub chroma: Chroma,
}

impl ChromaApp {
    /// The operations once the creation requests that have an outcome are
    /// disposed.
    pub open spec fn after_creations(&self) -> Map<u64, OpState> {
        without(self.requests@, resolved_creations(self.chroma.spec_effects(), self.requests@))
    }

    /// The base URL of the open session.
    pub open spec fn session_root(&self) -> Seq<char> {
        self.lifecycle.spec_runner()->Some_0.root_url@
    }

    pub open spec fn wf(&self) -> bool {
        &&& self.requests.wf()
        &&& self.lifecycle.wf()
        &&& self.heartbeat.wf(&self.requests)
        &&& self.chroma.wf(&self.requests)
    }

    /// Nothing submitted yet; the session is about to be opened with
    /// `settings`; the first heartbeat is due an interval after `now`.
    pub fn new(settings: ChromaRunnerInitializationSettings, now: u64) -> (a: ChromaApp)
        ensures
            a.wf(),
            a.lifecycle.spec_state() == RunnerState::Init,
            a.requests@ == Map::<u64, OpState>::empty(),
    {
        ChromaApp {
            requests: HttpRequests::new(),
            lifecycle: Lifecycle::new(settings),
            heartbeat: Heartbeat::new(now),
            chroma: Chroma::new(),
        }
    }

    /// The session-open step, with its error handling. Returns the failure
    /// that moved the session to `Error`, if this step had one.
    pub fn update(&mut self) -> (r: Option<InitError>)
        requires
            old(self).wf(),
        ensures
            final(self).wf(),
            lifecycle_step(old(self).lifecycle.spec_state(), final(self).lifecycle.spec_state()),
            (final(self).lifecycle.spec_state() == RunnerState::Error) == (old(self).lifecycle.spec_state()
                == RunnerState::Error || r is Some),
            final(self).heartbeat == old(self).heartbeat,
            final(self).chroma == old(self).chroma,
            old(self).requests.next_handle() == u64::MAX ==> *final(self) == *old(self) && r is None,
            old(self).requests.next_handle() < u64::MAX ==> init_update(
                old(self).lifecycle,
                old(self).requests@,
                old(self).requests.next_handle(),
                final(self).lifecycle,
                final(self).requests@,
                final(self).requests.next_handle(),
                r,
            ),
    {
        if self.requests.next_handle_value() == u64::MAX {
            return None;
        }
        self.lifecycle.update(&mut self.requests)
    }

    /// The heartbeat's share of the tick, with the open session's base URL
    /// if there is one.
    pub fn post_update(&mut self, now: u64)
        requires
            old(self).wf(),
        ensures
            final(self).wf(),
            final(self).lifecycle == old(self).lifecycle,
            final(self).chroma == old(self).chroma,
            old(self).requests.next_handle() == u64::MAX ==> *final(self) == *old(self),
            old(self).requests.next_handle() < u64::MAX ==> heartbeat_tick(
                old(self).heartbeat,
                old(self).requests@,
                old(self).requests.next_handle(),
                final(self).heartbeat,
                final(self).requests@,
                final(self).requests.next_handle(),
                match old(self).lifecycle.spec_runner() {
                    Some(r) => Some(r.root_url@),
                    None => None,
                },
                now,
            ),
    {
        if self.requests.next_handle_value() == u64::MAX {
            return;
        }
        let runner = self.lifecycle.runner();
        self.heartbeat.run_heartbeat(&mut self.requests, runner, now);
    }

    /// Before execution: while the session runs, effects that are not yet
    /// created get their creation requests, then waiting applications are
    /// sent, kept or dropped. Nothing happens before the session runs, nor
    /// when the bridge is out of handles for these requests.
    pub fn before_execute(&mut self, now: u64)
        requires
            old(self).wf(),
        ensures
            final(self).wf(),
            final(self).lifecycle == old(self).lifecycle,
            final(self).heartbeat == old(self).heartbeat,
            old(self).lifecycle.spec_state() != RunnerState::Running ==> *final(self) == *old(self),
            old(self).lifecycle.spec_state() == RunnerState::Running && old(self).requests.next_handle()
                + old(self).chroma.spec_effects().len() + old(self).chroma.spec_apply_requests().len()
                < u64::MAX ==> {
                &&& final(self).chroma.spec_effects().len() == old(self).chroma.spec_effects().len()
                &&& forall|i: int|
                    0 <= i < old(self).chroma.spec_effects().len() ==> create_step(
                        #[trigger] old(self).chroma.spec_effects()[i],
                        final(self).chroma.spec_effects()[i],
                        old(self).requests@,
                        final(self).requests@,
                        old(self).session_root(),
                    )
                &&& forall|i: int, j: int|
                    0 <= i < old(self).chroma.spec_effects().len() && 0 <= j
                        < old(self).chroma.spec_effects().len() && i != j
                        && old(self).chroma.spec_effects()[i].stage is Uncreated
                        && old(self).chroma.spec_effects()[j].stage is Uncreated
                        && (#[trigger] final(self).chroma.spec_effects()[i]).stage is Creating
                        && (#[trigger] final(self).chroma.spec_effects()[j]).stage is Creating
                        ==> final(self).chroma.spec_effects()[i].stage->Creating_0.id
                        != final(self).chroma.spec_effects()[j].stage->Creating_0.id
                &&& final(self).chroma.spec_apply_requests() == old(self).chroma.spec_apply_requests().filter(
                    |r| apply_waits(final(self).chroma.spec_effects(), now, r),
                )
                &&& final(self).chroma.spec_in_flight().subrange(0, old(self).chroma.spec_in_flight().len() as int)
                    == old(self).chroma.spec_in_flight()
                &&& final(self).chroma.spec_in_flight().len() == old(self).chroma.spec_in_flight().len()
                    + applies_sent(
                    old(self).chroma.spec_apply_requests(),
                    final(self).chroma.spec_effects(),
                    old(self).session_root(),
                    now,
                ).len()
                &&& forall|j: int|
                    0 <= j < applies_sent(
                        old(self).chroma.spec_apply_requests(),
                        final(self).chroma.spec_effects(),
                        old(self).session_root(),
                        now,
                    ).len() ==> {
                        &&& final(self).chroma.spec_in_flight()[old(self).chroma.spec_in_flight().len() + j].1
                            == (#[trigger] applies_sent(
                            old(self).chroma.spec_apply_requests(),
                            final(self).chroma.spec_effects(),
                            old(self).session_root(),
                            now,
                        )[j]).deadline
                        &&& apply_request_sent(
                            old(self).requests@,
                            final(self).requests@,
                            final(self).chroma.spec_in_flight()[old(self).chroma.spec_in_flight().len() + j].0,
                            final(self).chroma.spec_effects(),
                            old(self).session_root(),
                            applies_sent(
                                old(self).chroma.spec_apply_requests(),
                                final(self).chroma.spec_effects(),
                                old(self).session_root(),
                                now,
                            )[j],
                        )
                    }
                &&& forall|k: u64|
                    #[trigger] old(self).requests@.contains_key(k) ==> final(self).requests@.contains_key(k)
                        && final(self).requests@[k] == old(self).requests@[k]
                &&& forall|k: u64|
                    #[trigger] final(self).requests@.contains_key(k) && !old(self).requests@.contains_key(k)
                        ==> (exists|i: int|
                        0 <= i < final(self).chroma.spec_effects().len() && awaits_creation(
                            #[trigger] final(self).chroma.spec_effects()[i],
                            k,
                        )) || (exists|j: int|
                        old(self).chroma.spec_in_flight().len() <= j < final(self).chroma.spec_in_flight().len()
                            && (#[trigger] final(self).chroma.spec_in_flight()[j]).0 == k)
            },
            !(old(self).requests.next_handle() + old(self).chroma.spec_effects().len()
                + old(self).chroma.spec_apply_requests().len() < u64::MAX) ==> *final(self) == *old(self),
    {
        let left = u64::MAX - self.requests.next_handle_value();
        match self.lifecycle.runner() {
            None => {},
            Some(runner) => {
                let effects = self.chroma.effect_count() as u64;
                let waiting = self.chroma.waiting_apply_count() as u64;
                if effects < left && waiting < left - effects {
                    let ghost ops0 = self.requests@;
                    self.chroma.system_create_pending_effects(&mut self.requests, runner);
                    let ghost mid_effects = self.chroma.spec_effects();
                    let ghost ops1 = self.requests@;
                    let ghost mid_chroma = self.chroma;
                    self.chroma.system_apply_effects(&mut self.requests, runner, now);
                    proof {
                        let root = runner.root_url@;
                        assert(root == old(self).session_root());
                        let sent = mid_chroma.sent_applies(root, now);
                        assert(sent == applies_sent(
                            old(self).chroma.spec_apply_requests(),
                            self.chroma.spec_effects(),
                            root,
                            now,
                        ));
                        assert forall|j: int| 0 <= j < sent.len() implies apply_request_sent(
                            ops0,
                            self.requests@,
                            self.chroma.spec_in_flight()[old(self).chroma.spec_in_flight().len() + j].0,
                            self.chroma.spec_effects(),
                            root,
                            #[trigger] sent[j],
                        ) by {
                            let k = self.chroma.spec_in_flight()[old(self).chroma.spec_in_flight().len() + j].0;
                            assert(apply_request_sent(ops1, self.requests@, k, mid_effects, root, sent[j]));
                            if ops0.contains_key(k) {
                                assert(ops1.contains_key(k));
                            }
                        }
                        assert forall|k: u64|
                            #[trigger] self.requests@.contains_key(k) && !ops0.contains_key(k) implies (exists|i: int|
                            0 <= i < self.chroma.spec_effects().len() && awaits_creation(
                                #[trigger] self.chroma.spec_effects()[i],
                                k,
                            )) || (exists|j: int|
                            old(self).chroma.spec_in_flight().len() <= j < self.chroma.spec_in_flight().len()
                                && (#[trigger] self.chroma.spec_in_flight()[j]).0 == k) by {
                            if ops1.contains_key(k) {
                                let i = choose|i: int|
                                    0 <= i < mid_effects.len() && awaits_creation(#[trigger] mid_effects[i], k);
                                assert(awaits_creation(self.chroma.spec_effects()[i], k));
                            }
                        }
                        assert forall|i: int| 0 <= i < mid_effects.len() implies create_step(
                            #[trigger] old(self).chroma.spec_effects()[i],
                            self.chroma.spec_effects()[i],
                            ops0,
                            self.requests@,
                            root,
                        ) by {
                            assert(create_step(old(self).chroma.spec_effects()[i], mid_effects[i], ops0, ops1, root));
                            let b = mid_effects[i];
                            if old(self).chroma.spec_effects()[i].stage is Uncreated && b.stage is Creating {
                                assert(ops1.contains_key(b.stage->Creating_0.id));
                            }
                        }
                    }
                }
            },
        }
    }

    /// The start phase of the bridge: the requests to send, each with the
    /// channel its outcome goes into.
    pub fn execute(&mut self) -> (out: Vec<StartedRequest>)
        requires
            old(self).wf(),
        ensures
            final(self).wf(),
            final(self).lifecycle == old(self).lifecycle,
            started(old(self).requests@, final(self).requests@),
            forall|j: int|
                0 <= j < out.len() ==> {
                    &&& old(self).requests@.contains_key(#[trigger] out[j].handle)
                    &&& old(self).requests@[out[j].handle] == OpState::Pending(out[j].request)
                },
            forall|k: u64|
                #[trigger] old(self).requests@.contains_key(k) && old(self).requests@[k] is Pending
                    ==> exists|j: int| 0 <= j < out.len() && #[trigger] out[j].handle == k,
    {
        self.requests.execute_requests()
    }

    /// The gather phase of the bridge.
    pub fn gather(&mut self)
        requires
            old(self).wf(),
        ensures
            final(self).wf(),
            final(self).lifecycle == old(self).lifecycle,
            gathered(old(self).requests@, final(self).requests@),
    {
        self.requests.gather_responses();
    }

    /// After gathering: while the session runs, effect creations with an
    /// outcome are settled, then applications in flight that have an
    /// outcome or have passed their deadline are retired.
    pub fn after_gather(&mut self, now: u64)
        requires
            old(self).wf(),
        ensures
            final(self).wf(),
            final(self).lifecycle == old(self).lifecycle,
            final(self).heartbeat == old(self).heartbeat,
            old(self).lifecycle.spec_state() != RunnerState::Running ==> *final(self) == *old(self),
            old(self).lifecycle.spec_state() == RunnerState::Running ==> {
                &&& final(self).chroma.spec_effects().len() == old(self).chroma.spec_effects().len()
                &&& forall|i: int|
                    0 <= i < old(self).chroma.spec_effects().len() ==> gather_creation(
                        #[trigger] old(self).chroma.spec_effects()[i],
                        final(self).chroma.spec_effects()[i],
                        old(self).requests@,
                    )
                &&& final(self).chroma.spec_apply_requests() == old(self).chroma.spec_apply_requests()
                &&& final(self).requests.next_handle() == old(self).requests.next_handle()
                &&& final(self).chroma.spec_in_flight() == kept_records(
                    old(self).after_creations(),
                    now,
                    old(self).chroma.spec_in_flight(),
                )
                &&& final(self).requests@ == without(
                    old(self).after_creations(),
                    handles_of(dropped_records(old(self).after_creations(), now, old(self).chroma.spec_in_flight())),
                )
            },
    {
        if self.lifecycle.state() == RunnerState::Running {
            self.chroma.system_gather_create_effect_results(&mut self.requests);
            self.chroma.system_apply_effects_cleanup(&mut self.requests, now);
        }
    }
}

} // verus!
