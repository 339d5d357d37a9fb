//! Requests tracked with an expiry: kept while they wait for an outcome,
//! dropped and disposed once they have one or once they expire.

use vstd::prelude::*;

use crate::bridge::{response_of, HttpRequestHandle, HttpRequests, OpState};

verus! {

/// `m` without the keys in `hs`, removed one after the other.
pub open spec fn without(m: Map<u64, OpState>, hs: Seq<u64>) -> Map<u64, OpState>
    decreases hs.len(),
{
    if hs.len() == 0 {
        m
    } else {
        without(m, hs.drop_last()).remove(hs.last())
    }
}

/// Removing keys leaves every other key as it was.
pub proof fn lemma_without_other(m: Map<u64, OpState>, hs: Seq<u64>, k: u64)
    requires
        !hs.contains(k),
    ensures
        without(m, hs).contains_key(k) == m.contains_key(k),
        m.contains_key(k) ==> without(m, hs)[k] == m[k],
        response_of(without(m, hs), k) == response_of(m, k),
    decreases hs.len(),
{
    if hs.len() > 0 {
        assert(!hs.drop_last().contains(k)) by {
            if hs.drop_last().contains(k) {
                let i = choose|i: int| 0 <= i < hs.drop_last().len() && hs.drop_last()[i] == k;
                assert(hs[i] == k);
            }
        }
        assert(hs[hs.len() - 1] != k);
        lemma_without_other(m, hs.drop_last(), k);
    }
}

/// What a filter keeps of the first `n` records all have handles below the
/// handle of record `n`, when handles increase.
pub proof fn lemma_filter_below(recs: Seq<(u64, u64)>, n: int, p: spec_fn((u64, u64)) -> bool)
    requires
        0 <= n < recs.len(),
        forall|i: int, j: int| 0 <= i < j < recs.len() ==> recs[i].0 < recs[j].0,
    ensures
        forall|i: int|
            0 <= i < recs.subrange(0, n).filter(p).len() ==> (#[trigger] recs.subrange(0, n).filter(
                p,
            )[i]).0 < recs[n].0,
        !handles_of(recs.subrange(0, n).filter(p)).contains(recs[n].0),
{
    let pre = recs.subrange(0, n);
    let f = pre.filter(p);
    assert forall|i: int| 0 <= i < f.len() implies (#[trigger] f[i]).0 < recs[n].0 by {
        assert(f.contains(f[i]));
        pre.lemma_filter_contains_rev(p, f[i]);
        let j = choose|j: int| 0 <= j < pre.len() && pre[j] == f[i];
        assert(recs[j] == pre[j]);
    }
    if handles_of(f).contains(recs[n].0) {
        let i = choose|i: int| 0 <= i < handles_of(f).len() && handles_of(f)[i] == recs[n].0;
        assert(f[i].0 < recs[n].0);
    }
}

/// A request in flight and the instant, in milliseconds, after which it is
/// abandoned.
#[derive(Debug)]
pub struct TrackedRequest {
    pub expires_at: u64,
    pub request_handle: HttpRequestHandle,
}

impl TrackedRequest {
    pub open spec fn view_pair(self) -> (u64, u64) {
        (self.request_handle.id, self.expires_at)
    }

    /// Whether `now` is past the expiry.
    pub fn is_expired(&self, now: u64) -> (r: bool)
        ensures
            r == (now > self.expires_at),
    {
        now > self.expires_at
    }
}

/// A record `(handle, expiry)` stays through a cleanup at `now` when its
/// request has no outcome yet and it has not expired.
pub open spec fn still_waiting(ops: Map<u64, OpState>, now: u64, rec: (u64, u64)) -> bool {
    response_of(ops, rec.0) is None && now <= rec.1
}

/// The records of `recs` that a cleanup at `now` keeps.
pub open spec fn kept_records(ops: Map<u64, OpState>, now: u64, recs: Seq<(u64, u64)>) -> Seq<(u64, u64)> {
    recs.filter(|r: (u64, u64)| still_waiting(ops, now, r))
}

/// The records of `recs` that a cleanup at `now` drops.
pub open spec fn dropped_records(ops: Map<u64, OpState>, now: u64, recs: Seq<(u64, u64)>) -> Seq<
    (u64, u64),
> {
    recs.filter(|r: (u64, u64)| !still_waiting(ops, now, r))
}

/// The handles of `recs`.
pub open spec fn handles_of(recs: Seq<(u64, u64)>) -> Seq<u64> {
    recs.map_values(|r: (u64, u64)| r.0)
}

/// Handles in `recs` increase strictly, and all are below `next`.
pub open spec fn ascending_below(recs: Seq<(u64, u64)>, next: u64) -> bool {
    &&& forall|i: int, j: int| 0 <= i < j < recs.len() ==> recs[i].0 < recs[j].0
    &&& forall|i: int| 0 <= i < recs.len() ==> (#[trigger] recs[i]).0 < next
}

/// A filter keeps handles increasing.
pub proof fn lemma_filter_ascending(recs: Seq<(u64, u64)>, p: spec_fn((u64, u64)) -> bool)
    requires
        forall|i: int, j: int| 0 <= i < j < recs.len() ==> recs[i].0 < recs[j].0,
    ensures
        forall|i: int, j: int|
            0 <= i < j < recs.filter(p).len() ==> recs.filter(p)[i].0 < recs.filter(p)[j].0,
    decreases recs.len(),
{
    reveal(Seq::filter);
    if recs.len() > 0 {
        let pre = recs.drop_last();
        lemma_filter_ascending(pre, p);
        let f = pre.filter(p);
        assert forall|i: int| 0 <= i < f.len() implies #[trigger] f[i].0 < recs.last().0 by {
            assert(f.contains(f[i]));
            pre.lemma_filter_contains_rev(p, f[i]);
            let j = choose|j: int| 0 <= j < pre.len() && pre[j] == f[i];
            assert(recs[j] == pre[j]);
        }
    }
}

/// Through a cleanup at `now`, a record that still waits stays; one that
/// has expired is dropped and its request disposed. The disposed requests
/// are distinct, and none of them is among the records kept, so no request
/// is disposed twice, now or by a later cleanup.
pub proof fn law_retire_keeps_waiting_drops_expired(
    ops: Map<u64, OpState>,
    now: u64,
    recs: Seq<(u64, u64)>,
    next: u64,
)
    requires
        ascending_below(recs, next),
    ensures
        forall|i: int|
            0 <= i < recs.len() && still_waiting(ops, now, #[trigger] recs[i]) ==> kept_records(ops, now, recs).contains(recs[i]),
        forall|i: int|
            0 <= i < recs.len() && now > (#[trigger] recs[i]).1 ==> {
                &&& !kept_records(ops, now, recs).contains(recs[i])
                &&& handles_of(dropped_records(ops, now, recs)).contains(
                    recs[i].0,
                )
            },
        handles_of(dropped_records(ops, now, recs)).no_duplicates(),
        forall|x: (u64, u64)|
            #[trigger] kept_records(ops, now, recs).contains(x)
                ==> !handles_of(dropped_records(ops, now, recs)).contains(x.0),
{
    broadcast use vstd::seq_lib::group_filter_ensures;

    let kp = |r: (u64, u64)| still_waiting(ops, now, r);
    let dp = |r: (u64, u64)| !still_waiting(ops, now, r);
    let kept = recs.filter(kp);
    let dropped = recs.filter(dp);
    assert forall|i: int| 0 <= i < recs.len() && now > (#[trigger] recs[i]).1 implies {
        &&& !kept.contains(recs[i])
        &&& handles_of(dropped).contains(recs[i].0)
    } by {
        if kept.contains(recs[i]) {
            let j = choose|j: int| 0 <= j < kept.len() && kept[j] == recs[i];
            assert(kp(kept[j]));
        }
        assert(dropped.contains(recs[i]));
        let j = choose|j: int| 0 <= j < dropped.len() && dropped[j] == recs[i];
        assert(handles_of(dropped)[j] == recs[i].0);
    }
    lemma_filter_ascending(recs, dp);
    assert forall|a: int, b: int|
        0 <= a < handles_of(dropped).len() && 0 <= b < handles_of(dropped).len() && a != b implies handles_of(
        dropped,
    )[a] != handles_of(dropped)[b] by {
        if a < b {
            assert(dropped[a].0 < dropped[b].0);
        } else {
            assert(dropped[b].0 < dropped[a].0);
        }
    }
    assert forall|x: (u64, u64)| #[trigger] kept.contains(x) implies !handles_of(dropped).contains(x.0) by {
        if handles_of(dropped).contains(x.0) {
            let a = choose|a: int| 0 <= a < handles_of(dropped).len() && handles_of(dropped)[a] == x.0;
            let y = dropped[a];
            assert(dropped.contains(y));
            recs.lemma_filter_contains_rev(dp, y);
            recs.lemma_filter_contains_rev(kp, x);
            let i = choose|i: int| 0 <= i < recs.len() && recs[i] == x;
            let j = choose|j: int| 0 <= j < recs.len() && recs[j] == y;
            if i < j {
                assert(recs[i].0 < recs[j].0);
            } else if j < i {
                assert(recs[j].0 < recs[i].0);
            }
            let ki = choose|ki: int| 0 <= ki < kept.len() && kept[ki] == x;
            assert(kp(kept[ki]));
            assert(dp(dropped[a]));
        }
    }
}

/// The records of `list` as `(handle, expiry)`.
pub open spec fn tracked_view(list: Seq<TrackedRequest>) -> Seq<(u64, u64)> {
    list.map_values(|r: TrackedRequest| r.view_pair())
}

/// Disposes and forgets every record of `list` whose request has its outcome
/// or that has expired by `now`; the others stay, in order. An answer and a
/// failure are alike: neither is retried, and an expired request is dropped
/// without its outcome being read.
pub fn retire_tracked(list: &mut Vec<TrackedRequest>, requests: &mut HttpRequests, now: u64)
requires
    ascending_below(tracked_view(old(list)@), old(requests).next_handle()),
    old(requests).wf(),
ensures
    ascending_below(tracked_view(final(list)@), final(requests).next_handle()),
    final(requests).wf(),
    final(requests).next_handle() == old(requests).next_handle(),
    tracked_view(final(list)@) == kept_records(old(requests)@, now, tracked_view(old(list)@)),
    final(requests)@ == without(
        old(requests)@,
        handles_of(
            dropped_records(old(requests)@, now, tracked_view(old(list)@)),
        ),
    ),
{
    let mut rest: Vec<TrackedRequest> = Vec::new();
    std::mem::swap(&mut rest, list);
    let ghost recs = tracked_view(old(list)@);
    let ghost ops0 = old(requests)@;
    let ghost kp = |r: (u64, u64)| still_waiting(ops0, now, r);
    let ghost dp = |r: (u64, u64)| !still_waiting(ops0, now, r);
    let ghost mut done: int = 0;
    assert(tracked_view(list@) =~= recs.subrange(0, 0).filter(kp)) by {
        reveal(Seq::filter);
    }
    assert(handles_of(recs.subrange(0, 0).filter(dp)) =~= Seq::<u64>::empty()) by {
        reveal(Seq::filter);
    }
    while rest.len() > 0
        invariant
            0 <= done <= recs.len(),
            recs == tracked_view(old(list)@),
            ops0 == old(requests)@,
            kp == (|r: (u64, u64)| still_waiting(ops0, now, r)),
            dp == (|r: (u64, u64)| !still_waiting(ops0, now, r)),
            ascending_below(recs, requests.next_handle()),
            requests.wf(),
            requests.next_handle() == old(requests).next_handle(),
            rest@.map_values(|r: TrackedRequest| r.view_pair()) == recs.subrange(
                done,
                recs.len() as int,
            ),
            tracked_view(list@) == recs.subrange(0, done).filter(kp),
            ascending_below(tracked_view(list@), requests.next_handle()),
            requests@ == without(ops0, handles_of(recs.subrange(0, done).filter(dp))),
        decreases rest.len(),
    {
        let ghost rest_before = rest@;
        assert(rest_before.map_values(|r: TrackedRequest| r.view_pair()).len() == rest_before.len());
        assert(done < recs.len());
        assert(recs.subrange(done, recs.len() as int)[0] == recs[done]);
        let rec = rest.remove(0);
        assert(rec.view_pair() == rest_before.map_values(|r: TrackedRequest| r.view_pair())[0]);
        assert(rec.view_pair() == recs[done]);
        proof {
            lemma_filter_below(recs, done, kp);
            lemma_filter_below(recs, done, dp);
            lemma_without_other(ops0, handles_of(recs.subrange(0, done).filter(dp)), recs[done].0);
            assert(recs.subrange(0, done + 1) =~= recs.subrange(0, done).push(recs[done]));
            recs.subrange(0, done).lemma_filter_push(recs[done], kp);
            recs.subrange(0, done).lemma_filter_push(recs[done], dp);
        }
        let answered = requests.get_response(&rec.request_handle).is_some();
        assert(answered == (response_of(ops0, recs[done].0) is Some));
        if answered || rec.is_expired(now) {
            assert(dp(recs[done]));
            requests.dispose(rec.request_handle);
            proof {
                let hs = handles_of(recs.subrange(0, done).filter(dp));
                assert(handles_of(recs.subrange(0, done).filter(dp).push(recs[done])) =~= hs.push(
                    recs[done].0,
                ));
                assert(hs.push(recs[done].0).drop_last() =~= hs);
            }
        } else {
            assert(kp(recs[done]));
            let ghost kept_before = tracked_view(list@);
            list.push(rec);
            proof {
                assert(tracked_view(list@) =~= kept_before.push(recs[done]));
            }
        }
        proof {
            let mapped_before = rest_before.map_values(|r: TrackedRequest| r.view_pair());
            assert forall|i: int| 0 <= i < rest@.len() implies #[trigger] rest@[i].view_pair() == recs[done + 1 + i] by {
                assert(rest@[i] == rest_before[i + 1]);
                assert(mapped_before[i + 1] == rest_before[i + 1].view_pair());
                assert(recs.subrange(done, recs.len() as int)[i + 1] == recs[done + 1 + i]);
            }
            assert(rest@.map_values(|r: TrackedRequest| r.view_pair()) =~= recs.subrange(
                done + 1,
                recs.len() as int,
            ));
            done = done + 1;
        }
    }
    assert(recs.subrange(0, recs.len() as int) =~= recs);
}

} // verus!
