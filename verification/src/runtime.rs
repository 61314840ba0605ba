//! Worker bookkeeping: request ids, the drift suspend/resume protocol, and
//! the pool's dispatch order.
//!
//! A worker owns one scripting isolate and processes one request at a time.
//! The isolate itself, the queues and the response sinks live with the
//! caller; this module holds the bookkeeping that decides what happens:
//! fresh request and drift ids, the replay cache, and which entries each
//! step inserts or removes. `WorkerState` is the mathematical skeleton of
//! that bookkeeping, and every step's contract is stated as an equation on
//! it.

use std::collections::HashMap;

use vstd::prelude::*;

use crate::json::{JsonValue, jv, spec_json, jv_obj_get, to_json_string};

verus! {

/// The unit placed on a worker queue: one request's immutable inputs.
/// The response sink stays with the caller, keyed by the request id.
pub struct RequestTask {
    pub action_name: String,
    pub body: Option<Vec<u8>>,
    pub method: String,
    pub path: String,
    pub headers: Vec<(String, String)>,
    pub params: Vec<(String, String)>,
    pub query: Vec<(String, String)>,
}

/// A request's replayable inputs, kept while it is suspended.
pub struct RequestData {
    pub action_name: String,
    pub body: Option<Vec<u8>>,
    pub method: String,
    pub path: String,
    pub headers: Vec<(String, String)>,
    pub params: Vec<(String, String)>,
    pub query: Vec<(String, String)>,
}

/// What a finished request hands back: the result and the drift timings.
pub struct WorkerResult {
    pub json: JsonValue,
    pub timings: Vec<(String, u64)>,
}

/// A completed asynchronous operation, on its way back to the worker.
pub struct WorkerAsyncResult {
    pub drift_id: u32,
    pub result: JsonValue,
    pub duration_us: u64,
}

/// A command on a worker queue.
pub enum WorkerCommand {
    Request(RequestTask),
    Resume { drift_id: u32, result: WorkerAsyncResult },
}

/// The mathematical skeleton of a worker's bookkeeping: both counters and
/// the key sets of every table.
pub ghost struct WorkerState {
    pub request_counter: int,
    pub drift_counter: int,
    pub pending: Set<u32>,
    pub active: Set<u32>,
    pub start: Map<u32, int>,
    pub drift_to_request: Map<u32, u32>,
    pub completed: Set<u32>,
}

/// A worker's bookkeeping. `id` names the worker; the isolate and channels
/// it works with live with the caller.
pub struct TitanRuntime {
    pub id: usize,
    pub request_counter: u32,
    pub drift_counter: u32,
    pub pending_requests: HashMap<u32, ()>,
    pub active_requests: HashMap<u32, RequestData>,
    pub request_start_counters: HashMap<u32, u32>,
    pub drift_to_request: HashMap<u32, u32>,
    pub completed_drifts: HashMap<u32, JsonValue>,
    pub request_timings: HashMap<u32, Vec<(String, u64)>>,
}

impl TitanRuntime {
    /// The bookkeeping skeleton of this worker.
    pub open spec fn skeleton(&self) -> WorkerState {
        WorkerState {
            request_counter: self.request_counter as int,
            drift_counter: self.drift_counter as int,
            pending: self.pending_requests@.dom(),
            active: self.active_requests@.dom(),
            start: Map::new(
                |k: u32| self.request_start_counters@.dom().contains(k),
                |k: u32| self.request_start_counters@[k] as int,
            ),
            drift_to_request: self.drift_to_request@,
            completed: self.completed_drifts@.dom(),
        }
    }
}

/// Every identifier a worker has handed out is bounded by its counters, and
/// between commands the suspended requests are exactly the pending ones.
pub open spec fn wf(s: WorkerState) -> bool {
    &&& 0 <= s.request_counter <= u32::MAX
    &&& 0 <= s.drift_counter <= u32::MAX
    &&& forall|id: u32| s.pending.contains(id) ==> 1 <= id <= s.request_counter
    &&& forall|id: u32| s.active.contains(id) ==> 1 <= id <= s.request_counter
    &&& forall|id: u32| s.start.dom().contains(id) ==> 1 <= id <= s.request_counter
    &&& forall|id: u32| s.completed.contains(id) ==> 1 <= id <= s.drift_counter
}

/// Between worker commands, a request is suspended exactly while it is
/// pending: the three tables hold the same ids.
pub open spec fn at_rest(s: WorkerState) -> bool {
    &&& s.pending =~= s.active
    &&& s.active =~= s.start.dom()
}

/// Allocating a request id: the counter moves up, the request becomes
/// pending, and its starting drift counter is recorded.
pub open spec fn spec_begin_request(s: WorkerState) -> (WorkerState, u32) {
    let rid = (s.request_counter + 1) as u32;
    (
        WorkerState {
            request_counter: s.request_counter + 1,
            pending: s.pending.insert(rid),
            start: s.start.insert(rid, s.drift_counter),
            ..s
        },
        rid,
    )
}

/// Allocating a drift id: the counter moves up and the drift is charged to
/// the request.
pub open spec fn spec_drift_call(s: WorkerState, rid: u32) -> (WorkerState, u32) {
    let did = (s.drift_counter + 1) as u32;
    (
        WorkerState {
            drift_counter: s.drift_counter + 1,
            drift_to_request: if rid != 0 {
                s.drift_to_request.insert(did, rid)
            } else {
                s.drift_to_request
            },
            ..s
        },
        did,
    )
}

/// Finishing a request removes it from the pending table.
pub open spec fn spec_finish_request(s: WorkerState, rid: u32) -> WorkerState {
    WorkerState { pending: s.pending.remove(rid), ..s }
}

/// After an execution: a request still pending has suspended, and its
/// inputs are kept for replay; one no longer pending is done, and its
/// start counter is dropped.
pub open spec fn spec_after_execution(s: WorkerState, rid: u32) -> WorkerState {
    if s.pending.contains(rid) {
        WorkerState { active: s.active.insert(rid), ..s }
    } else {
        WorkerState { start: s.start.remove(rid), ..s }
    }
}

/// Applying a resume: the drift's result enters the cache, and for a
/// request that is still live the drift counter is wound back to its
/// recorded start, so that the replay allocates the same ids again.
pub open spec fn spec_apply_resume(s: WorkerState, did: u32) -> WorkerState {
    let rid = if s.drift_to_request.contains_key(did) {
        s.drift_to_request[did]
    } else {
        0
    };
    let with_completed = WorkerState { completed: s.completed.insert(did), ..s };
    if with_completed.active.contains(rid) {
        let start = if with_completed.start.dom().contains(rid) {
            with_completed.start[rid]
        } else {
            0
        };
        WorkerState { drift_counter: start, ..with_completed }
    } else {
        with_completed
    }
}

/// After a replay: a request that is no longer pending is done, and its
/// replay data and start counter are dropped.
pub open spec fn spec_resume_cleanup(s: WorkerState, rid: u32) -> WorkerState {
    if rid != 0 && !s.pending.contains(rid) {
        WorkerState { active: s.active.remove(rid), start: s.start.remove(rid), ..s }
    } else {
        s
    }
}

/// What a drift call decides: a cached result replays as its JSON text; an
/// unresolved drift suspends, and the caller issues the operation.
pub enum DriftStep {
    Replay(String),
    Suspend(u32),
}

impl TitanRuntime {
    /// A fresh worker: counters at zero, every table empty.
    pub fn new_worker(id: usize) -> (r: TitanRuntime)
        ensures
            r.id == id,
            r.skeleton() == (WorkerState {
                request_counter: 0,
                drift_counter: 0,
                pending: Set::<u32>::empty(),
                active: Set::<u32>::empty(),
                start: Map::<u32, int>::empty(),
                drift_to_request: Map::<u32, u32>::empty(),
                completed: Set::<u32>::empty(),
            }),
            wf(r.skeleton()),
            at_rest(r.skeleton()),
    {
        let r = TitanRuntime {
            id,
            request_counter: 0,
            drift_counter: 0,
            pending_requests: HashMap::new(),
            active_requests: HashMap::new(),
            request_start_counters: HashMap::new(),
            drift_to_request: HashMap::new(),
            completed_drifts: HashMap::new(),
            request_timings: HashMap::new(),
        };
        proof {
            assert(r.skeleton().pending =~= Set::<u32>::empty());
            assert(r.skeleton().active =~= Set::<u32>::empty());
            assert(r.skeleton().start =~= Map::<u32, int>::empty());
            assert(r.skeleton().completed =~= Set::<u32>::empty());
        }
        r
    }

    /// Allocate a fresh request id, mark it pending, and record the drift
    /// counter it starts from.
    pub fn begin_request(&mut self) -> (rid: u32)
        requires
            old(self).request_counter < u32::MAX,
        ensures
            rid == old(self).request_counter + 1,
            final(self).skeleton() == spec_begin_request(old(self).skeleton()).0,
            rid == spec_begin_request(old(self).skeleton()).1,
            final(self).id == old(self).id,
            final(self).completed_drifts@ == old(self).completed_drifts@,
            final(self).active_requests@ == old(self).active_requests@,
            final(self).request_timings@ == old(self).request_timings@,
    {
        self.request_counter = self.request_counter + 1;
        let rid = self.request_counter;
        self.pending_requests.insert(rid, ());
        self.request_start_counters.insert(rid, self.drift_counter);
        proof {
            let sk_new = self.skeleton();
            let sk_spec = spec_begin_request(old(self).skeleton()).0;
            assert(sk_new.pending =~= sk_spec.pending);
            assert(sk_new.start =~= sk_spec.start);
        }
        rid
    }

    /// One drift call from the running request: allocate the next drift id,
    /// charge it to the request, and either replay the cached result or
    /// suspend.
    pub fn drift_call(&mut self, request_id: u32) -> (r: DriftStep)
        requires
            old(self).drift_counter < u32::MAX,
        ensures
            final(self).skeleton() == spec_drift_call(old(self).skeleton(), request_id).0,
            final(self).id == old(self).id,
            final(self).completed_drifts@ == old(self).completed_drifts@,
            final(self).active_requests@ == old(self).active_requests@,
            final(self).request_timings@ == old(self).request_timings@,
            ({
                let did = spec_drift_call(old(self).skeleton(), request_id).1;
                match r {
                    DriftStep::Replay(text) => old(self).completed_drifts@.contains_key(did)
                        && text@ == spec_json(jv(old(self).completed_drifts@[did])),
                    DriftStep::Suspend(out) => out == did && !old(
                        self,
                    ).completed_drifts@.contains_key(did),
                }
            }),
    {
        self.drift_counter = self.drift_counter + 1;
        let did = self.drift_counter;
        if request_id != 0 {
            self.drift_to_request.insert(did, request_id);
        }
        proof {
            let sk_new = self.skeleton();
            let sk_spec = spec_drift_call(old(self).skeleton(), request_id).0;
            assert(sk_new.start =~= sk_spec.start);
        }
        match self.completed_drifts.get(&did) {
            Some(cached) => DriftStep::Replay(to_json_string(cached)),
            None => DriftStep::Suspend(did),
        }
    }

    /// The bookkeeping of `_finish_request`: a pending request is closed
    /// and its result and timings are handed back for delivery; a request
    /// that is not pending (already closed, or an unknown id) yields
    /// nothing.
    pub fn finish_request(&mut self, request_id: u32, result: JsonValue) -> (r: Option<
        WorkerResult,
    >)
        ensures
            final(self).skeleton() == (if old(self).skeleton().pending.contains(request_id) {
                spec_finish_request(old(self).skeleton(), request_id)
            } else {
                old(self).skeleton()
            }),
            final(self).id == old(self).id,
            final(self).completed_drifts@ == old(self).completed_drifts@,
            final(self).active_requests@ == old(self).active_requests@,
            match r {
                Some(out) => old(self).skeleton().pending.contains(request_id) && out.json
                    == result && (if old(self).request_timings@.contains_key(request_id) {
                    out.timings@ == old(self).request_timings@[request_id]@
                } else {
                    out.timings@ == Seq::<(String, u64)>::empty()
                }) && !final(self).request_timings@.contains_key(request_id),
                None => !old(self).skeleton().pending.contains(request_id) && final(self).request_timings@ == old(self).request_timings@,
            },
    {
        let was_pending = self.pending_requests.remove(&request_id);
        match was_pending {
            Some(_) => {
                let timings = match self.request_timings.remove(&request_id) {
                    Some(t) => t,
                    None => Vec::new(),
                };
                proof {
                    let sk_new = self.skeleton();
                    let sk_spec = spec_finish_request(old(self).skeleton(), request_id);
                    assert(sk_new.pending =~= sk_spec.pending);
                    assert(sk_new.start =~= sk_spec.start);
                }
                Some(WorkerResult { json: result, timings })
            },
            None => {
                proof {
                    let sk_new = self.skeleton();
                    let sk_old = old(self).skeleton();
                    assert(sk_new.pending =~= sk_old.pending);
                    assert(sk_new.start =~= sk_old.start);
                }
                None
            },
        }
    }

    /// The bookkeeping that closes `handle_new_request`: a request that is
    /// still pending has suspended, so its inputs are stored for replay; a
    /// finished one only gives up its start counter.
    pub fn after_execution(&mut self, request_id: u32, data: RequestData)
        ensures
            final(self).skeleton() == spec_after_execution(old(self).skeleton(), request_id),
            final(self).id == old(self).id,
            final(self).completed_drifts@ == old(self).completed_drifts@,
            final(self).request_timings@ == old(self).request_timings@,
            old(self).skeleton().pending.contains(request_id) ==> final(self).active_requests@ == old(self).active_requests@.insert(request_id, data),
            !old(self).skeleton().pending.contains(request_id) ==> final(self).active_requests@ == old(self).active_requests@,
    {
        if self.pending_requests.contains_key(&request_id) {
            self.active_requests.insert(request_id, data);
            proof {
                let sk_new = self.skeleton();
                let sk_spec = spec_after_execution(old(self).skeleton(), request_id);
                assert(sk_new.active =~= sk_spec.active);
                assert(sk_new.start =~= sk_spec.start);
            }
        } else {
            self.request_start_counters.remove(&request_id);
            proof {
                let sk_new = self.skeleton();
                let sk_spec = spec_after_execution(old(self).skeleton(), request_id);
                assert(sk_new.start =~= sk_spec.start);
            }
        }
    }

    /// The bookkeeping of a resume: record the drift's timing under its
    /// request, cache the result, and wind the drift counter back to the
    /// request's start so the replay allocates the same ids. Hands back the
    /// request id and whether its stored inputs should be replayed.
    pub fn apply_resume(&mut self, drift_id: u32, result: JsonValue, duration_us: u64) -> (r: (
        u32,
        bool,
    ))
        ensures
            final(self).skeleton() == spec_apply_resume(old(self).skeleton(), drift_id),
            final(self).id == old(self).id,
            final(self).active_requests@ == old(self).active_requests@,
            final(self).completed_drifts@ == old(self).completed_drifts@.insert(drift_id, result),
            r.0 == (if old(self).skeleton().drift_to_request.contains_key(drift_id) {
                old(self).skeleton().drift_to_request[drift_id]
            } else {
                0u32
            }),
            r.1 == old(self).skeleton().active.contains(r.0),
            ({
                let label_error = jv_obj_get(jv(result), "error"@) is Some;
                let prior = if old(self).request_timings@.contains_key(r.0) {
                    old(self).request_timings@[r.0]@
                } else {
                    Seq::<(String, u64)>::empty()
                };
                final(self).request_timings@.contains_key(r.0) && final(self).request_timings@[r.0]@.len() == prior.len() + 1 && final(self).request_timings@[r.0]@.drop_last() == prior && final(self).request_timings@[r.0]@.last().1 == duration_us && final(self).request_timings@[r.0]@.last().0@ == (if label_error {
                    "drift_error"@
                } else {
                    "drift"@
                })
            }),
    {
        let req_id: u32 = match self.drift_to_request.get(&drift_id) {
            Some(rid) => *rid,
            None => 0,
        };

        let is_error = match crate::json::obj_get(&result, "error") {
            Some(_) => true,
            None => false,
        };
        let label: String = if is_error {
            String::from_str("drift_error")
        } else {
            String::from_str("drift")
        };
        let mut timings = match self.request_timings.remove(&req_id) {
            Some(t) => t,
            None => Vec::new(),
        };
        timings.push((label, duration_us));
        self.request_timings.insert(req_id, timings);

        self.completed_drifts.insert(drift_id, result);

        let replay = if self.active_requests.contains_key(&req_id) {
            let start: u32 = match self.request_start_counters.get(&req_id) {
                Some(start) => *start,
                None => 0,
            };
            self.drift_counter = start;
            true
        } else {
            false
        };
        proof {
            let sk_new = self.skeleton();
            let sk_spec = spec_apply_resume(old(self).skeleton(), drift_id);
            assert(sk_new.completed =~= sk_spec.completed);
            assert(sk_new.start =~= sk_spec.start);
        }
        (req_id, replay)
    }

    /// The stored inputs of a suspended request, for replay.
    pub fn replay_data(&self, request_id: u32) -> (r: Option<&RequestData>)
        ensures
            match r {
                Some(d) => self.active_requests@.contains_key(request_id) && *d
                    == self.active_requests@[request_id],
                None => !self.active_requests@.contains_key(request_id),
            },
    {
        self.active_requests.get(&request_id)
    }

    /// The bookkeeping that closes a resume: a request that finished during
    /// the replay gives up its replay data and start counter.
    pub fn resume_cleanup(&mut self, request_id: u32)
        ensures
            final(self).skeleton() == spec_resume_cleanup(old(self).skeleton(), request_id),
            final(self).id == old(self).id,
            final(self).completed_drifts@ == old(self).completed_drifts@,
            final(self).request_timings@ == old(self).request_timings@,
    {
        if request_id != 0 && !self.pending_requests.contains_key(&request_id) {
            self.active_requests.remove(&request_id);
            self.request_start_counters.remove(&request_id);
            proof {
                let sk_new = self.skeleton();
                let sk_spec = spec_resume_cleanup(old(self).skeleton(), request_id);
                assert(sk_new.active =~= sk_spec.active);
                assert(sk_new.start =~= sk_spec.start);
            }
        } else {
            proof {
                assert(self.skeleton().start =~= spec_resume_cleanup(
                    old(self).skeleton(),
                    request_id,
                ).start);
            }
        }
    }
}

/// The ids a run of consecutive drift calls allocates, starting from `s`.
pub open spec fn spec_drift_ids(s: WorkerState, rid: u32, k: nat) -> Seq<u32>
    decreases k,
{
    if k == 0 {
        Seq::empty()
    } else {
        let (s1, did) = spec_drift_call(s, rid);
        seq![did] + spec_drift_ids(s1, rid, (k - 1) as nat)
    }
}

/// A request that runs to completion without suspending leaves no
/// bookkeeping behind: after its id is allocated, its result delivered, and
/// the execution closed, the pending, active and start tables hold no entry
/// for it, and the worker is back at rest.
pub proof fn lemma_no_suspension_no_residue(s: WorkerState)
    requires
        wf(s),
        at_rest(s),
        s.request_counter < u32::MAX,
    ensures
        ({
            let (s1, rid) = spec_begin_request(s);
            let s2 = spec_finish_request(s1, rid);
            let s3 = spec_after_execution(s2, rid);
            &&& !s3.pending.contains(rid)
            &&& !s3.active.contains(rid)
            &&& !s3.start.dom().contains(rid)
            &&& wf(s3)
            &&& at_rest(s3)
        }),
{
    let (s1, rid) = spec_begin_request(s);
    let s2 = spec_finish_request(s1, rid);
    let s3 = spec_after_execution(s2, rid);
    assert(!s.pending.contains(rid));
    assert(!s.active.contains(rid));
    assert(!s.start.dom().contains(rid));
    assert(s2.pending =~= s.pending);
    assert(!s2.pending.contains(rid));
    assert(s3.start =~= s.start);
    assert(s3.pending =~= s.pending);
    assert(s3.active =~= s.active);
}

/// A suspended request replays with the very same drift ids: after the
/// drift counter is wound back to the request's recorded start `c`, a run
/// of `k` drift calls allocates exactly `c + 1, …, c + k`.
pub proof fn lemma_replay_reallocates_same_ids(s: WorkerState, rid: u32, k: nat)
    requires
        s.start.dom().contains(rid),
        s.active.contains(rid),
        0 <= s.start[rid],
        s.start[rid] + k <= u32::MAX,
    ensures
        ({
            let s1 = spec_apply_resume_reset(s, rid);
            let ids = spec_drift_ids(s1, rid, k);
            &&& ids.len() == k
            &&& forall|i: int| 0 <= i < k ==> ids[i] == (s.start[rid] + 1 + i) as u32
        }),
{
    let s1 = spec_apply_resume_reset(s, rid);
    lemma_drift_ids_are_consecutive(s1, rid, k);
}

/// Winding the drift counter back to a request's recorded start; the
/// counter part of `spec_apply_resume` for a live request.
pub open spec fn spec_apply_resume_reset(s: WorkerState, rid: u32) -> WorkerState {
    WorkerState { drift_counter: s.start[rid], ..s }
}

/// Consecutive drift calls allocate consecutive ids.
pub proof fn lemma_drift_ids_are_consecutive(s: WorkerState, rid: u32, k: nat)
    requires
        0 <= s.drift_counter,
        s.drift_counter + k <= u32::MAX,
    ensures
        ({
            let ids = spec_drift_ids(s, rid, k);
            &&& ids.len() == k
            &&& forall|i: int| 0 <= i < k ==> ids[i] == (s.drift_counter + 1 + i) as u32
        }),
    decreases k,
{
    if k > 0 {
        let (s1, did) = spec_drift_call(s, rid);
        lemma_drift_ids_are_consecutive(s1, rid, (k - 1) as nat);
        let ids = spec_drift_ids(s, rid, k);
        let rest = spec_drift_ids(s1, rid, (k - 1) as nat);
        assert forall|i: int| 0 <= i < k implies ids[i] == (s.drift_counter + 1 + i) as u32 by {
            if i > 0 {
                assert(ids[i] == rest[i - 1]);
            }
        }
    }
}

/// The order in which the pool offers a task to workers: round-robin from
/// the counter-selected start.
pub open spec fn spec_try_order(counter: int, n: int) -> Seq<int> {
    Seq::new(n as nat, |j: int| (counter % n + j) % n)
}

/// The worker indices to try for one task, in order: each worker once,
/// starting at the round-robin position.
#[verifier::loop_isolation(false)]
pub fn worker_try_order(counter: usize, num_workers: usize) -> (r: Vec<usize>)
    requires
        1 <= num_workers < usize::MAX / 2,
    ensures
        r@.len() == num_workers,
        forall|j: int| 0 <= j < num_workers ==> r@[j] == spec_try_order(counter as int, num_workers as int)[j],
        forall|j: int| 0 <= j < num_workers ==> r@[j] < num_workers,
{
    let start = counter % num_workers;
    let mut out: Vec<usize> = Vec::new();
    let mut j: usize = 0;
    while j < num_workers
        invariant
            0 <= j <= num_workers,
            out@.len() == j,
            forall|i: int| 0 <= i < j ==> out@[i] == spec_try_order(counter as int, num_workers as int)[i],
            forall|i: int| 0 <= i < j ==> out@[i] < num_workers,
        decreases num_workers - j,
    {
        let idx = if start + j >= num_workers {
            start + j - num_workers
        } else {
            start + j
        };
        proof {
            let n = num_workers as int;
            let st = start as int;
            assert(0 <= st < n);
            if st + j >= n {
                assert((st + j) % n == st + j - n) by (nonlinear_arith)
                    requires
                        0 <= st < n,
                        0 <= j < n,
                        st + j >= n,
                ;
            } else {
                assert((st + j) % n == st + j) by (nonlinear_arith)
                    requires
                        0 <= st < n,
                        0 <= j < n,
                        st + j < n,
                ;
            }
        }
        out.push(idx);
        j += 1;
    }
    out
}

} // verus!
