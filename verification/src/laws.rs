//! Properties of the simulator that hold across calls and states.

use vstd::prelude::*;
use crate::request::{f_steps, p_steps, r_steps, RequestView};
use crate::worker_core::{lock_free, schedule_spec, CoreAction, CoreView, Outcome};
use crate::simulation::{
    arrival_count, lemma_arrival_count, nic_target, offer, receive, receive_all, step_spec, LayoutView, SimView,
};
use crate::config::{ConfigError, SimConfig};
use crate::dispatch::{forward_dispatch, stack_dispatch};
use crate::sweep::{lemma_rr_scan, rr_pick};

verus! {

/// Forwarding a request that has not started it: after `k` ticks its count is
/// `k`, it is complete exactly when `k` has reached a nonzero `forward_time`
/// (a `forward_time` of 0 is never reached), and nothing else has changed.
pub proof fn law_forwarding_completes(r: RequestView, k: nat)
    requires
        r.f_completed == 0,
        !r.is_f_completed,
        k <= usize::MAX,
    ensures
        f_steps(r, k) == (RequestView { f_completed: k as usize, is_f_completed: 1 <= r.forward_time <= k, ..r }),
    decreases k,
{
    if k > 0 {
        law_forwarding_completes(r, (k - 1) as nat);
    }
}

/// The same for the network stack and `stack_time`.
pub proof fn law_stack_completes(r: RequestView, k: nat)
    requires
        r.p_completed == 0,
        !r.is_p_completed,
        k <= usize::MAX,
    ensures
        p_steps(r, k) == (RequestView { p_completed: k as usize, is_p_completed: 1 <= r.stack_time <= k, ..r }),
    decreases k,
{
    if k > 0 {
        law_stack_completes(r, (k - 1) as nat);
    }
}

/// The same for the application and `request_time`.
pub proof fn law_application_completes(r: RequestView, k: nat)
    requires
        r.r_completed == 0,
        !r.is_r_completed,
        k <= usize::MAX,
    ensures
        r_steps(r, k) == (RequestView { r_completed: k as usize, is_r_completed: 1 <= r.request_time <= k, ..r }),
    decreases k,
{
    if k > 0 {
        law_application_completes(r, (k - 1) as nat);
    }
}

/// A locked worker whose request's flow lock is held by another core waits:
/// the tick changes neither the core, nor its request, nor the locks.
pub proof fn law_waits_for_foreign_lock(c: CoreView, t: usize, locks: Seq<usize>)
    requires
        c.wf(),
        c.action is NetworkStackAndApplicationLock,
        c.current matches Some(r) && r.flow_id < locks.len()
            && locks[r.flow_id as int] != lock_free() && locks[r.flow_id as int] != c.id,
    ensures
        schedule_spec(c, t, locks) == (c, locks, Outcome::Running),
{
}

/// A locked worker releases the lock of its request's flow exactly when it
/// finishes the request, and changes no other flow's lock.
pub proof fn law_lock_released_on_finish(c: CoreView, t: usize, locks: Seq<usize>)
    requires
        c.wf(),
        c.action is NetworkStackAndApplicationLock,
        c.next_request() matches Some(r) && r.flow_id < locks.len(),
    ensures
        ({
            let (c1, l1, o) = schedule_spec(c, t, locks);
            let f = c.next_request().unwrap().flow_id as int;
            &&& l1.len() == locks.len()
            &&& forall|g: int| 0 <= g < locks.len() && g != f ==> l1[g] == locks[g]
            &&& o matches Outcome::Finished(r) ==> r.flow_id == f && l1[f] == lock_free()
            &&& !(o is Finished) ==> (l1[f] == locks[f] || (locks[f] == lock_free() && l1[f] == c.id))
        }),
{
}

/// In layout 1, no two workers are at the same time past the start of the
/// network stack on requests of the same flow.
pub proof fn law_one_worker_per_flow(s: SimView, i: int, j: int)
    requires
        s.wf(),
        s.layout matches LayoutView::Layout1(_, ws, _) && {
            &&& 0 <= i < ws.len()
            &&& 0 <= j < ws.len()
            &&& i != j
            &&& ws[i].current matches Some(ri) && ri.p_completed > 0
            &&& ws[j].current matches Some(rj) && rj.p_completed > 0
        },
    ensures
        s.layout matches LayoutView::Layout1(_, ws, _)
            && ws[i].current.unwrap().flow_id != ws[j].current.unwrap().flow_id,
{
    if let LayoutView::Layout1(f, ws, locks) = s.layout {
        assert(ws[i].id == i + 1);
        assert(ws[j].id == j + 1);
    }
}

/// The NIC sends all requests of one flow to the same core.
pub proof fn law_flow_affinity(s: SimView, r1: RequestView, r2: RequestView)
    requires
        r1.flow_id == r2.flow_id,
    ensures
        nic_target(s, r1) == nic_target(s, r2),
{
}


/// What no tick changes in a request: its id, flow, arrival and phase times.
pub open spec fn same_request(a: RequestView, b: RequestView) -> bool {
    &&& a.id == b.id
    &&& a.flow_id == b.flow_id
    &&& a.t_arrival == b.t_arrival
    &&& a.forward_time == b.forward_time
    &&& a.stack_time == b.stack_time
    &&& a.request_time == b.request_time
}

/// Each completion flag says exactly that its phase has had at least its
/// time in ticks, and that time is at least 1.
pub open spec fn flags_match_counts(r: RequestView) -> bool {
    &&& r.is_f_completed <==> 1 <= r.forward_time <= r.f_completed
    &&& r.is_p_completed <==> 1 <= r.stack_time <= r.p_completed
    &&& r.is_r_completed <==> 1 <= r.request_time <= r.r_completed
}

/// A request that has just arrived has its flags matching its counts.
pub proof fn law_arrived_flags(
    id: usize,
    flow_id: usize,
    t_arrival: usize,
    forward_time: usize,
    stack_time: usize,
    request_time: usize,
)
    ensures
        flags_match_counts(RequestView::arrived(id, flow_id, t_arrival, forward_time, stack_time, request_time)),
{
}

/// A tick of any phase keeps the flags matching the counts, keeps a completed
/// phase completed, and changes nothing that [`same_request`] speaks of.
pub proof fn law_steps_keep_flags(r: RequestView)
    requires
        flags_match_counts(r),
        r.counters_below_max(),
    ensures
        flags_match_counts(r.f_step()),
        flags_match_counts(r.p_step()),
        flags_match_counts(r.r_step()),
        r.is_f_completed ==> r.f_step().is_f_completed,
        r.is_p_completed ==> r.p_step().is_p_completed,
        r.is_r_completed ==> r.r_step().is_r_completed,
        same_request(r.f_step(), r) && same_request(r.p_step(), r) && same_request(r.r_step(), r),
{
}

/// A tick of a core keeps its id, action and queue size; afterwards it is
/// idle exactly when it holds no request, which is exactly when the tick did
/// not report it running; and the request it worked on keeps what
/// [`same_request`] speaks of, and, when its counters had room, its flags
/// still match its counts.
pub proof fn law_tick_keeps_core(c: CoreView, t: usize, locks: Seq<usize>)
    ensures
        ({
            let (c1, l1, o) = schedule_spec(c, t, locks);
            &&& c1.id == c.id
            &&& c1.action == c.action
            &&& c1.queue_size == c.queue_size
            &&& c1.idle <==> c1.current is None
            &&& c1.idle <==> !(o is Running)
            &&& c.next_request() matches Some(r0) ==> {
                &&& (c1.current matches Some(r1) ==> same_request(r1, r0))
                &&& (o matches Outcome::Finished(r1) ==> same_request(r1, r0))
                &&& (flags_match_counts(r0) && r0.counters_below_max()) ==> {
                    &&& (c1.current matches Some(r1) ==> flags_match_counts(r1))
                    &&& (o matches Outcome::Finished(r1) ==> flags_match_counts(r1))
                }
            }
        }),
{
    if let Some(r0) = c.next_request() {
        if flags_match_counts(r0) && r0.counters_below_max() {
            law_steps_keep_flags(r0);
            law_steps_keep_flags(RequestView { t_f_start: t, ..r0 });
            law_steps_keep_flags(RequestView { t_p_start: t, ..r0 });
            law_steps_keep_flags(RequestView { t_r_start: t, ..r0 });
        }
    }
}


/// A core after `n` ticks at times `t`, `t + 1`, ..., each seeing the flow
/// locks the one before left, with those locks.
pub open spec fn ticks(c: CoreView, t: int, locks: Seq<usize>, n: nat) -> (CoreView, Seq<usize>)
    decreases n,
{
    if n == 0 {
        (c, locks)
    } else {
        let (c0, l0) = ticks(c, t, locks, (n - 1) as nat);
        let (c1, l1, _o) = schedule_spec(c0, (t + n - 1) as usize, l0);
        (c1, l1)
    }
}

/// What the `n`-th of those ticks reports.
pub open spec fn tick_outcome(c: CoreView, t: int, locks: Seq<usize>, n: nat) -> Outcome {
    let (c0, l0) = ticks(c, t, locks, (n - 1) as nat);
    schedule_spec(c0, (t + n - 1) as usize, l0).2
}

/// Request `r`, started at `t` with `s` ticks of network stack and `a` of
/// application, after `k` ticks of "stack, then application" (`1 <= k < s + a`).
pub open spec fn stack_app_progress(r: RequestView, t: int, k: int) -> RequestView {
    let s = r.stack_time as int;
    if k < s {
        RequestView { t_p_start: t as usize, p_completed: k as usize, ..r }
    } else {
        RequestView {
            t_p_start: t as usize,
            p_completed: s as usize,
            is_p_completed: true,
            t_p_end: (t + s - 1) as usize,
            t_r_start: (t + s) as usize,
            r_completed: (k - s) as usize,
            ..r
        }
    }
}

/// The locks while a locked worker with id `id` works on a request of flow `f`.
pub open spec fn locks_during(action: CoreAction, locks: Seq<usize>, f: int, id: usize) -> Seq<usize> {
    if action is NetworkStackAndApplicationLock { locks.update(f, id) } else { locks }
}

/// The situation of [`law_stack_then_app_run`]: a core that runs stack then
/// application (taking a free flow lock, when it locks) and holds no request,
/// with a fresh request `r` first in its queue that needs `s >= 2` ticks of
/// stack and `a >= 1` of application, started at `t` with room on the clock.
pub open spec fn stack_app_setup(c: CoreView, t: int, locks: Seq<usize>) -> bool {
    &&& c.current is None
    &&& c.local.len() > 0
    &&& ({
        let r = c.local[0];
        &&& r.p_completed == 0 && !r.is_p_completed
        &&& r.r_completed == 0 && !r.is_r_completed
        &&& r.stack_time >= 2
        &&& r.request_time >= 1
        &&& 0 <= t
        &&& t + r.stack_time + r.request_time <= usize::MAX
        &&& (c.action is NetworkStackAndApplication || {
            &&& c.action is NetworkStackAndApplicationLock
            &&& r.flow_id < locks.len()
            &&& locks[r.flow_id as int] == lock_free()
            &&& c.id != lock_free()
        })
    })
}

/// While the run is under way (`1 <= k < s + a` ticks), the core works on the
/// request as [`stack_app_progress`] says and every tick reports it running.
proof fn lemma_stack_app_midway(c: CoreView, t: int, locks: Seq<usize>, k: nat)
    requires
        stack_app_setup(c, t, locks),
        1 <= k < c.local[0].stack_time + c.local[0].request_time,
    ensures
        ({
            let r = c.local[0];
            let f = r.flow_id as int;
            &&& ticks(c, t, locks, k).0 == (CoreView {
                idle: false,
                current: Some(stack_app_progress(r, t, k as int)),
                local: c.local.drop_first(),
                ..c
            })
            &&& ticks(c, t, locks, k).1 == locks_during(c.action, locks, f, c.id)
            &&& tick_outcome(c, t, locks, k) is Running
        }),
    decreases k,
{
    if k > 1 {
        lemma_stack_app_midway(c, t, locks, (k - 1) as nat);
    }
}

/// A core that runs stack then application, given a fresh request first in
/// its queue with `s >= 2` ticks of stack and `a >= 1` of application, reports
/// it running on its first `s + a - 1` ticks from `t` and finished on the
/// next: the stack phase started at `t` and ended at `t + s - 1`, the
/// application ran from `t + s` to `t + s + a - 1`, and it departs at
/// `t + s + a`. A locked worker holds the flow's lock meanwhile and leaves it
/// free at the end.
pub proof fn law_stack_then_app_run(c: CoreView, t: int, locks: Seq<usize>)
    requires
        stack_app_setup(c, t, locks),
    ensures
        ({
            let r = c.local[0];
            let (s, a) = (r.stack_time as int, r.request_time as int);
            let n = (s + a) as nat;
            &&& forall|k: nat| 1 <= k < n ==> #[trigger] tick_outcome(c, t, locks, k) is Running
            &&& tick_outcome(c, t, locks, n) matches Outcome::Finished(r2) && {
                &&& r2.id == r.id
                &&& r2.t_p_start == t
                &&& r2.t_p_end == t + s - 1
                &&& r2.t_r_start == t + s
                &&& r2.t_r_end == t + s + a - 1
                &&& r2.t_departure == t + s + a
            }
            &&& ticks(c, t, locks, n).0 == (CoreView { idle: true, current: None, local: c.local.drop_first(), ..c })
            &&& ticks(c, t, locks, n).1 == locks
        }),
{
    let r = c.local[0];
    let n = (r.stack_time + r.request_time) as nat;
    assert forall|k: nat| 1 <= k < n implies #[trigger] tick_outcome(c, t, locks, k) is Running by {
        lemma_stack_app_midway(c, t, locks, k);
    }
    lemma_stack_app_midway(c, t, locks, (n - 1) as nat);
    if c.action is NetworkStackAndApplicationLock {
        assert(locks.update(r.flow_id as int, c.id).update(r.flow_id as int, lock_free()) =~= locks);
    }
}


/// A network-stack core that holds a request gives it one more tick of
/// network stack, and hands it back finished exactly when that tick completes
/// the stack phase (it was complete already, or its count now reaches
/// `stack_time`): the request handed back has its stack phase complete, one
/// more tick counted and its end at `t`. Otherwise the core reports it running
/// and keeps it, with one more tick counted.
pub proof fn law_stack_core_finishes_when_stack_done(c: CoreView, t: usize, locks: Seq<usize>)
    requires
        c.action is NetworkStack,
        c.current matches Some(r) && r.p_completed < usize::MAX,
    ensures
        ({
            let r = c.current.unwrap();
            let done = r.is_p_completed || r.p_completed + 1 == r.stack_time;
            let (c1, l1, o) = schedule_spec(c, t, locks);
            &&& o is Finished <==> done
            &&& o matches Outcome::Finished(r2) ==> {
                &&& r2.is_p_completed
                &&& r2.p_completed == r.p_completed + 1
                &&& r2.id == r.id
                &&& r2.flow_id == r.flow_id
                &&& r2.t_p_end == t
                &&& c1.current is None
            }
            &&& !done ==> {
                &&& o is Running
                &&& c1.current matches Some(r2) && !r2.is_p_completed && r2.p_completed == r.p_completed + 1
                    && r2.id == r.id
            }
            &&& l1 == locks
        }),
{
}

/// A network-stack core's tick (layouts 3 and 4) drops a request it finishes
/// only when its ready queue is full: the request, marked as dropped by the
/// network stack, is then appended to the dropped requests and nothing else
/// moves. When the ready queue has room nothing is dropped, and the request
/// joins the ready queue, whose oldest request goes to an idle application
/// core if there is one; with every application core busy the request simply
/// waits at the back of the ready queue. A tick that finishes nothing drops nothing.
pub proof fn law_stack_dispatch_drops_only_when_full(
    n: CoreView,
    apps: Seq<CoreView>,
    last: Map<usize, usize>,
    t: usize,
    dropped: Seq<RequestView>,
)
    requires
        n.action is NetworkStack,
    ensures
        ({
            let (c1, l1, o) = schedule_spec(n, t, Seq::empty());
            let (n2, apps2, last2, d2) = stack_dispatch(n, apps, last, t, dropped);
            &&& !(o is Finished) ==> d2 == dropped && n2.ready == n.ready && apps2 == apps
            &&& o matches Outcome::Finished(r) ==> {
                &&& n.ready.len() >= n.queue_size ==> {
                    &&& d2 == dropped.push(RequestView { is_p_dropped: true, ..r })
                    &&& n2.ready == n.ready
                    &&& apps2 == apps
                }
                &&& n.ready.len() < n.queue_size ==> {
                    &&& d2 == dropped
                    &&& (forall|i: int| 0 <= i < apps.len() ==> !(#[trigger] apps[i]).idle) ==> {
                        &&& n2.ready == n.ready.push(r)
                        &&& apps2 == apps
                    }
                    &&& ({
                        ||| n2.ready == n.ready.push(r) && apps2 == apps
                        ||| n2.ready == n.ready.push(r).drop_first() && exists|i: int| {
                            &&& 0 <= i < apps.len()
                            &&& (#[trigger] apps[i]).idle
                            &&& apps2 == apps.update(i, CoreView {
                                local: apps[i].local.push(n.ready.push(r)[0]),
                                ..apps[i]
                            })
                        }
                    })
                }
            }
        }),
{
    lemma_rr_scan(apps, last[n.id] as int, 0);
    let (c1, l1, o) = schedule_spec(n, t, Seq::empty());
    if let Outcome::Finished(r) = o {
        if n.ready.len() < n.queue_size {
            if let Some(idx) = crate::sweep::rr_pick(apps, last[n.id] as int) {
                assert(apps[idx].idle);
            }
        }
    }
}

/// In layout 4 there is one NIC queue per network-stack core, so a simulation
/// whose invariant holds maps indirection-table entry `k` to network-stack core
/// `k % nr_network_cores`, and a request of flow `f` goes to network-stack core
/// `(f % entries) % nr_network_cores`. In layout 2 it is the same with the
/// workers in place of the network-stack cores.
pub proof fn law_table_spreads_over_receiving_cores(s: SimView, r: RequestView)
    requires
        s.wf(),
        s.nr_indirection_table_entries > 0,
    ensures
        s.layout matches LayoutView::Layout4(ns, _) ==> {
            &&& s.nr_queues() == ns.len()
            &&& forall|k: usize| k < s.nr_indirection_table_entries ==>
                #[trigger] s.indirection_table[k] == k % (ns.len() as usize)
            &&& nic_target(s, r) == (r.flow_id % s.nr_indirection_table_entries) % (ns.len() as usize)
        },
        s.layout matches LayoutView::Layout2(ws) ==> {
            &&& s.nr_queues() == ws.len()
            &&& forall|k: usize| k < s.nr_indirection_table_entries ==>
                #[trigger] s.indirection_table[k] == k % (ws.len() as usize)
            &&& nic_target(s, r) == (r.flow_id % s.nr_indirection_table_entries) % (ws.len() as usize)
        },
{
    let k = (r.flow_id % s.nr_indirection_table_entries) as usize;
    assert(s.indirection_table.contains_key(k));
    assert forall|j: usize| j < s.nr_indirection_table_entries implies
        #[trigger] s.indirection_table[j] == j % (s.nr_queues() as usize) by {
        assert(s.indirection_table.contains_key(j));
    }
}

/// A configuration's NIC queues: one per worker in layout 2, one per
/// network-stack core in layout 4, a single one otherwise.
pub proof fn law_config_queues(cfg: SimConfig)
    ensures
        cfg.layout == 2 ==> cfg.nr_queues() == cfg.nr_worker_cores,
        cfg.layout == 4 ==> cfg.nr_queues() == cfg.nr_network_cores,
        cfg.layout != 2 && cfg.layout != 4 ==> cfg.nr_queues() == 1,
{
}

/// The core counts a layout is refused for: layout 1 when its workers and the
/// forwarder outnumber the cores, layout 2 when its workers do, layout 3 when
/// its application cores and the network-stack core do, layout 4 when its
/// network-stack and application cores together do, or else when it has fewer
/// application than network-stack cores; a layout other than 1 to 4 is unknown.
/// A layout that uses exactly all the cores passes.
pub proof fn law_layout_core_counts(cfg: SimConfig)
    ensures
        cfg.layout_error() == Some(ConfigError::CoreCount) <==> {
            ||| cfg.layout == 1 && cfg.nr_worker_cores + 1 > cfg.nr_total_cores
            ||| cfg.layout == 2 && cfg.nr_worker_cores > cfg.nr_total_cores
            ||| cfg.layout == 3 && cfg.nr_application_cores + 1 > cfg.nr_total_cores
            ||| cfg.layout == 4 && cfg.nr_network_cores + cfg.nr_application_cores > cfg.nr_total_cores
        },
        cfg.layout_error() == Some(ConfigError::TooFewApplicationCores) <==> {
            &&& cfg.layout == 4
            &&& cfg.nr_network_cores + cfg.nr_application_cores <= cfg.nr_total_cores
            &&& cfg.nr_application_cores < cfg.nr_network_cores
        },
        cfg.layout_error() == Some(ConfigError::UnknownLayout) <==> !(1 <= cfg.layout <= 4),
        cfg.layout == 4 && cfg.nr_network_cores + cfg.nr_application_cores == cfg.nr_total_cores
            && cfg.nr_network_cores <= cfg.nr_application_cores ==> cfg.layout_error() is None,
{
}


/// What a tick of any core reports. A core with no request and an empty queue
/// reports idle and changes nothing. A core with no request takes the first
/// request of its queue and reports it running. A core never hands back a
/// request whose work is not done: a forwarder only once forwarding is
/// complete, a network-stack core only once the stack phase is, and an
/// application or stack-and-application core only once the application phase
/// is (after the stack phase, for the latter). A request handed back is the
/// one the core held, and the core is left without a request.
pub proof fn law_tick_outcomes(c: CoreView, t: usize, locks: Seq<usize>)
    requires
        c.current matches Some(r) ==> r.counters_below_max(),
    ensures
        ({
            let (c1, l1, o) = schedule_spec(c, t, locks);
            &&& (c.current is None && c.local.len() == 0) ==> o is Idle && c1.current is None && c1.local == c.local
            &&& (c.current is None && c.local.len() > 0) ==> {
                &&& o is Running
                &&& c1.local == c.local.drop_first()
                &&& c1.current matches Some(r1) && r1.id == c.local[0].id && r1.flow_id == c.local[0].flow_id
            }
            &&& o is Idle ==> c.current is None && c.local.len() == 0
            &&& o matches Outcome::Finished(r2) ==> {
                &&& c.current matches Some(r) && r2.id == r.id && r2.flow_id == r.flow_id
                &&& c1.current is None
                &&& c1.local == c.local
                &&& (c.action is Forward ==> r2.is_f_completed && r2.t_f_end == t)
                &&& (c.action is NetworkStack ==> r2.is_p_completed && r2.t_p_end == t)
                &&& (c.action is Application ==> r2.is_r_completed && r2.t_r_end == t)
                &&& ((c.action is NetworkStackAndApplication || c.action is NetworkStackAndApplicationLock)
                    ==> r2.is_p_completed && r2.is_r_completed && r2.t_r_end == t)
                &&& (c.action.looks_one_tick_ahead() ==> r2.t_departure == t + 1 || t == usize::MAX)
            }
            &&& c.current is Some && !(o is Finished) ==> o is Running && c1.current is Some
        }),
{
}

/// Position `j` of the round-robin order after `last` among `n` workers.
pub open spec fn rr_slot(n: int, last: int, j: int) -> int {
    (last + j + 1) % n
}

/// Round robin: the worker picked after `last` is idle and comes first among
/// the idle ones in the order `last + 1`, `last + 2`, ... (wrapping around);
/// when no worker is picked, every worker in that order is busy; and when
/// every worker is busy, none is picked.
pub proof fn law_round_robin_pick(g: Seq<CoreView>, last: usize)
    ensures
        rr_pick(g, last as int) matches Some(idx) ==> {
            &&& 0 <= idx < g.len()
            &&& g[idx].idle
            &&& exists|m: int| #![trigger rr_slot(g.len() as int, last as int, m)]
                0 <= m < g.len() && idx == rr_slot(g.len() as int, last as int, m)
                && forall|j: int| 0 <= j < m ==> !(#[trigger] g[rr_slot(g.len() as int, last as int, j)]).idle
        },
        rr_pick(g, last as int) is None ==> forall|j: int| 0 <= j < g.len() ==>
            !(#[trigger] g[rr_slot(g.len() as int, last as int, j)]).idle,
        (forall|i: int| 0 <= i < g.len() ==> !(#[trigger] g[i]).idle) ==> rr_pick(g, last as int) is None,
{
    lemma_rr_scan(g, last as int, 0);
    if rr_pick(g, last as int) is Some {
        let m = lemma_rr_pick_first(g, last as int, 0);
        assert(rr_slot(g.len() as int, last as int, m) == rr_pick(g, last as int)->0);
    }
    if rr_pick(g, last as int) is None {
        assert forall|j: int| 0 <= j < g.len() implies
            !(#[trigger] g[rr_slot(g.len() as int, last as int, j)]).idle by {
            let jn = j as nat;
            assert(!g[(last + jn + 1) % (g.len() as int)].idle);
        }
    }
}

/// A pick from position `k` on is at some position `m` of the round-robin
/// order, and every worker at positions `k` to `m - 1` is busy.
proof fn lemma_rr_pick_first(g: Seq<CoreView>, last: int, k: nat) -> (m: int)
    requires
        0 <= last,
        crate::sweep::rr_scan(g, last, k) is Some,
    ensures
        k <= m < g.len(),
        crate::sweep::rr_scan(g, last, k) == Some(rr_slot(g.len() as int, last, m)),
        forall|j: int| k <= j < m ==> !(#[trigger] g[rr_slot(g.len() as int, last, j)]).idle,
    decreases g.len() - k,
{
    let idx = (last + k + 1) % (g.len() as int);
    if g[idx].idle {
        k as int
    } else {
        let m = lemma_rr_pick_first(g, last, k + 1);
        assert forall|j: int| k <= j < m implies !(#[trigger] g[rr_slot(g.len() as int, last, j)]).idle by {
            if j == k {
                assert(rr_slot(g.len() as int, last, j) == idx);
            }
        }
        m
    }
}

/// Layout 1's forwarder runs only when some worker is idle: with every worker
/// busy nothing changes. The workers change only when the forwarder finishes
/// a request, which then goes to the local queue of an idle worker, and no
/// other worker changes.
pub proof fn law_forward_only_to_idle_workers(f: CoreView, ws: Seq<CoreView>, last: Map<usize, usize>, t: usize)
    ensures
        ({
            let (f1, ws1, last1) = forward_dispatch(f, ws, last, t);
            &&& (forall|i: int| 0 <= i < ws.len() ==> !(#[trigger] ws[i]).idle) ==> f1 == f && ws1 == ws && last1 == last
            &&& ws1 != ws ==> (schedule_spec(f, t, Seq::empty()).2 matches Outcome::Finished(r) && exists|i: int| {
                &&& 0 <= i < ws.len()
                &&& (#[trigger] ws[i]).idle
                &&& ws1 == ws.update(i, CoreView { local: ws[i].local.push(r), ..ws[i] })
            })
        }),
{
    lemma_rr_scan(ws, last[f.id] as int, 0);
    if let Some(idx) = rr_pick(ws, last[f.id] as int) {
        assert(ws[idx].idle);
    }
}

/// A request the NIC hands to a core joins the back of its local queue when
/// the queue has room, and nothing is dropped; when the queue is full the core
/// is unchanged and the request, marked as dropped by the network stack, is
/// appended to the dropped requests.
pub proof fn law_offer(c: CoreView, r: RequestView, dropped: Seq<RequestView>)
    ensures
        c.local.len() < c.queue_size ==> offer(c, r, dropped).0.local == c.local.push(r)
            && offer(c, r, dropped).0.current == c.current && offer(c, r, dropped).1 == dropped,
        c.local.len() >= c.queue_size ==> offer(c, r, dropped).0 == c
            && offer(c, r, dropped).1 == dropped.push(RequestView { is_p_dropped: true, ..r }),
{
}


/// A tick takes in exactly the requests that arrive at its time: afterwards
/// the requests still to come are what followed them in the list, and all of
/// them arrive later; those taken all arrived at this tick.
pub proof fn law_tick_takes_arrivals_now(s: SimView)
    requires
        s.wf(),
    ensures
        ({
            let rest = step_spec(s).packets;
            let taken = (s.packets.len() - rest.len()) as int;
            &&& 0 <= taken <= s.packets.len()
            &&& rest == s.packets.skip(taken)
            &&& forall|i: int| 0 <= i < taken ==> (#[trigger] s.packets[i]).t_arrival == s.t_cur
            &&& forall|i: int| 0 <= i < rest.len() ==> (#[trigger] rest[i]).t_arrival > s.t_cur
        }),
{
    let t = s.t_cur as int;
    let n = arrival_count(s.packets, t);
    lemma_arrival_count(s.packets, t);
    let s1 = crate::simulation::tick_cores(s);
    lemma_receive_all_keeps_packets(SimView { packets: s.packets.skip(n as int), ..s1 }, s.packets.take(n as int));
    let rest = s.packets.skip(n as int);
    assert forall|i: int| 0 <= i < rest.len() implies (#[trigger] rest[i]).t_arrival > s.t_cur by {
        assert(rest[i] == s.packets[i + n]);
        assert(s.packets[n as int].t_arrival <= s.packets[i + n].t_arrival);
        assert(s.packets[n as int].t_arrival >= t);
    }
}

/// Receiving requests leaves the list of those to come alone.
proof fn lemma_receive_all_keeps_packets(s: SimView, rs: Seq<RequestView>)
    ensures
        receive_all(s, rs).packets == s.packets,
    decreases rs.len(),
{
    if rs.len() > 0 {
        lemma_receive_all_keeps_packets(receive(s, rs.last()), rs.drop_last());
    }
}

/// The requests arriving together reach a layout's single receiving core (the
/// forwarder of layout 1, the network-stack core of layout 3) last one first:
/// when its queue has room for them all, they join it in reverse order of
/// arrival and nothing is dropped.
pub proof fn law_receive_last_first(s: SimView, rs: Seq<RequestView>)
    requires
        s.layout is Layout1 || s.layout is Layout3,
    ensures
        ({
            let c = match s.layout {
                LayoutView::Layout1(f, _, _) => f,
                LayoutView::Layout3(n, _) => n,
                _ => arbitrary(),
            };
            let s2 = receive_all(s, rs);
            let c2 = match s2.layout {
                LayoutView::Layout1(f, _, _) => f,
                LayoutView::Layout3(n, _) => n,
                _ => arbitrary(),
            };
            c.local.len() + rs.len() <= c.queue_size ==> {
                &&& c2.local == c.local + rs.reverse()
                &&& s2.dropped == s.dropped
            }
        }),
    decreases rs.len(),
{
    if rs.len() > 0 {
        let s1 = receive(s, rs.last());
        law_receive_last_first(s1, rs.drop_last());
        assert(rs.reverse() =~= seq![rs.last()] + rs.drop_last().reverse());
        match s.layout {
            LayoutView::Layout1(f, _, _) => {
                assert(f.local.push(rs.last()) + rs.drop_last().reverse() =~= f.local + rs.reverse());
            },
            LayoutView::Layout3(n, _) => {
                assert(n.local.push(rs.last()) + rs.drop_last().reverse() =~= n.local + rs.reverse());
            },
            _ => {},
        }
    } else {
        match s.layout {
            LayoutView::Layout1(f, _, _) => { assert(f.local + rs.reverse() =~= f.local); },
            LayoutView::Layout3(n, _) => { assert(n.local + rs.reverse() =~= n.local); },
            _ => {},
        }
    }
}

} // verus!
