//! A dispatching core's tick: it works on its request and, when it finishes
//! one, hands it to the next idle worker in round-robin order.

use std::collections::{HashMap, VecDeque};
use vstd::prelude::*;
use crate::request::{Request, RequestView};
use crate::worker_core::{schedule_spec, Core, CoreAction, CoreState, CoreView, Outcome};
use crate::simulation::{core_ok, workers_ok, rotation_ok};
use crate::sweep::{
    counters_at_most, find_idle, flows_below, lemma_rr_scan, lemma_schedule_effect, rr_pick, views,
    views_of_requests, stack_unstarted, locks_consistent,
};

verus! {

/// `c` with `r` appended to its local queue.
pub open spec fn enqueued(c: CoreView, r: RequestView) -> CoreView {
    CoreView { local: c.local.push(r), ..c }
}

/// `r` marked as dropped by the network stack.
pub open spec fn dropped_in_stack(r: RequestView) -> RequestView {
    RequestView { is_p_dropped: true, ..r }
}

/// A worker after the sweep of its tick: consistent, idle ones with an empty queue.
pub open spec fn swept_worker(c: CoreView, action: CoreAction, queue_size: usize, t: int) -> bool {
    &&& c.wf()
    &&& c.action == action
    &&& c.queue_size == queue_size
    &&& c.local.len() == 0
    &&& c.ready.len() == 0
    &&& counters_at_most(c, t)
}

/// Layout 1's forwarding step on tick `t`: when some worker is idle, the
/// forwarder (which runs only then) takes the round-robin pick as its new
/// rotation point, and a request it finishes goes to that worker's queue.
pub open spec fn forward_dispatch(
    f: CoreView,
    ws: Seq<CoreView>,
    last: Map<usize, usize>,
    t: usize,
) -> (CoreView, Seq<CoreView>, Map<usize, usize>) {
    match rr_pick(ws, last[f.id] as int) {
        None => (f, ws, last),
        Some(idx) => {
            let (f1, _l, o) = schedule_spec(f, t, Seq::empty());
            let ws1 = match o {
                Outcome::Finished(r) => ws.update(idx, enqueued(ws[idx], r)),
                _ => ws,
            };
            (f1, ws1, last.insert(f.id, idx as usize))
        },
    }
}

/// A network-stack core's tick (layouts 3 and 4): a request it finishes goes
/// to its ready queue, or is dropped when that queue is full; after a request
/// entered the ready queue, the oldest one there goes to the next idle
/// worker, if any, which becomes the rotation point.
pub open spec fn stack_dispatch(
    n: CoreView,
    apps: Seq<CoreView>,
    last: Map<usize, usize>,
    t: usize,
    dropped: Seq<RequestView>,
) -> (CoreView, Seq<CoreView>, Map<usize, usize>, Seq<RequestView>) {
    let (n1, _l, o) = schedule_spec(n, t, Seq::empty());
    match o {
        Outcome::Finished(r) => {
            if n1.ready.len() < n1.queue_size {
                let n2 = CoreView { ready: n1.ready.push(r), ..n1 };
                match rr_pick(apps, last[n.id] as int) {
                    Some(idx) => (
                        CoreView { ready: n2.ready.drop_first(), ..n2 },
                        apps.update(idx, enqueued(apps[idx], n2.ready[0])),
                        last.insert(n.id, idx as usize),
                        dropped,
                    ),
                    None => (n2, apps, last, dropped),
                }
            } else {
                (n1, apps, last, dropped.push(dropped_in_stack(r)))
            }
        },
        _ => (n1, apps, last, dropped),
    }
}

/// Runs layout 1's forwarder for tick `t` after its workers' sweep (see [`forward_dispatch`]).
pub fn forward_and_dispatch(
    forwarder: &mut Core,
    workers: &mut Vec<Core>,
    last_workers_idx: &mut HashMap<usize, usize>,
    t: usize,
)
    requires
        old(forwarder)@.wf(),
        old(forwarder)@.action is Forward,
        counters_at_most(old(forwarder)@, t as int),
        t < usize::MAX,
        old(last_workers_idx)@.contains_key(old(forwarder)@.id),
        old(workers)@.len() > 0 ==> old(last_workers_idx)@[old(forwarder)@.id] < old(workers)@.len(),
        forall|j: int| 0 <= j < old(workers)@.len() ==> swept_worker(
            #[trigger] views(old(workers)@)[j],
            CoreAction::NetworkStackAndApplicationLock,
            old(forwarder)@.queue_size,
            t + 1,
        ),
    ensures
        ({
            let (f1, ws1, last1) = forward_dispatch(old(forwarder)@, views(old(workers)@), old(last_workers_idx)@, t);
            &&& final(forwarder)@ == f1
            &&& views(final(workers)@) == ws1
            &&& final(last_workers_idx)@ == last1
        }),
        final(workers)@.len() == old(workers)@.len(),
{
    broadcast use vstd::std_specs::hash::group_hash_axioms;
    let ghost g = views(workers@);
    let fid = forwarder.get_id();
    let last_idx: usize = *last_workers_idx.get(&fid).unwrap();
    let pick = find_idle(workers, last_idx);
    proof {
        lemma_rr_scan(g, last_idx as int, 0);
    }
    if let Some(idx) = pick {
        last_workers_idx.insert(fid, idx);
        proof {
            assert(swept_worker(g[idx as int], CoreAction::NetworkStackAndApplicationLock, forwarder@.queue_size, t + 1));
        }
        match forwarder.schedule(t, None) {
            CoreState::Finished(req) => {
                let ghost r = req@;
                let ghost before = views(workers@);
                match workers[idx].try_enqueue(req) {
                    Ok(()) => {},
                    Err(_) => {
                        proof {
                            assert(false);
                        }
                    },
                }
                proof {
                    assert(views(workers@) =~= before.update(idx as int, enqueued(before[idx as int], r)));
                }
            },
            _ => {},
        }
    }
}

/// Runs a network-stack core for tick `t` after its application cores' sweep
/// (see [`stack_dispatch`]); a request dropped for want of room is marked and
/// appended to `dropped`.
pub fn stack_and_dispatch(
    network: &mut Core,
    apps: &mut Vec<Core>,
    last_workers_idx: &mut HashMap<usize, usize>,
    t: usize,
    dropped: &mut VecDeque<Request>,
)
    requires
        old(network)@.wf(),
        old(network)@.action is NetworkStack,
        counters_at_most(old(network)@, t as int),
        t < usize::MAX,
        old(last_workers_idx)@.contains_key(old(network)@.id),
        old(apps)@.len() > 0 ==> old(last_workers_idx)@[old(network)@.id] < old(apps)@.len(),
        forall|j: int| 0 <= j < old(apps)@.len() ==> swept_worker(
            #[trigger] views(old(apps)@)[j],
            CoreAction::Application,
            old(network)@.queue_size,
            t + 1,
        ),
    ensures
        ({
            let (n1, apps1, last1, dropped1) = stack_dispatch(
                old(network)@,
                views(old(apps)@),
                old(last_workers_idx)@,
                t,
                views_of_requests(old(dropped)@),
            );
            &&& final(network)@ == n1
            &&& views(final(apps)@) == apps1
            &&& final(last_workers_idx)@ == last1
            &&& views_of_requests(final(dropped)@) == dropped1
        }),
        final(apps)@.len() == old(apps)@.len(),
{
    broadcast use vstd::std_specs::hash::group_hash_axioms;
    let ghost g = views(apps@);
    let ghost n0 = network@;
    proof {
        lemma_schedule_effect(n0, t, Seq::empty(), 0);
    }
    match network.schedule(t, None) {
        CoreState::Finished(req) => {
            let ghost r = req@;
            match network.try_enqueue_ready_queue(req) {
                Ok(()) => {
                    let nid = network.get_id();
                    let last_idx: usize = *last_workers_idx.get(&nid).unwrap();
                    let pick = find_idle(apps, last_idx);
                    proof {
                        lemma_rr_scan(g, last_idx as int, 0);
                    }
                    if let Some(idx) = pick {
                        last_workers_idx.insert(nid, idx);
                        proof {
                            assert(swept_worker(g[idx as int], CoreAction::Application, network@.queue_size, t + 1));
                        }
                        let next = network.pop_ready_queue();
                        let ghost rn = next@;
                        let ghost before = views(apps@);
                        match apps[idx].try_enqueue(next) {
                            Ok(()) => {},
                            Err(_) => {
                                proof {
                                    assert(false);
                                }
                            },
                        }
                        proof {
                            assert(views(apps@) =~= before.update(idx as int, enqueued(before[idx as int], rn)));
                        }
                    }
                },
                Err(mut req) => {
                    req.set_p_dropped();
                    let ghost rd = req@;
                    dropped.push_back(req);
                    proof {
                        assert(views_of_requests(dropped@) =~= views_of_requests(old(dropped)@).push(rd));
                    }
                },
            }
        },
        _ => {},
    }
}

/// The rotation map changes at most at `key`.
pub open spec fn same_except(m1: Map<usize, usize>, m0: Map<usize, usize>, key: usize) -> bool {
    forall|k: usize| k != key ==> (#[trigger] m1.contains_key(k) == m0.contains_key(k)
        && (m0.contains_key(k) ==> m1[k] == m0[k]))
}

/// A network-stack core's tick keeps it and its application cores consistent,
/// one tick later.
pub proof fn lemma_stack_dispatch_ok(
    n: CoreView,
    apps: Seq<CoreView>,
    last: Map<usize, usize>,
    t: usize,
    dropped: Seq<RequestView>,
)
    requires
        core_ok(n, CoreAction::NetworkStack, n.queue_size, t as int),
        t < usize::MAX,
        forall|j: int| 0 <= j < apps.len() ==>
            swept_worker(#[trigger] apps[j], CoreAction::Application, n.queue_size, t + 1),
        rotation_ok(last, n.id, apps.len() as int),
    ensures
        ({
            let (n1, apps1, last1, dropped1) = stack_dispatch(n, apps, last, t, dropped);
            &&& core_ok(n1, CoreAction::NetworkStack, n.queue_size, t + 1)
            &&& n1.id == n.id
            &&& apps1.len() == apps.len()
            &&& forall|j: int| 0 <= j < apps.len() ==> (#[trigger] apps1[j]).id == apps[j].id
            &&& workers_ok(apps1, CoreAction::Application, n.queue_size, t + 1)
            &&& rotation_ok(last1, n.id, apps.len() as int)
            &&& same_except(last1, last, n.id)
        }),
{
    let (n1, _l, o) = schedule_spec(n, t, Seq::empty());
    lemma_schedule_effect(n, t, Seq::empty(), 0);
    lemma_rr_scan(apps, last[n.id] as int, 0);
    let (n1x, apps1, last1, dropped1) = stack_dispatch(n, apps, last, t, dropped);
    assert forall|j: int| 0 <= j < apps1.len() implies {
        &&& core_ok(#[trigger] apps1[j], CoreAction::Application, n.queue_size, t + 1)
        &&& crate::simulation::fed_by_dispatcher(apps1[j])
    } by {
        assert(swept_worker(apps[j], CoreAction::Application, n.queue_size, t + 1));
        if let Outcome::Finished(r) = o {
            if n1.ready.len() < n1.queue_size {
                let n2 = CoreView { ready: n1.ready.push(r), ..n1 };
                assert(n2.ready[0].counters_at_most(t + 1));
            }
        }
    }
    if let Outcome::Finished(r) = o {
        if n1.ready.len() < n1.queue_size {
            let n2 = CoreView { ready: n1.ready.push(r), ..n1 };
            assert forall|i: int| 0 <= i < n2.ready.len() implies (#[trigger] n2.ready[i]).counters_at_most(t + 1) by {
                if i < n1.ready.len() {
                    assert(n1.ready[i] == n.ready[i]);
                }
            }
            if rr_pick(apps, last[n.id] as int) is Some {
                let n3 = CoreView { ready: n2.ready.drop_first(), ..n2 };
                assert forall|i: int| 0 <= i < n3.ready.len() implies (#[trigger] n3.ready[i]).counters_at_most(t + 1) by {
                    assert(n3.ready[i] == n2.ready[i + 1]);
                }
            }
        }
    }
}

/// Layout 1's forwarding step keeps the forwarder, its workers and the flow
/// locks consistent, one tick later.
pub proof fn lemma_forward_dispatch_ok(
    f: CoreView,
    ws: Seq<CoreView>,
    locks: Seq<usize>,
    last: Map<usize, usize>,
    t: usize,
)
    requires
        core_ok(f, CoreAction::Forward, f.queue_size, t as int),
        flows_below(f, locks.len() as int),
        stack_unstarted(f),
        t < usize::MAX,
        forall|j: int| 0 <= j < ws.len() ==>
            swept_worker(#[trigger] ws[j], CoreAction::NetworkStackAndApplicationLock, f.queue_size, t + 1),
        forall|j: int| 0 <= j < ws.len() ==> flows_below(#[trigger] ws[j], locks.len() as int),
        locks_consistent(ws, locks),
        rotation_ok(last, f.id, ws.len() as int),
    ensures
        ({
            let (f1, ws1, last1) = forward_dispatch(f, ws, last, t);
            &&& core_ok(f1, CoreAction::Forward, f.queue_size, t + 1)
            &&& f1.id == f.id
            &&& flows_below(f1, locks.len() as int)
            &&& stack_unstarted(f1)
            &&& ws1.len() == ws.len()
            &&& forall|j: int| 0 <= j < ws.len() ==> (#[trigger] ws1[j]).id == ws[j].id
            &&& workers_ok(ws1, CoreAction::NetworkStackAndApplicationLock, f.queue_size, t + 1)
            &&& forall|j: int| 0 <= j < ws1.len() ==> flows_below(#[trigger] ws1[j], locks.len() as int)
            &&& locks_consistent(ws1, locks)
            &&& rotation_ok(last1, f.id, ws.len() as int)
        }),
{
    lemma_rr_scan(ws, last[f.id] as int, 0);
    lemma_schedule_effect(f, t, Seq::empty(), locks.len() as int);
    let (f1, ws1, last1) = forward_dispatch(f, ws, last, t);
    match rr_pick(ws, last[f.id] as int) {
        None => {
            assert forall|i: int| 0 <= i < f1.local.len() implies (#[trigger] f1.local[i]).counters_at_most(t + 1) by {
                assert(f.local[i].counters_at_most(t as int));
            }
            assert forall|i: int| 0 <= i < f1.ready.len() implies (#[trigger] f1.ready[i]).counters_at_most(t + 1) by {
                assert(f.ready[i].counters_at_most(t as int));
            }
            assert forall|j: int| 0 <= j < ws1.len() implies {
                &&& core_ok(#[trigger] ws1[j], CoreAction::NetworkStackAndApplicationLock, f.queue_size, t + 1)
                &&& crate::simulation::fed_by_dispatcher(ws1[j])
            } by {
                assert(swept_worker(ws[j], CoreAction::NetworkStackAndApplicationLock, f.queue_size, t + 1));
            }
        },
        Some(idx) => {
            let (_f1, _l, o) = schedule_spec(f, t, Seq::empty());
            assert(swept_worker(ws[idx], CoreAction::NetworkStackAndApplicationLock, f.queue_size, t + 1));
            assert forall|j: int| 0 <= j < ws1.len() implies {
                &&& core_ok(#[trigger] ws1[j], CoreAction::NetworkStackAndApplicationLock, f.queue_size, t + 1)
                &&& crate::simulation::fed_by_dispatcher(ws1[j])
            } by {
                assert(swept_worker(ws[j], CoreAction::NetworkStackAndApplicationLock, f.queue_size, t + 1));
            }
            assert forall|j: int| 0 <= j < ws1.len() implies flows_below(#[trigger] ws1[j], locks.len() as int) by {
                assert(flows_below(ws[j], locks.len() as int));
            }
            if let Outcome::Finished(r) = o {
                let w = enqueued(ws[idx], r);
                assert(ws1 == ws.update(idx, w));
                assert forall|i: int, k: int| 0 <= i < ws1.len() && 0 <= k < ws1[i].local.len() implies
                    (#[trigger] ws1[i].local[k]).p_completed == 0 by {
                    if i == idx {
                        assert(ws[idx].local.len() == 0);
                    }
                }
                assert forall|f2: int| 0 <= f2 < locks.len() && #[trigger] locks[f2] != usize::MAX implies {
                    &&& 1 <= locks[f2] <= ws1.len()
                    &&& ws1[locks[f2] - 1].current matches Some(r) && r.flow_id == f2 && r.p_completed > 0
                } by {
                    assert(ws1[locks[f2] - 1].current == ws[locks[f2] - 1].current);
                }
                assert forall|i: int| 0 <= i < ws1.len() implies ((#[trigger] ws1[i]).current matches Some(r) ==> (r.p_completed > 0 ==> {
                    &&& r.flow_id < locks.len()
                    &&& locks[r.flow_id as int] == ws1[i].id
                })) by {
                    assert(ws1[i].current == ws[i].current);
                    assert(ws1[i].id == ws[i].id);
                }
            } else {
                assert(ws1 == ws);
            }
        },
    }
}

} // verus!
