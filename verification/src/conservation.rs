//! No request is lost or made up: each id occurs as often among all requests,
//! wherever they are (still to come, queued, in a core, finished or dropped),
//! after a tick as before it.

use vstd::prelude::*;
use crate::request::RequestView;
use crate::worker_core::{schedule_spec, start_spec, continue_spec, stack_then_app, CoreView, Outcome};
use crate::sweep::{sweep, rr_pick, lemma_rr_scan};
use crate::dispatch::{forward_dispatch, stack_dispatch, enqueued, dropped_in_stack};
use crate::config::{planned_packets, SimConfig};
use crate::simulation::{
    app_group, arrival_count, arrivals_receivable, dispatch_groups, nic_target, offer, receive, receive_all,
    step_spec, sweep_groups, tick_cores, LayoutView, SimView,
};

verus! {

/// 1 when `r` has id `v`, else 0.
pub open spec fn is_id(r: RequestView, v: usize) -> nat {
    if r.id == v { 1 } else { 0 }
}

/// How many requests of `rs` have id `v`.
pub open spec fn ids(rs: Seq<RequestView>, v: usize) -> nat
    decreases rs.len(),
{
    if rs.len() == 0 {
        0
    } else {
        ids(rs.drop_last(), v) + is_id(rs.last(), v)
    }
}

/// How many requests a core holds (working on one, or in its queues) have id `v`.
pub open spec fn core_ids(c: CoreView, v: usize) -> nat {
    let cur: nat = match c.current {
        Some(r) => is_id(r, v),
        None => 0,
    };
    cur + ids(c.local, v) + ids(c.ready, v)
}

/// How many requests a sequence of cores holds have id `v`.
pub open spec fn group_ids(g: Seq<CoreView>, v: usize) -> nat
    decreases g.len(),
{
    if g.len() == 0 {
        0
    } else {
        group_ids(g.drop_last(), v) + core_ids(g.last(), v)
    }
}

/// How many requests some groups of cores hold have id `v`.
pub open spec fn groups_ids(gs: Seq<Seq<CoreView>>, v: usize) -> nat
    decreases gs.len(),
{
    if gs.len() == 0 {
        0
    } else {
        groups_ids(gs.drop_last(), v) + group_ids(gs.last(), v)
    }
}

/// How many requests the cores of a layout hold have id `v`.
pub open spec fn layout_ids(l: LayoutView, v: usize) -> nat {
    match l {
        LayoutView::Layout1(f, ws, _) => core_ids(f, v) + group_ids(ws, v),
        LayoutView::Layout2(ws) => group_ids(ws, v),
        LayoutView::Layout3(n, apps) => core_ids(n, v) + group_ids(apps, v),
        LayoutView::Layout4(ns, gs) => group_ids(ns, v) + groups_ids(gs, v),
    }
}

/// How many requests of a simulation have id `v`: still to come, dropped,
/// finished, or held by a core.
pub open spec fn all_ids(s: SimView, v: usize) -> nat {
    ids(s.packets, v) + ids(s.dropped, v) + ids(s.finished, v) + layout_ids(s.layout, v)
}

/// Whether the request a tick's outcome hands back, if any, has id `v`.
pub open spec fn outcome_ids(o: Outcome, v: usize) -> nat {
    match o {
        Outcome::Finished(r) => is_id(r, v),
        _ => 0,
    }
}

proof fn lemma_ids_push(rs: Seq<RequestView>, r: RequestView, v: usize)
    ensures
        ids(rs.push(r), v) == ids(rs, v) + is_id(r, v),
{
    assert(rs.push(r).drop_last() =~= rs);
}

proof fn lemma_ids_drop_first(rs: Seq<RequestView>, v: usize)
    requires
        rs.len() > 0,
    ensures
        ids(rs, v) == ids(rs.drop_first(), v) + is_id(rs[0], v),
    decreases rs.len(),
{
    if rs.len() == 1 {
        assert(rs.drop_first() =~= Seq::<RequestView>::empty());
        assert(rs.drop_last() =~= Seq::<RequestView>::empty());
    } else {
        lemma_ids_drop_first(rs.drop_last(), v);
        assert(rs.drop_last().drop_first() =~= rs.drop_first().drop_last());
        assert(rs.drop_first().last() == rs.last());
    }
}

proof fn lemma_ids_take_skip(rs: Seq<RequestView>, n: int, v: usize)
    requires
        0 <= n <= rs.len(),
    ensures
        ids(rs, v) == ids(rs.take(n), v) + ids(rs.skip(n), v),
    decreases rs.len() - n,
{
    if n == rs.len() {
        assert(rs.take(n) =~= rs);
        assert(rs.skip(n) =~= Seq::<RequestView>::empty());
    } else {
        lemma_ids_take_skip(rs, n + 1, v);
        assert(rs.take(n + 1) =~= rs.take(n).push(rs[n]));
        lemma_ids_push(rs.take(n), rs[n], v);
        lemma_ids_drop_first(rs.skip(n), v);
        assert(rs.skip(n).drop_first() =~= rs.skip(n + 1));
    }
}

/// Replacing one core changes a group's count by what that core holds.
proof fn lemma_group_ids_update(g: Seq<CoreView>, i: int, c: CoreView, v: usize)
    requires
        0 <= i < g.len(),
    ensures
        group_ids(g.update(i, c), v) + core_ids(g[i], v) == group_ids(g, v) + core_ids(c, v),
    decreases g.len(),
{
    let g1 = g.update(i, c);
    assert(g1.drop_last() =~= g.drop_last().update(i, c) || i == g.len() - 1);
    if i == g.len() - 1 {
        assert(g1.drop_last() =~= g.drop_last());
    } else {
        lemma_group_ids_update(g.drop_last(), i, c, v);
        assert(g1.drop_last() =~= g.drop_last().update(i, c));
    }
}

/// A tick of a core keeps its requests, but for the one it finishes.
proof fn lemma_schedule_ids(c: CoreView, t: usize, locks: Seq<usize>, v: usize)
    ensures
        ({
            let (c1, l1, o) = schedule_spec(c, t, locks);
            core_ids(c, v) == core_ids(c1, v) + outcome_ids(o, v)
        }),
{
    let (c1, l1, o) = schedule_spec(c, t, locks);
    match c.current {
        Some(r) => {
            let (r1, l2, done) = continue_spec(c.action, c.id, r, t, locks);
            let (ra, da) = stack_then_app(r, t);
            assert(ra.id == r.id);
            assert(r1.id == r.id);
        },
        None => {
            if c.local.len() > 0 {
                lemma_ids_drop_first(c.local, v);
                let (r1, l2) = start_spec(c.action, c.id, c.local[0], t, locks);
                assert(r1.id == c.local[0].id);
            }
        },
    }
}

/// A sweep moves requests from the cores to the finished list, and no further.
proof fn lemma_sweep_ids(g: Seq<CoreView>, t: usize, locks: Seq<usize>, fin: Seq<RequestView>, pc: Seq<usize>, v: usize)
    ensures
        ({
            let sw = sweep(g, t, locks, fin, pc);
            &&& group_ids(g, v) + ids(fin, v) == group_ids(sw.cores, v) + ids(sw.finished, v)
            &&& sw.cores.len() == g.len()
        }),
    decreases g.len(),
{
    if g.len() > 0 {
        lemma_sweep_ids(g.drop_last(), t, locks, fin, pc, v);
        let s0 = sweep(g.drop_last(), t, locks, fin, pc);
        let (c1, l1, o) = schedule_spec(g.last(), t, s0.locks);
        lemma_schedule_ids(g.last(), t, s0.locks, v);
        let sw = sweep(g, t, locks, fin, pc);
        assert(sw.cores.drop_last() =~= s0.cores);
        if let Outcome::Finished(r) = o {
            lemma_ids_push(s0.finished, r, v);
        }
    }
}

/// Sweeping every group of layout 4 moves requests to the finished list only.
proof fn lemma_sweep_groups_ids(gs: Seq<Seq<CoreView>>, t: usize, fin: Seq<RequestView>, pc: Seq<usize>, v: usize)
    ensures
        ({
            let (gs1, fin1, pc1) = sweep_groups(gs, t, fin, pc);
            &&& groups_ids(gs, v) + ids(fin, v) == groups_ids(gs1, v) + ids(fin1, v)
            &&& gs1.len() == gs.len()
        }),
    decreases gs.len(),
{
    if gs.len() > 0 {
        lemma_sweep_groups_ids(gs.drop_last(), t, fin, pc, v);
        let (gs0, fin0, pc0) = sweep_groups(gs.drop_last(), t, fin, pc);
        lemma_sweep_ids(gs.last(), t, Seq::empty(), fin0, pc0, v);
        let (gs1, fin1, pc1) = sweep_groups(gs, t, fin, pc);
        assert(gs1.drop_last() =~= gs0);
    }
}

/// Layout 1's forwarding step moves requests between the forwarder and the workers only.
proof fn lemma_forward_dispatch_ids(f: CoreView, ws: Seq<CoreView>, last: Map<usize, usize>, t: usize, v: usize)
    ensures
        ({
            let (f1, ws1, last1) = forward_dispatch(f, ws, last, t);
            core_ids(f, v) + group_ids(ws, v) == core_ids(f1, v) + group_ids(ws1, v)
        }),
{
    lemma_rr_scan(ws, last[f.id] as int, 0);
    if let Some(idx) = rr_pick(ws, last[f.id] as int) {
        let (fx, _l, o) = schedule_spec(f, t, Seq::empty());
        lemma_schedule_ids(f, t, Seq::empty(), v);
        if let Outcome::Finished(r) = o {
            lemma_group_ids_update(ws, idx, enqueued(ws[idx], r), v);
            lemma_ids_push(ws[idx].local, r, v);
        }
    }
}

/// A network-stack core's step moves requests between it, its workers and the dropped list only.
proof fn lemma_stack_dispatch_ids(
    n: CoreView,
    apps: Seq<CoreView>,
    last: Map<usize, usize>,
    t: usize,
    dropped: Seq<RequestView>,
    v: usize,
)
    ensures
        ({
            let (n1, apps1, last1, d1) = stack_dispatch(n, apps, last, t, dropped);
            &&& core_ids(n, v) + group_ids(apps, v) + ids(dropped, v)
                == core_ids(n1, v) + group_ids(apps1, v) + ids(d1, v)
            &&& apps1.len() == apps.len()
        }),
{
    let (n1, _l, o) = schedule_spec(n, t, Seq::empty());
    lemma_schedule_ids(n, t, Seq::empty(), v);
    lemma_rr_scan(apps, last[n.id] as int, 0);
    if let Outcome::Finished(r) = o {
        if n1.ready.len() < n1.queue_size {
            let n2 = CoreView { ready: n1.ready.push(r), ..n1 };
            lemma_ids_push(n1.ready, r, v);
            if let Some(idx) = rr_pick(apps, last[n.id] as int) {
                lemma_ids_drop_first(n2.ready, v);
                lemma_group_ids_update(apps, idx, enqueued(apps[idx], n2.ready[0]), v);
                lemma_ids_push(apps[idx].local, n2.ready[0], v);
            }
        } else {
            lemma_ids_push(dropped, dropped_in_stack(r), v);
        }
    }
}

/// The network-stack cores of layout 4 move requests among themselves, their groups and the dropped list only.
proof fn lemma_dispatch_groups_ids(
    ns: Seq<CoreView>,
    gs: Seq<Seq<CoreView>>,
    last: Map<usize, usize>,
    t: usize,
    dropped: Seq<RequestView>,
    v: usize,
)
    requires
        ns.len() == gs.len(),
    ensures
        ({
            let (ns1, gs1, last1, d1) = dispatch_groups(ns, gs, last, t, dropped);
            &&& group_ids(ns, v) + groups_ids(gs, v) + ids(dropped, v)
                == group_ids(ns1, v) + groups_ids(gs1, v) + ids(d1, v)
            &&& ns1.len() == ns.len()
            &&& gs1.len() == gs.len()
        }),
    decreases ns.len(),
{
    if ns.len() > 0 {
        lemma_dispatch_groups_ids(ns.drop_last(), gs.drop_last(), last, t, dropped, v);
        let (ns0, gs0, last0, d0) = dispatch_groups(ns.drop_last(), gs.drop_last(), last, t, dropped);
        lemma_stack_dispatch_ids(ns.last(), gs.last(), last0, t, d0, v);
        let (ns1, gs1, last1, d1) = dispatch_groups(ns, gs, last, t, dropped);
        assert(ns1.drop_last() =~= ns0);
        assert(gs1.drop_last() =~= gs0);
    }
}

/// The cores' part of a tick moves requests among the cores, the finished
/// list and the dropped list only.
proof fn lemma_tick_cores_ids(s: SimView, v: usize)
    requires
        s.layout matches LayoutView::Layout4(ns, gs) ==> ns.len() == gs.len(),
    ensures
        all_ids(tick_cores(s), v) == all_ids(s, v),
        tick_cores(s).packets == s.packets,
        tick_cores(s).nr_queues() == s.nr_queues(),
        tick_cores(s).layout is Layout2 <==> s.layout is Layout2,
        tick_cores(s).layout is Layout4 <==> s.layout is Layout4,
{
    let t = s.t_cur;
    match s.layout {
        LayoutView::Layout1(f, ws, locks) => {
            let sw = sweep(ws, t, locks, s.finished, s.per_core);
            lemma_sweep_ids(ws, t, locks, s.finished, s.per_core, v);
            lemma_forward_dispatch_ids(f, sw.cores, s.last_workers_idx, t, v);
        },
        LayoutView::Layout2(ws) => {
            lemma_sweep_ids(ws, t, Seq::empty(), s.finished, s.per_core, v);
        },
        LayoutView::Layout3(n, apps) => {
            let sw = sweep(apps, t, Seq::empty(), s.finished, s.per_core);
            lemma_sweep_ids(apps, t, Seq::empty(), s.finished, s.per_core, v);
            lemma_stack_dispatch_ids(n, sw.cores, s.last_workers_idx, t, s.dropped, v);
        },
        LayoutView::Layout4(ns, gs) => {
            let (gs1, fin1, pc1) = sweep_groups(gs, t, s.finished, s.per_core);
            lemma_sweep_groups_ids(gs, t, s.finished, s.per_core, v);
            lemma_dispatch_groups_ids(ns, gs1, s.last_workers_idx, t, s.dropped, v);
        },
    }
}

/// Offering a request to a core puts it in the core's queue or in the dropped list.
proof fn lemma_offer_ids(c: CoreView, r: RequestView, dropped: Seq<RequestView>, v: usize)
    ensures
        ({
            let (c1, d1) = offer(c, r, dropped);
            core_ids(c1, v) + ids(d1, v) == core_ids(c, v) + ids(dropped, v) + is_id(r, v)
        }),
{
    lemma_ids_push(c.local, r, v);
    lemma_ids_push(dropped, dropped_in_stack(r), v);
}

/// The NIC picks an existing core for every request (layouts 2 and 4).
pub open spec fn targets_exist(s: SimView) -> bool {
    forall|r: RequestView| 0 <= #[trigger] nic_target(s, r) < s.nr_queues()
}

/// Receiving a request adds it to the cores or to the dropped list.
proof fn lemma_receive_ids(s: SimView, r: RequestView, v: usize)
    requires
        (s.layout is Layout2 || s.layout is Layout4) ==> 0 <= nic_target(s, r) < s.nr_queues(),
    ensures
        all_ids(receive(s, r), v) == all_ids(s, v) + is_id(r, v),
        receive(s, r).layout is Layout2 <==> s.layout is Layout2,
        receive(s, r).layout is Layout4 <==> s.layout is Layout4,
        receive(s, r).nr_queues() == s.nr_queues(),
        receive(s, r).indirection_table == s.indirection_table,
        receive(s, r).nr_indirection_table_entries == s.nr_indirection_table_entries,
{
    match s.layout {
        LayoutView::Layout1(f, ws, locks) => {
            lemma_offer_ids(f, r, s.dropped, v);
        },
        LayoutView::Layout2(ws) => {
            let k = nic_target(s, r);
            lemma_offer_ids(ws[k], r, s.dropped, v);
            let (c1, d1) = offer(ws[k], r, s.dropped);
            lemma_group_ids_update(ws, k, c1, v);
        },
        LayoutView::Layout3(n, apps) => {
            lemma_offer_ids(n, r, s.dropped, v);
        },
        LayoutView::Layout4(ns, gs) => {
            let k = nic_target(s, r);
            lemma_offer_ids(ns[k], r, s.dropped, v);
            let (c1, d1) = offer(ns[k], r, s.dropped);
            lemma_group_ids_update(ns, k, c1, v);
        },
    }
}

/// Receiving requests adds them.
proof fn lemma_receive_all_ids(s: SimView, rs: Seq<RequestView>, v: usize)
    requires
        (s.layout is Layout2 || s.layout is Layout4) && rs.len() > 0 ==> targets_exist(s),
    ensures
        all_ids(receive_all(s, rs), v) == all_ids(s, v) + ids(rs, v),
    decreases rs.len(),
{
    if rs.len() > 0 {
        lemma_receive_ids(s, rs.last(), v);
        let s1 = receive(s, rs.last());
        if (s1.layout is Layout2 || s1.layout is Layout4) && rs.drop_last().len() > 0 {
            assert forall|r: RequestView| 0 <= #[trigger] nic_target(s1, r) < s1.nr_queues() by {
                assert(nic_target(s1, r) == nic_target(s, r));
                assert(0 <= nic_target(s, r) < s.nr_queues());
            }
        }
        lemma_receive_all_ids(s1, rs.drop_last(), v);
    }
}

/// A tick neither loses nor makes up a request: each id occurs as often,
/// among the requests still to come, queued, in a core, finished or dropped,
/// after the tick as before it (for a tick whose arrivals the NIC can place).
pub proof fn law_requests_conserved(s: SimView, v: usize)
    requires
        s.wf(),
        arrivals_receivable(s),
    ensures
        all_ids(step_spec(s), v) == all_ids(s, v),
{
    let t = s.t_cur;
    lemma_tick_cores_ids(s, v);
    let s1 = tick_cores(s);
    let n = arrival_count(s.packets, t as int);
    crate::simulation::lemma_arrival_count(s.packets, t as int);
    let s1p = SimView { packets: s.packets.skip(n as int), ..s1 };
    lemma_ids_take_skip(s.packets, n as int, v);
    if (s1p.layout is Layout2 || s1p.layout is Layout4) && n > 0 {
        assert forall|r: RequestView| 0 <= #[trigger] nic_target(s1p, r) < s1p.nr_queues() by {
            let k = (r.flow_id % s.nr_indirection_table_entries) as usize;
            assert(s.indirection_table.contains_key(k));
        }
    }
    lemma_receive_all_ids(s1p, s.packets.take(n as int), v);
}

/// Requests numbered `0, 1, ...` in order hold id `v` once when `v` is below their number.
proof fn lemma_numbered_ids(rs: Seq<RequestView>, v: usize)
    requires
        forall|i: int| 0 <= i < rs.len() ==> (#[trigger] rs[i]).id == i,
    ensures
        ids(rs, v) == (if v < rs.len() { 1nat } else { 0nat }),
    decreases rs.len(),
{
    if rs.len() > 0 {
        let d = rs.drop_last();
        assert forall|i: int| 0 <= i < d.len() implies (#[trigger] d[i]).id == i by {
            assert(d[i] == rs[i]);
        }
        lemma_numbered_ids(d, v);
    }
}

/// Cores that hold no request hold no id.
proof fn lemma_empty_group_ids(g: Seq<CoreView>, v: usize)
    requires
        forall|i: int| 0 <= i < g.len() ==> {
            &&& (#[trigger] g[i]).current is None
            &&& g[i].local.len() == 0
            &&& g[i].ready.len() == 0
        },
    ensures
        group_ids(g, v) == 0,
    decreases g.len(),
{
    if g.len() > 0 {
        let d = g.drop_last();
        assert forall|i: int| 0 <= i < d.len() implies {
            &&& (#[trigger] d[i]).current is None
            &&& d[i].local.len() == 0
            &&& d[i].ready.len() == 0
        } by {
            assert(d[i] == g[i]);
        }
        lemma_empty_group_ids(d, v);
        assert(g.last() == g[g.len() - 1]);
    }
}

/// Groups of cores that hold no request hold no id.
proof fn lemma_empty_groups_ids(gs: Seq<Seq<CoreView>>, v: usize)
    requires
        forall|k: int, i: int| 0 <= k < gs.len() && 0 <= i < gs[k].len() ==> {
            &&& (#[trigger] gs[k][i]).current is None
            &&& gs[k][i].local.len() == 0
            &&& gs[k][i].ready.len() == 0
        },
    ensures
        groups_ids(gs, v) == 0,
    decreases gs.len(),
{
    if gs.len() > 0 {
        let d = gs.drop_last();
        assert forall|k: int, i: int| 0 <= k < d.len() && 0 <= i < d[k].len() implies {
            &&& (#[trigger] d[k][i]).current is None
            &&& d[k][i].local.len() == 0
            &&& d[k][i].ready.len() == 0
        } by {
            assert(d[k] == gs[k]);
        }
        lemma_empty_groups_ids(d, v);
        let last = gs.last();
        assert forall|i: int| 0 <= i < last.len() implies {
            &&& (#[trigger] last[i]).current is None
            &&& last[i].local.len() == 0
            &&& last[i].ready.len() == 0
        } by {
            assert(last == gs[gs.len() - 1]);
        }
        lemma_empty_group_ids(last, v);
    }
}

/// A newly built simulation holds each of the ids `0 .. nr_packets` exactly
/// once (all still to come) and no other; with [`law_requests_conserved`],
/// so it stays at every tick.
pub proof fn law_fresh_simulation_ids(cfg: SimConfig, s: SimView, v: usize)
    requires
        cfg.initial_layout(s.layout),
        planned_packets(cfg, s.packets, s.flows_drawn),
        s.dropped.len() == 0,
        s.finished.len() == 0,
    ensures
        all_ids(s, v) == (if v < cfg.nr_packets { 1nat } else { 0nat }),
{
    assert forall|i: int| 0 <= i < s.packets.len() implies (#[trigger] s.packets[i]).id == i by {
        assert(s.packets[i].id == i as usize);
    }
    lemma_numbered_ids(s.packets, v);
    assert(ids(s.dropped, v) == 0);
    assert(ids(s.finished, v) == 0);
    match s.layout {
        LayoutView::Layout1(f, ws, _) => {
            lemma_empty_group_ids(ws, v);
        },
        LayoutView::Layout2(ws) => {
            lemma_empty_group_ids(ws, v);
        },
        LayoutView::Layout3(n, apps) => {
            lemma_empty_group_ids(apps, v);
        },
        LayoutView::Layout4(ns, gs) => {
            lemma_empty_group_ids(ns, v);
            assert forall|k: int, i: int| 0 <= k < gs.len() && 0 <= i < gs[k].len() implies {
                &&& (#[trigger] gs[k][i]).current is None
                &&& gs[k][i].local.len() == 0
                &&& gs[k][i].ready.len() == 0
            } by {
                assert(app_group(gs[k], cfg.nr_network_cores as int, cfg.nr_application_cores as int, k, cfg.queue_size));
            }
            lemma_empty_groups_ids(gs, v);
        },
    }
}

} // verus!
