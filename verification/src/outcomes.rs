//! What the finished and the dropped requests record: a finished request has
//! completed its application phase and leaves on the tick after that phase
//! ended; a dropped request is marked as dropped by the network stack.

use vstd::prelude::*;
use crate::request::RequestView;
use crate::worker_core::{schedule_spec, CoreAction, CoreView, Outcome};
use crate::sweep::sweep;
use crate::dispatch::{dropped_in_stack, stack_dispatch};
use crate::simulation::{
    arrival_count, dispatch_groups, receive, receive_all, step_spec, sweep_groups, tick_cores,
    workers_ok, LayoutView, SimView,
};

verus! {

/// `r` has completed its application phase and departs the tick after it ended.
pub open spec fn completed(r: RequestView) -> bool {
    &&& r.is_r_completed
    &&& r.t_departure == r.t_r_end + 1
}

/// Every request of `rs` has completed.
pub open spec fn all_completed(rs: Seq<RequestView>) -> bool {
    forall|i: int| 0 <= i < rs.len() ==> completed(#[trigger] rs[i])
}

/// Every request of `rs` is marked as dropped by the network stack.
pub open spec fn all_marked_dropped(rs: Seq<RequestView>) -> bool {
    forall|i: int| 0 <= i < rs.len() ==> (#[trigger] rs[i]).is_p_dropped
}

/// The finished requests have all completed, and the dropped ones are all marked.
pub open spec fn outcomes_recorded(s: SimView) -> bool {
    &&& all_completed(s.finished)
    &&& all_marked_dropped(s.dropped)
}

/// The actions whose cores finish a request only once its application phase is done.
pub open spec fn runs_application(a: CoreAction) -> bool {
    a is Application || a is NetworkStackAndApplication || a is NetworkStackAndApplicationLock
}

/// A core that runs the application hands back only completed requests.
proof fn lemma_finish_completed(c: CoreView, t: usize, locks: Seq<usize>)
    requires
        runs_application(c.action),
        t < usize::MAX,
    ensures
        schedule_spec(c, t, locks).2 matches Outcome::Finished(r) ==> completed(r),
{
}

/// A sweep of cores that run the application only appends completed requests.
proof fn lemma_sweep_completed(g: Seq<CoreView>, t: usize, locks: Seq<usize>, fin: Seq<RequestView>, pc: Seq<usize>)
    requires
        forall|i: int| 0 <= i < g.len() ==> runs_application((#[trigger] g[i]).action),
        all_completed(fin),
        t < usize::MAX,
    ensures
        all_completed(sweep(g, t, locks, fin, pc).finished),
    decreases g.len(),
{
    if g.len() > 0 {
        let d = g.drop_last();
        assert forall|i: int| 0 <= i < d.len() implies runs_application((#[trigger] d[i]).action) by {
            assert(d[i] == g[i]);
        }
        lemma_sweep_completed(d, t, locks, fin, pc);
        let s0 = sweep(d, t, locks, fin, pc);
        assert(g.last() == g[g.len() - 1]);
        lemma_finish_completed(g.last(), t, s0.locks);
    }
}

/// Sweeping the application groups of layout 4 only appends completed requests.
proof fn lemma_sweep_groups_completed(gs: Seq<Seq<CoreView>>, t: usize, fin: Seq<RequestView>, pc: Seq<usize>)
    requires
        forall|k: int, i: int| 0 <= k < gs.len() && 0 <= i < gs[k].len() ==>
            runs_application((#[trigger] gs[k][i]).action),
        all_completed(fin),
        t < usize::MAX,
    ensures
        all_completed(sweep_groups(gs, t, fin, pc).1),
    decreases gs.len(),
{
    if gs.len() > 0 {
        let d = gs.drop_last();
        assert forall|k: int, i: int| 0 <= k < d.len() && 0 <= i < d[k].len() implies
            runs_application((#[trigger] d[k][i]).action) by {
            assert(d[k] == gs[k]);
        }
        lemma_sweep_groups_completed(d, t, fin, pc);
        let (gs0, fin0, pc0) = sweep_groups(d, t, fin, pc);
        let last = gs.last();
        assert forall|i: int| 0 <= i < last.len() implies runs_application((#[trigger] last[i]).action) by {
            assert(last == gs[gs.len() - 1]);
        }
        lemma_sweep_completed(last, t, Seq::empty(), fin0, pc0);
    }
}

/// Marked requests stay marked when a marked one is added.
proof fn lemma_push_marked(rs: Seq<RequestView>, r: RequestView)
    requires
        all_marked_dropped(rs),
    ensures
        all_marked_dropped(rs.push(dropped_in_stack(r))),
{
    let rs1 = rs.push(dropped_in_stack(r));
    assert forall|i: int| 0 <= i < rs1.len() implies (#[trigger] rs1[i]).is_p_dropped by {
        if i < rs.len() {
            assert(rs1[i] == rs[i]);
        }
    }
}

/// A network-stack core's tick only drops marked requests.
proof fn lemma_stack_dispatch_marked(
    n: CoreView,
    apps: Seq<CoreView>,
    last: Map<usize, usize>,
    t: usize,
    dropped: Seq<RequestView>,
)
    requires
        all_marked_dropped(dropped),
    ensures
        all_marked_dropped(stack_dispatch(n, apps, last, t, dropped).3),
{
    let (n1, _l, o) = schedule_spec(n, t, Seq::empty());
    if let Outcome::Finished(r) = o {
        lemma_push_marked(dropped, r);
    }
}

/// The network-stack cores of layout 4 only drop marked requests.
proof fn lemma_dispatch_groups_marked(
    ns: Seq<CoreView>,
    gs: Seq<Seq<CoreView>>,
    last: Map<usize, usize>,
    t: usize,
    dropped: Seq<RequestView>,
)
    requires
        all_marked_dropped(dropped),
    ensures
        all_marked_dropped(dispatch_groups(ns, gs, last, t, dropped).3),
    decreases ns.len(),
{
    if ns.len() > 0 && gs.len() > 0 {
        lemma_dispatch_groups_marked(ns.drop_last(), gs.drop_last(), last, t, dropped);
        let (ns0, gs0, last0, d0) = dispatch_groups(ns.drop_last(), gs.drop_last(), last, t, dropped);
        lemma_stack_dispatch_marked(ns.last(), gs.last(), last0, t, d0);
    }
}

/// Receiving requests leaves the finished ones alone and only drops marked ones.
proof fn lemma_receive_all_recorded(s: SimView, rs: Seq<RequestView>)
    requires
        outcomes_recorded(s),
    ensures
        outcomes_recorded(receive_all(s, rs)),
    decreases rs.len(),
{
    if rs.len() > 0 {
        let r = rs.last();
        match s.layout {
            LayoutView::Layout1(f, _, _) => {
                if f.local.len() >= f.queue_size { lemma_push_marked(s.dropped, r); }
            },
            LayoutView::Layout2(ws) => {
                let c = ws[crate::simulation::nic_target(s, r)];
                if c.local.len() >= c.queue_size { lemma_push_marked(s.dropped, r); }
            },
            LayoutView::Layout3(n, _) => {
                if n.local.len() >= n.queue_size { lemma_push_marked(s.dropped, r); }
            },
            LayoutView::Layout4(ns, _) => {
                let c = ns[crate::simulation::nic_target(s, r)];
                if c.local.len() >= c.queue_size { lemma_push_marked(s.dropped, r); }
            },
        }
        lemma_receive_all_recorded(receive(s, r), rs.drop_last());
    }
}

/// A tick keeps what the finished and the dropped requests record: the
/// requests it finishes have completed their application phase and leave on
/// the tick after it ended, and those it drops are marked as dropped.
pub proof fn law_outcomes_recorded(s: SimView)
    requires
        s.wf(),
        s.t_cur < s.t_duration,
        outcomes_recorded(s),
    ensures
        outcomes_recorded(step_spec(s)),
{
    let t = s.t_cur;
    let s1 = tick_cores(s);
    match s.layout {
        LayoutView::Layout1(f, ws, locks) => {
            lemma_sweep_completed(ws, t, locks, s.finished, s.per_core);
        },
        LayoutView::Layout2(ws) => {
            lemma_sweep_completed(ws, t, Seq::empty(), s.finished, s.per_core);
        },
        LayoutView::Layout3(n, apps) => {
            lemma_sweep_completed(apps, t, Seq::empty(), s.finished, s.per_core);
            let sw = sweep(apps, t, Seq::empty(), s.finished, s.per_core);
            lemma_stack_dispatch_marked(n, sw.cores, s.last_workers_idx, t, s.dropped);
        },
        LayoutView::Layout4(ns, gs) => {
            assert forall|k: int, i: int| 0 <= k < gs.len() && 0 <= i < gs[k].len() implies
                runs_application((#[trigger] gs[k][i]).action) by {
                assert(workers_ok(gs[k], CoreAction::Application, ns[k].queue_size, t as int));
            }
            lemma_sweep_groups_completed(gs, t, s.finished, s.per_core);
            let (gs1, fin1, pc1) = sweep_groups(gs, t, s.finished, s.per_core);
            lemma_dispatch_groups_marked(ns, gs1, s.last_workers_idx, t, s.dropped);
        },
    }
    let n = arrival_count(s.packets, t as int);
    lemma_receive_all_recorded(SimView { packets: s.packets.skip(n as int), ..s1 }, s.packets.take(n as int));
}

} // verus!
