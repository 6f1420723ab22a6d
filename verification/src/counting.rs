//! The per-core counts of finished requests add up to the number of finished
//! requests: every request a counted core finishes is counted once, for that core.

use vstd::prelude::*;
use crate::request::RequestView;
use crate::worker_core::{schedule_spec, CoreView, Outcome};
use crate::sweep::{finishers_counted, lemma_sweep_locks_independent, sweep, tally};
use crate::simulation::{
    arrival_count, groups_finishers_counted, receive, receive_all, step_spec, sweep_groups, tick_cores,
    tick_counts_ok, zeros, LayoutView, SimView,
};

verus! {

/// The sum of `ps`.
pub open spec fn total(ps: Seq<usize>) -> int
    decreases ps.len(),
{
    if ps.len() == 0 { 0 } else { total(ps.drop_last()) + ps.last() }
}

/// Each count is at most the sum, and raising one count raises the sum as much.
proof fn lemma_total_update(ps: Seq<usize>, i: int, x: usize)
    requires
        0 <= i < ps.len(),
    ensures
        ps[i] <= total(ps),
        total(ps.update(i, x)) == total(ps) - ps[i] + x,
    decreases ps.len(),
{
    let d = ps.drop_last();
    let u = ps.update(i, x);
    if i < ps.len() - 1 {
        lemma_total_update(d, i, x);
        assert(u.drop_last() =~= d.update(i, x));
        assert(d[i] == ps[i]);
        lemma_total_nonneg(d);
    } else {
        assert(u.drop_last() =~= d);
        lemma_total_nonneg(d);
    }
}

/// A sum of counts is not negative.
proof fn lemma_total_nonneg(ps: Seq<usize>)
    ensures
        total(ps) >= 0,
    decreases ps.len(),
{
    if ps.len() > 0 {
        lemma_total_nonneg(ps.drop_last());
    }
}

/// Zeros add up to zero.
pub proof fn lemma_total_zeros(n: nat)
    ensures
        total(zeros(n)) == 0,
    decreases n,
{
    if n > 0 {
        assert(zeros(n).drop_last() =~= zeros((n - 1) as nat));
        lemma_total_zeros((n - 1) as nat);
    }
}

/// A sweep adds to the counts exactly as many requests as it finishes,
/// as long as the finished list stays within a machine's reach.
proof fn lemma_sweep_total(
    g: Seq<CoreView>,
    t: usize,
    locks: Seq<usize>,
    fin: Seq<RequestView>,
    pc: Seq<usize>,
)
    requires
        finishers_counted(g, t, locks),
        pc.len() == 16,
        total(pc) == fin.len(),
        sweep(g, t, locks, fin, pc).finished.len() <= usize::MAX,
    ensures
        total(sweep(g, t, locks, fin, pc).per_core) == sweep(g, t, locks, fin, pc).finished.len(),
        sweep(g, t, locks, fin, pc).per_core.len() == pc.len(),
        sweep(g, t, locks, fin, pc).finished.len() >= fin.len(),
    decreases g.len(),
{
    if g.len() > 0 {
        let d = g.drop_last();
        let s0 = sweep(d, t, locks, fin, pc);
        let (c1, l1, o) = schedule_spec(g.last(), t, s0.locks);
        lemma_sweep_locks_independent(d, t, locks, fin, pc);
        lemma_sweep_total(d, t, locks, fin, pc);
        if let Outcome::Finished(r) = o {
            let id = g.last().id as int;
            assert(g.last() == g[g.len() - 1]);
            lemma_total_update(s0.per_core, id, (s0.per_core[id] + 1) as usize);
        }
    }
}

/// A sweep only appends to the finished requests, and keeps the number of counts.
proof fn lemma_sweep_grows(g: Seq<CoreView>, t: usize, locks: Seq<usize>, fin: Seq<RequestView>, pc: Seq<usize>)
    ensures
        sweep(g, t, locks, fin, pc).finished.len() >= fin.len(),
    decreases g.len(),
{
    if g.len() > 0 {
        lemma_sweep_grows(g.drop_last(), t, locks, fin, pc);
    }
}

/// Sweeping the groups of layout 4 adds to the counts as many requests as it finishes.
proof fn lemma_sweep_groups_total(gs: Seq<Seq<CoreView>>, t: usize, fin: Seq<RequestView>, pc: Seq<usize>)
    requires
        groups_finishers_counted(gs, t),
        pc.len() == 16,
        total(pc) == fin.len(),
        sweep_groups(gs, t, fin, pc).1.len() <= usize::MAX,
    ensures
        total(sweep_groups(gs, t, fin, pc).2) == sweep_groups(gs, t, fin, pc).1.len(),
        sweep_groups(gs, t, fin, pc).2.len() == pc.len(),
        sweep_groups(gs, t, fin, pc).1.len() >= fin.len(),
    decreases gs.len(),
{
    if gs.len() > 0 {
        let d = gs.drop_last();
        assert forall|k: int| 0 <= k < d.len() implies finishers_counted(#[trigger] d[k], t, Seq::empty()) by {
            assert(d[k] == gs[k]);
        }
        let (gs0, fin0, pc0) = sweep_groups(d, t, fin, pc);
        assert(gs.last() == gs[gs.len() - 1]);
        lemma_sweep_grows(gs.last(), t, Seq::empty(), fin0, pc0);
        lemma_sweep_groups_total(d, t, fin, pc);
        lemma_sweep_total(gs.last(), t, Seq::empty(), fin0, pc0);
    }
}

/// Receiving requests touches neither the finished requests nor the counts.
proof fn lemma_receive_all_keeps_counts(s: SimView, rs: Seq<RequestView>)
    ensures
        receive_all(s, rs).finished == s.finished,
        receive_all(s, rs).per_core == s.per_core,
    decreases rs.len(),
{
    if rs.len() > 0 {
        lemma_receive_all_keeps_counts(receive(s, rs.last()), rs.drop_last());
    }
}

/// When every core that finishes a request on a tick has a place among the
/// 16 counts, the counts add up to the number of finished requests before the
/// tick and so after it too (as long as the finished requests fit in memory).
pub proof fn law_counts_add_up(s: SimView)
    requires
        tick_counts_ok(s),
        s.per_core.len() == 16,
        total(s.per_core) == s.finished.len(),
        step_spec(s).finished.len() <= usize::MAX,
    ensures
        total(step_spec(s).per_core) == step_spec(s).finished.len(),
{
    let t = s.t_cur;
    let s1 = tick_cores(s);
    let n = arrival_count(s.packets, t as int);
    lemma_receive_all_keeps_counts(SimView { packets: s.packets.skip(n as int), ..s1 }, s.packets.take(n as int));
    match s.layout {
        LayoutView::Layout1(f, ws, locks) => {
            lemma_sweep_total(ws, t, locks, s.finished, s.per_core);
        },
        LayoutView::Layout2(ws) => {
            lemma_sweep_total(ws, t, Seq::empty(), s.finished, s.per_core);
        },
        LayoutView::Layout3(n, apps) => {
            lemma_sweep_total(apps, t, Seq::empty(), s.finished, s.per_core);
        },
        LayoutView::Layout4(ns, gs) => {
            lemma_sweep_groups_total(gs, t, s.finished, s.per_core);
        },
    }
}

} // verus!
