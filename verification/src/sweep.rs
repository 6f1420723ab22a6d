//! Running every core of a group for one tick, and picking an idle worker.

use vstd::prelude::*;
use arrayvec::ArrayVec;
use crate::request::{Request, RequestView};
use crate::worker_core::{schedule_spec, Core, CoreAction, CoreState, CoreView, Outcome};
use crate::outside::{counter_values, counters_slice_mut};

verus! {

/// The cores, flow locks, finished requests and per-core counts after a sweep.
pub ghost struct Sweep {
    pub cores: Seq<CoreView>,
    pub locks: Seq<usize>,
    pub finished: Seq<RequestView>,
    pub per_core: Seq<usize>,
}

/// One more finished request for core `id`.
pub open spec fn tally(per_core: Seq<usize>, id: usize) -> Seq<usize> {
    per_core.update(id as int, (per_core[id as int] + 1) as usize)
}

/// Runs the cores of `g` for tick `t`, first to last: each sees the locks the
/// previous one left; each request finished is appended to `finished` and
/// counted for the core that finished it.
pub open spec fn sweep(
    g: Seq<CoreView>,
    t: usize,
    locks: Seq<usize>,
    finished: Seq<RequestView>,
    per_core: Seq<usize>,
) -> Sweep
    decreases g.len(),
{
    if g.len() == 0 {
        Sweep { cores: Seq::empty(), locks, finished, per_core }
    } else {
        let s0 = sweep(g.drop_last(), t, locks, finished, per_core);
        let (c1, l1, o) = schedule_spec(g.last(), t, s0.locks);
        match o {
            Outcome::Finished(r) => Sweep {
                cores: s0.cores.push(c1),
                locks: l1,
                finished: s0.finished.push(r),
                per_core: tally(s0.per_core, g.last().id),
            },
            _ => Sweep { cores: s0.cores.push(c1), locks: l1, ..s0 },
        }
    }
}

/// In a sweep of `g` for tick `t`, every core that finishes a request has a
/// per-core count, that is an id below 16.
pub open spec fn finishers_counted(g: Seq<CoreView>, t: usize, locks: Seq<usize>) -> bool
    decreases g.len(),
{
    if g.len() == 0 {
        true
    } else {
        let l0 = sweep(g.drop_last(), t, locks, Seq::empty(), Seq::empty()).locks;
        &&& finishers_counted(g.drop_last(), t, locks)
        &&& schedule_spec(g.last(), t, l0).2 is Finished ==> g.last().id < 16
    }
}

/// What a sweep does to the cores and the locks does not depend on the
/// finished requests and counts it starts from.
pub proof fn lemma_sweep_locks_independent(
    g: Seq<CoreView>,
    t: usize,
    locks: Seq<usize>,
    fin: Seq<RequestView>,
    pc: Seq<usize>,
)
    ensures
        sweep(g, t, locks, fin, pc).locks == sweep(g, t, locks, Seq::empty(), Seq::empty()).locks,
        sweep(g, t, locks, fin, pc).cores == sweep(g, t, locks, Seq::empty(), Seq::empty()).cores,
    decreases g.len(),
{
    if g.len() > 0 {
        lemma_sweep_locks_independent(g.drop_last(), t, locks, fin, pc);
    }
}

/// The cores of a prefix of a sweep whose finishers are all counted have counted finishers too.
pub proof fn lemma_finishers_prefix(g: Seq<CoreView>, t: usize, locks: Seq<usize>, k: int)
    requires
        0 <= k <= g.len(),
        finishers_counted(g, t, locks),
    ensures
        finishers_counted(g.subrange(0, k), t, locks),
    decreases g.len(),
{
    if k < g.len() {
        assert(g.drop_last().subrange(0, k) =~= g.subrange(0, k));
        lemma_finishers_prefix(g.drop_last(), t, locks, k);
    } else {
        assert(g.subrange(0, k) =~= g);
    }
}

/// Adding core `i` to a prefix of a sweep keeps every finisher counted exactly
/// when core `i`, run after the cores before it, does not finish a request
/// without a count; a prefix with an uncounted finisher spoils the whole sweep.
proof fn lemma_finishers_step(
    g: Seq<CoreView>,
    i: int,
    t: usize,
    locks: Seq<usize>,
    fin: Seq<RequestView>,
    pc: Seq<usize>,
)
    requires
        0 <= i < g.len(),
        finishers_counted(g.subrange(0, i), t, locks),
    ensures
        ({
            let l0 = sweep(g.subrange(0, i), t, locks, fin, pc).locks;
            finishers_counted(g.subrange(0, i + 1), t, locks)
                <==> (schedule_spec(g[i], t, l0).2 is Finished ==> g[i].id < 16)
        }),
        !finishers_counted(g.subrange(0, i + 1), t, locks) ==> !finishers_counted(g, t, locks),
{
    let p = g.subrange(0, i + 1);
    assert(p.drop_last() =~= g.subrange(0, i));
    assert(p.last() == g[i]);
    lemma_sweep_locks_independent(g.subrange(0, i), t, locks, fin, pc);
    if finishers_counted(g, t, locks) {
        lemma_finishers_prefix(g, t, locks, i + 1);
    }
}

/// Looking at the workers `(last + k + 1) % n`, `(last + k + 2) % n`, ... up to
/// the one before `last + 1` again: the first idle one.
pub open spec fn rr_scan(g: Seq<CoreView>, last: int, k: nat) -> Option<int>
    decreases g.len() - k,
{
    if k >= g.len() {
        None
    } else {
        let idx = (last + k + 1) % (g.len() as int);
        if g[idx].idle { Some(idx) } else { rr_scan(g, last, k + 1) }
    }
}

/// Round robin: the first idle worker after `last`, wrapping around.
pub open spec fn rr_pick(g: Seq<CoreView>, last: int) -> Option<int> {
    rr_scan(g, last, 0)
}

/// The views of a sequence of cores.
pub open spec fn views(cs: Seq<Core>) -> Seq<CoreView> {
    cs.map_values(|c: Core| c@)
}

/// A picked worker is a valid index of an idle worker; no pick means no idle worker.
pub proof fn lemma_rr_scan(g: Seq<CoreView>, last: int, k: nat)
    requires
        0 <= last,
    ensures
        rr_scan(g, last, k) matches Some(idx) ==> 0 <= idx < g.len() && g[idx].idle,
        rr_scan(g, last, k) is None ==> forall|j: nat| k <= j < g.len() ==>
            !(#[trigger] g[(last + j + 1) % (g.len() as int)]).idle,
    decreases g.len() - k,
{
    if k < g.len() {
        lemma_rr_scan(g, last, k + 1);
        if rr_scan(g, last, k) is None {
            assert forall|j: nat| k <= j < g.len() implies
                !(#[trigger] g[(last + j + 1) % (g.len() as int)]).idle by {}
        }
    }
}

/// Picks the first idle worker after `last`, wrapping around (see [`rr_pick`]).
pub fn find_idle(cores: &Vec<Core>, last: usize) -> (res: Option<usize>)
    requires
        cores.len() > 0 ==> last < cores.len(),
    ensures
        match res {
            Some(idx) => rr_pick(views(cores@), last as int) == Some(idx as int),
            None => rr_pick(views(cores@), last as int) is None,
        },
        res matches Some(idx) ==> idx < cores.len() && cores@[idx as int]@.idle,
{
    let n = cores.len();
    let ghost g = views(cores@);
    proof {
        lemma_rr_scan(g, last as int, 0);
    }
    let mut i: usize = 0;
    while i < n
        invariant
            n == cores.len(),
            n > 0 ==> last < n,
            g == views(cores@),
            i <= n,
            rr_scan(g, last as int, 0) == rr_scan(g, last as int, i as nat),
        decreases n - i,
    {
        // (last + i + 1) % n, computed without overflow
        let idx: usize = if i < n - 1 - last { last + i + 1 } else { i - (n - 1 - last) };
        proof {
            assert(idx == (last + i + 1) % (n as int)) by {
                if i < n - 1 - last {
                    vstd::arithmetic::div_mod::lemma_small_mod((last + i + 1) as nat, n as nat);
                } else {
                    vstd::arithmetic::div_mod::lemma_mod_add_multiples_vanish(idx as int, n as int);
                    vstd::arithmetic::div_mod::lemma_small_mod(idx as nat, n as nat);
                }
            }
            lemma_rr_scan(g, last as int, i as nat);
        }
        if cores[idx].is_idle() {
            return Some(idx);
        }
        i = i + 1;
    }
    None
}

/// Every request a core holds has tick counters at most `t`.
pub open spec fn counters_at_most(c: CoreView, t: int) -> bool {
    &&& c.current matches Some(r) ==> r.counters_at_most(t)
    &&& forall|i: int| 0 <= i < c.local.len() ==> (#[trigger] c.local[i]).counters_at_most(t)
    &&& forall|i: int| 0 <= i < c.ready.len() ==> (#[trigger] c.ready[i]).counters_at_most(t)
}

/// Every request a core holds is on a flow below `n`.
pub open spec fn flows_below(c: CoreView, n: int) -> bool {
    &&& c.current matches Some(r) ==> r.flow_id < n
    &&& forall|i: int| 0 <= i < c.local.len() ==> (#[trigger] c.local[i]).flow_id < n
    &&& forall|i: int| 0 <= i < c.ready.len() ==> (#[trigger] c.ready[i]).flow_id < n
}

/// No request a core holds has started its network stack.
pub open spec fn stack_unstarted(c: CoreView) -> bool {
    &&& c.current matches Some(r) ==> r.p_completed == 0
    &&& forall|i: int| 0 <= i < c.local.len() ==> (#[trigger] c.local[i]).p_completed == 0
    &&& forall|i: int| 0 <= i < c.ready.len() ==> (#[trigger] c.ready[i]).p_completed == 0
}

/// The local queue after a tick: its first request leaves when the core was free to take it.
pub open spec fn local_after(c: CoreView) -> Seq<RequestView> {
    if c.current is None && c.local.len() > 0 { c.local.drop_first() } else { c.local }
}

/// What one tick does to a core's shape and to the counters of its requests.
pub proof fn lemma_schedule_effect(c: CoreView, t: usize, locks: Seq<usize>, nf: int)
    requires
        c.wf(),
        counters_at_most(c, t as int),
        t < usize::MAX,
        c.action is NetworkStackAndApplicationLock ==> (c.next_request() matches Some(r) ==> r.flow_id < locks.len()),
    ensures
        ({
            let (c1, l1, o) = schedule_spec(c, t, locks);
            &&& c1.wf()
            &&& c1.id == c.id
            &&& c1.action == c.action
            &&& c1.queue_size == c.queue_size
            &&& c1.ready == c.ready
            &&& c1.local == local_after(c)
            &&& counters_at_most(c1, t + 1)
            &&& (flows_below(c, nf) ==> flows_below(c1, nf))
            &&& l1.len() == locks.len()
            &&& (o matches Outcome::Finished(r) ==> {
                &&& r.counters_at_most(t + 1)
                &&& c.current matches Some(r0) && r.flow_id == r0.flow_id && r.id == r0.id
                &&& c1.current is None
            })
            &&& (o is Finished || o is Idle) <==> c1.idle
            &&& (c.action is Forward && stack_unstarted(c)) ==> {
                &&& stack_unstarted(c1)
                &&& o matches Outcome::Finished(r) ==> r.p_completed == 0
            }
        }),
{
    let (c1, l1, o) = schedule_spec(c, t, locks);
    match c.current {
        Some(r) => {
            assert(r.counters_at_most(t as int));
        },
        None => {
            if c.local.len() > 0 {
                assert(c.local[0].counters_at_most(t as int));
                if stack_unstarted(c) {
                    assert(c.local[0].p_completed == 0);
                    assert forall|i: int| 0 <= i < c1.local.len() implies (#[trigger] c1.local[i]).p_completed == 0 by {
                        assert(c1.local[i] == c.local[i + 1]);
                    }
                }
                assert forall|i: int| 0 <= i < c1.local.len() implies (#[trigger] c1.local[i]).counters_at_most(t + 1) by {
                    assert(c1.local[i] == c.local[i + 1]);
                }
                if flows_below(c, nf) {
                    assert(c.local[0].flow_id < nf);
                    assert forall|i: int| 0 <= i < c1.local.len() implies (#[trigger] c1.local[i]).flow_id < nf by {
                        assert(c1.local[i] == c.local[i + 1]);
                    }
                }
            }
        },
    }
}

/// One more finished request for core `id` in the per-core counts.
fn count_finish(per_core: &mut ArrayVec<usize, 16>, id: usize)
    requires
        id < counter_values(*old(per_core)).len(),
        counter_values(*old(per_core))[id as int] < usize::MAX,
    ensures
        counter_values(*final(per_core)) == tally(counter_values(*old(per_core)), id),
{
    let counts = counters_slice_mut(per_core);
    let v = counts[id];
    counts[id] = v + 1;
}

/// The per-core counts are 16 numbers, none above the number of finished requests.
pub open spec fn counts_bounded(per_core: Seq<usize>, nr_finished: int) -> bool {
    &&& per_core.len() == 16
    &&& forall|i: int| 0 <= i < per_core.len() ==> #[trigger] per_core[i] <= nr_finished
}

/// Runs one core for tick `t`; a request it finishes is appended to
/// `finished` and counted for the core. A core without a count (an id of 16
/// or more) that finishes a request is an error, which gives the core's id.
fn schedule_and_count(
    core: &mut Core,
    t: usize,
    locks: Option<&mut Vec<usize>>,
    finished: &mut Vec<Request>,
    per_core: &mut ArrayVec<usize, 16>,
) -> (out: Result<(), usize>)
    requires
        old(core)@.wf(),
        old(core)@.can_schedule(t, match locks { Some(l) => Some(l@), None => None }),
        counts_bounded(counter_values(*old(per_core)), old(finished)@.len() as int),
    ensures
        ({
            let (c1, l1, o) = schedule_spec(old(core)@, t, crate::worker_core::locks_view(locks));
            &&& final(core)@ == c1
            &&& locks matches Some(l) ==> final(l)@ == l1
            &&& out is Err <==> (o is Finished && old(core)@.id >= 16)
            &&& out matches Err(id) ==> id == old(core)@.id
            &&& out is Ok ==> match o {
                Outcome::Finished(r) => {
                    &&& views_of_requests(final(finished)@) == views_of_requests(old(finished)@).push(r)
                    &&& counter_values(*final(per_core)) == tally(counter_values(*old(per_core)), old(core)@.id)
                },
                _ => {
                    &&& final(finished)@ == old(finished)@
                    &&& counter_values(*final(per_core)) == counter_values(*old(per_core))
                },
            }
        }),
        final(core)@.wf(),
        out is Ok ==> counts_bounded(counter_values(*final(per_core)), final(finished)@.len() as int),
{
    let id = core.get_id();
    match core.schedule(t, locks) {
        CoreState::Finished(req) => {
            if id >= 16 {
                return Err(id);
            }
            let ghost r = req@;
            finished.push(req);
            // The finished list's length is a `usize`, and every count is below it.
            let nr_finished = finished.len();
            proof {
                assert(views_of_requests(finished@) =~= views_of_requests(old(finished)@).push(r));
                assert(counter_values(*per_core)[id as int] < nr_finished);
            }
            count_finish(per_core, id);
            Ok(())
        },
        CoreState::Running => Ok(()),
        CoreState::Idle => Ok(()),
    }
}

/// The views of a sequence of requests.
pub open spec fn views_of_requests(q: Seq<Request>) -> Seq<RequestView> {
    q.map_values(|r: Request| r@)
}

/// `c1` is what a tick at `t` made of core `c`: the same core, with its
/// requests' counters at most `t + 1` and its first waiting request taken
/// when it was free; requests on flows below `nf` stay so.
pub open spec fn core_after(c: CoreView, c1: CoreView, t: int, nf: int) -> bool {
    &&& c1.wf()
    &&& c1.id == c.id
    &&& c1.action == c.action
    &&& c1.queue_size == c.queue_size
    &&& c1.ready == c.ready
    &&& c1.local == local_after(c)
    &&& counters_at_most(c1, t + 1)
    &&& (flows_below(c, nf) ==> flows_below(c1, nf))
}

/// A core that a sweep at `t` may run: consistent, with requests whose counters
/// are at most `t`.
pub open spec fn sweepable(c: CoreView, t: int) -> bool {
    &&& c.wf()
    &&& counters_at_most(c, t)
}

/// A sweep of the empty prefix changes nothing; one more core extends it by one tick of that core.
proof fn lemma_sweep_extend(g: Seq<CoreView>, i: int, t: usize, locks: Seq<usize>, fin: Seq<RequestView>, pc: Seq<usize>)
    requires
        0 <= i < g.len(),
    ensures
        ({
            let s0 = sweep(g.subrange(0, i), t, locks, fin, pc);
            let s1 = sweep(g.subrange(0, i + 1), t, locks, fin, pc);
            let (c1, l1, o) = schedule_spec(g[i], t, s0.locks);
            &&& s1.cores == s0.cores.push(c1)
            &&& s1.locks == l1
            &&& s1.finished == (match o { Outcome::Finished(r) => s0.finished.push(r), _ => s0.finished })
            &&& s1.per_core == (match o { Outcome::Finished(r) => tally(s0.per_core, g[i].id), _ => s0.per_core })
        }),
{
    assert(g.subrange(0, i + 1).drop_last() =~= g.subrange(0, i));
    assert(g.subrange(0, i + 1).last() == g[i]);
}

/// The actions whose cores never use the flow locks.
pub open spec fn lock_free_action(a: CoreAction) -> bool {
    !(a is NetworkStackAndApplicationLock)
}

/// A core whose action takes no lock leaves the locks as they are.
proof fn lemma_no_lock_change(c: CoreView, t: usize, locks: Seq<usize>)
    requires
        lock_free_action(c.action),
    ensures
        schedule_spec(c, t, locks).1 == locks,
{
}

/// Runs every core of `cores`, none of which uses the flow locks, for tick `t`,
/// first to last (see [`sweep`]); each must do `action`. It stops with an
/// error, giving the core's id, at the first core without a count that
/// finishes a request.
pub(crate) fn sweep_plain(
    cores: &mut Vec<Core>,
    action: CoreAction,
    t: usize,
    finished: &mut Vec<Request>,
    per_core: &mut ArrayVec<usize, 16>,
) -> (res: Result<(), usize>)
    requires
        lock_free_action(action),
        t < usize::MAX,
        forall|j: int| 0 <= j < old(cores)@.len() ==> sweepable(#[trigger] views(old(cores)@)[j], t as int),
        forall|j: int| 0 <= j < old(cores)@.len() ==> (#[trigger] views(old(cores)@)[j]).action == action,
        counts_bounded(counter_values(*old(per_core)), old(finished)@.len() as int),
    ensures
        res is Ok <==> finishers_counted(views(old(cores)@), t, Seq::empty()),
        res matches Err(id) ==> id >= 16,
        res is Ok ==> {
            let s = sweep(views(old(cores)@), t, Seq::empty(), views_of_requests(old(finished)@), counter_values(*old(per_core)));
            &&& views(final(cores)@) == s.cores
            &&& views_of_requests(final(finished)@) == s.finished
            &&& counter_values(*final(per_core)) == s.per_core
        },
        final(cores)@.len() == old(cores)@.len(),
        res is Ok ==> forall|j: int, nf: int| 0 <= j < old(cores)@.len() ==>
            #[trigger] core_after(views(old(cores)@)[j], views(final(cores)@)[j], t as int, nf),
        res is Ok ==> counts_bounded(counter_values(*final(per_core)), final(finished)@.len() as int),
{
    let ghost g = views(cores@);
    let ghost fin0 = views_of_requests(finished@);
    let ghost pc0 = counter_values(*per_core);
    let n = cores.len();
    let mut i: usize = 0;
    while i < n
        invariant
            n == cores@.len() == g.len(),
            g == views(old(cores)@),
            i <= n,
            lock_free_action(action),
            t < usize::MAX,
            forall|j: int| 0 <= j < n ==> sweepable(#[trigger] g[j], t as int),
            forall|j: int| 0 <= j < n ==> (#[trigger] g[j]).action == action,
            forall|j: int| i <= j < n ==> #[trigger] views(cores@)[j] == g[j],
            forall|j: int, nf: int| 0 <= j < i ==> #[trigger] core_after(g[j], views(cores@)[j], t as int, nf),
            finishers_counted(g.subrange(0, i as int), t, Seq::empty()),
            ({
                let s = sweep(g.subrange(0, i as int), t, Seq::empty(), fin0, pc0);
                &&& views(cores@).subrange(0, i as int) == s.cores
                &&& views_of_requests(finished@) == s.finished
                &&& counter_values(*per_core) == s.per_core
                &&& s.locks == Seq::<usize>::empty()
            }),
            counts_bounded(counter_values(*per_core), finished@.len() as int),
        decreases n - i,
    {
        let ghost before = views(cores@);
        let ghost s0 = sweep(g.subrange(0, i as int), t, Seq::empty(), fin0, pc0);
        proof {
            assert(before[i as int] == g[i as int]);
            assert(sweepable(g[i as int], t as int));
            lemma_schedule_effect(g[i as int], t, Seq::empty(), 0);
            lemma_no_lock_change(g[i as int], t, Seq::empty());
            lemma_sweep_extend(g, i as int, t, Seq::empty(), fin0, pc0);
            lemma_finishers_step(g, i as int, t, Seq::empty(), fin0, pc0);
        }
        if *cores[i].get_action() == action {
            let r = schedule_and_count(&mut cores[i], t, None, finished, per_core);
            if let Err(id) = r {
                proof {
                    assert(s0.locks == Seq::<usize>::empty());
                    assert(!finishers_counted(g.subrange(0, i + 1), t, Seq::empty()));
                    assert(cores@.len() == n);
                }
                return Err(id);
            }
        } else {
            proof {
                assert(false);
            }
        }
        proof {
            let c1 = schedule_spec(g[i as int], t, Seq::empty()).0;
            assert(views(cores@) =~= before.update(i as int, c1));
            assert forall|j: int, nf: int| 0 <= j < i + 1 implies #[trigger] core_after(g[j], views(cores@)[j], t as int, nf) by {
                if j == i as int {
                    lemma_schedule_effect(g[i as int], t, Seq::empty(), nf);
                }
            }
            assert(views(cores@).subrange(0, i + 1) =~= before.subrange(0, i as int).push(c1));
        }
        i = i + 1;
    }
    proof {
        assert(g.subrange(0, n as int) =~= g);
        assert(views(cores@).subrange(0, n as int) =~= views(cores@));
    }
    Ok(())
}

/// The locked workers of layout 1: worker `i` has id `i + 1`; a flow's lock,
/// when taken, is held by the worker whose request of that flow has started
/// its network stack; such a worker holds the lock of its request's flow; and
/// requests still waiting in a worker's queue have not started it.
pub open spec fn locks_consistent(ws: Seq<CoreView>, locks: Seq<usize>) -> bool {
    &&& ws.len() < usize::MAX
    &&& forall|i: int| 0 <= i < ws.len() ==> (#[trigger] ws[i]).id == i + 1
    &&& forall|f: int| 0 <= f < locks.len() && #[trigger] locks[f] != usize::MAX ==> {
        &&& 1 <= locks[f] <= ws.len()
        &&& ws[locks[f] - 1].current matches Some(r) && r.flow_id == f && r.p_completed > 0
    }
    &&& forall|i: int| 0 <= i < ws.len() ==> ((#[trigger] ws[i]).current matches Some(r) ==> (r.p_completed > 0 ==> {
        &&& r.flow_id < locks.len()
        &&& locks[r.flow_id as int] == ws[i].id
    }))
    &&& forall|i: int, k: int| 0 <= i < ws.len() && 0 <= k < ws[i].local.len() ==> (#[trigger] ws[i].local[k]).p_completed == 0
}

/// A tick of locked worker `i` keeps the workers and locks consistent.
proof fn lemma_lock_step(ws: Seq<CoreView>, locks: Seq<usize>, i: int, t: usize)
    requires
        locks_consistent(ws, locks),
        0 <= i < ws.len(),
        ws[i].action is NetworkStackAndApplicationLock,
        ws[i].wf(),
        flows_below(ws[i], locks.len() as int),
        counters_at_most(ws[i], t as int),
        t < usize::MAX,
    ensures
        ({
            let (c1, l1, o) = schedule_spec(ws[i], t, locks);
            locks_consistent(ws.update(i, c1), l1)
        }),
{
    let c = ws[i];
    let (c1, l1, o) = schedule_spec(c, t, locks);
    let ws1 = ws.update(i, c1);
    assert(c1.id == c.id);
    assert(c1.local == local_after(c));
    assert forall|j: int| 0 <= j < ws1.len() implies (#[trigger] ws1[j]).id == j + 1 by {}
    assert forall|j: int, k: int| 0 <= j < ws1.len() && 0 <= k < ws1[j].local.len() implies
        (#[trigger] ws1[j].local[k]).p_completed == 0 by {
        if j == i && c.current is None && c.local.len() > 0 {
            assert(ws1[j].local[k] == c.local[k + 1]);
        }
    }
    match c.current {
        Some(r) => {
            let f = r.flow_id as int;
            assert(f < locks.len());
            assert(ws[i] == c);
            if locks[f] == usize::MAX {
                assert(c.id == i + 1);
                assert(r.p_completed == 0);
                assert forall|g: int| 0 <= g < l1.len() && #[trigger] l1[g] != usize::MAX implies {
                    &&& 1 <= l1[g] <= ws1.len()
                    &&& ws1[l1[g] - 1].current matches Some(r) && r.flow_id == g && r.p_completed > 0
                } by {
                    if g != f {
                        assert(locks[g] != usize::MAX);
                        assert(locks[g] - 1 != i);
                    }
                }
                assert forall|j: int| 0 <= j < ws1.len() implies ((#[trigger] ws1[j]).current matches Some(r) ==> (r.p_completed > 0 ==> {
                    &&& r.flow_id < l1.len()
                    &&& l1[r.flow_id as int] == ws1[j].id
                })) by {
                    if j != i {
                        assert(ws1[j] == ws[j]);
                        if let Some(rj) = ws[j].current {
                            if rj.p_completed > 0 {
                                assert(locks[rj.flow_id as int] == ws[j].id);
                            }
                        }
                    }
                }
            } else if locks[f] == c.id {
                assert forall|g: int| 0 <= g < l1.len() && #[trigger] l1[g] != usize::MAX implies {
                    &&& 1 <= l1[g] <= ws1.len()
                    &&& ws1[l1[g] - 1].current matches Some(r) && r.flow_id == g && r.p_completed > 0
                } by {
                    if g != f {
                        assert(locks[g] != usize::MAX);
                        if locks[g] - 1 == i {
                            assert(ws[i].current matches Some(r2) && r2.flow_id == g);
                        }
                    } else {
                        assert(locks[f] != usize::MAX);
                        assert(c.id == i + 1);
                        assert(locks[f] - 1 == i);
                        assert(r.p_completed > 0);
                        assert(r.counters_at_most(t as int));
                        assert(ws1[i] == c1);
                        let (r1, done) = crate::worker_core::stack_then_app(r, t);
                        assert(r1.flow_id == r.flow_id && r1.p_completed >= r.p_completed);
                        if done {
                            assert(l1 == locks.update(f, usize::MAX));
                        } else {
                            assert(l1 == locks);
                            assert(c1.current == Some(r1));
                        }
                    }
                }
                assert forall|j: int| 0 <= j < ws1.len() implies ((#[trigger] ws1[j]).current matches Some(r) ==> (r.p_completed > 0 ==> {
                    &&& r.flow_id < l1.len()
                    &&& l1[r.flow_id as int] == ws1[j].id
                })) by {
                    if j != i {
                        assert(ws1[j] == ws[j]);
                        if let Some(rj) = ws[j].current {
                            if rj.p_completed > 0 {
                                assert(locks[rj.flow_id as int] == ws[j].id);
                                assert(ws[j].id != c.id);
                            }
                        }
                    }
                }
            } else {
                assert(r.p_completed == 0);
                assert forall|g: int| 0 <= g < l1.len() && #[trigger] l1[g] != usize::MAX implies {
                    &&& 1 <= l1[g] <= ws1.len()
                    &&& ws1[l1[g] - 1].current matches Some(r) && r.flow_id == g && r.p_completed > 0
                } by {
                    if locks[g] - 1 == i {
                        assert(ws[i].current matches Some(r2) && r2.flow_id == g && r2.p_completed > 0);
                    }
                }
                assert forall|j: int| 0 <= j < ws1.len() implies ((#[trigger] ws1[j]).current matches Some(r) ==> (r.p_completed > 0 ==> {
                    &&& r.flow_id < l1.len()
                    &&& l1[r.flow_id as int] == ws1[j].id
                })) by {
                    if j != i {
                        assert(ws1[j] == ws[j]);
                    }
                }
            }
        },
        None => {
            if c.local.len() > 0 {
                let r = c.local[0];
                let f = r.flow_id as int;
                assert(ws[i].local[0].p_completed == 0);
                assert(r.p_completed == 0);
                assert(f < locks.len());
                assert forall|g: int| 0 <= g < l1.len() && #[trigger] l1[g] != usize::MAX implies {
                    &&& 1 <= l1[g] <= ws1.len()
                    &&& ws1[l1[g] - 1].current matches Some(r) && r.flow_id == g && r.p_completed > 0
                } by {
                    if g != f || locks[f] != usize::MAX {
                        assert(locks[g] != usize::MAX);
                        assert(locks[g] - 1 != i);
                    }
                }
                assert forall|j: int| 0 <= j < ws1.len() implies ((#[trigger] ws1[j]).current matches Some(r) ==> (r.p_completed > 0 ==> {
                    &&& r.flow_id < l1.len()
                    &&& l1[r.flow_id as int] == ws1[j].id
                })) by {
                    if j != i {
                        assert(ws1[j] == ws[j]);
                        if let Some(rj) = ws[j].current {
                            if rj.p_completed > 0 {
                                assert(locks[rj.flow_id as int] == ws[j].id);
                            }
                        }
                    } else {
                        assert(ws1[j] == c1);
                        if locks[f] == usize::MAX {
                            assert(l1[f] == c.id);
                        } else {
                            assert(c1.current == Some(r));
                        }
                    }
                }
            } else {
                assert forall|g: int| 0 <= g < l1.len() && #[trigger] l1[g] != usize::MAX implies {
                    &&& 1 <= l1[g] <= ws1.len()
                    &&& ws1[l1[g] - 1].current matches Some(r) && r.flow_id == g && r.p_completed > 0
                } by {
                    assert(locks[g] - 1 != i);
                }
                assert forall|j: int| 0 <= j < ws1.len() implies ((#[trigger] ws1[j]).current matches Some(r) ==> (r.p_completed > 0 ==> {
                    &&& r.flow_id < l1.len()
                    &&& l1[r.flow_id as int] == ws1[j].id
                })) by {
                    if j != i {
                        assert(ws1[j] == ws[j]);
                    }
                }
            }
        },
    }
}

/// Runs the locked workers of layout 1 for tick `t`, first to last, each
/// seeing the flow locks the previous one left (see [`sweep`]). It stops with
/// an error, giving the core's id, at the first core without a count that
/// finishes a request.
pub(crate) fn sweep_locked(
    cores: &mut Vec<Core>,
    locks: &mut Vec<usize>,
    t: usize,
    finished: &mut Vec<Request>,
    per_core: &mut ArrayVec<usize, 16>,
) -> (res: Result<(), usize>)
    requires
        t < usize::MAX,
        forall|j: int| 0 <= j < old(cores)@.len() ==> sweepable(#[trigger] views(old(cores)@)[j], t as int),
        forall|j: int| 0 <= j < old(cores)@.len() ==>
            (#[trigger] views(old(cores)@)[j]).action is NetworkStackAndApplicationLock,
        forall|j: int| 0 <= j < old(cores)@.len() ==> flows_below(#[trigger] views(old(cores)@)[j], old(locks)@.len() as int),
        locks_consistent(views(old(cores)@), old(locks)@),
        counts_bounded(counter_values(*old(per_core)), old(finished)@.len() as int),
    ensures
        res is Ok <==> finishers_counted(views(old(cores)@), t, old(locks)@),
        res matches Err(id) ==> id >= 16,
        res is Ok ==> {
            let s = sweep(views(old(cores)@), t, old(locks)@, views_of_requests(old(finished)@), counter_values(*old(per_core)));
            &&& views(final(cores)@) == s.cores
            &&& final(locks)@ == s.locks
            &&& views_of_requests(final(finished)@) == s.finished
            &&& counter_values(*final(per_core)) == s.per_core
        },
        final(cores)@.len() == old(cores)@.len(),
        final(locks)@.len() == old(locks)@.len(),
        res is Ok ==> forall|j: int, nf: int| 0 <= j < old(cores)@.len() ==>
            #[trigger] core_after(views(old(cores)@)[j], views(final(cores)@)[j], t as int, nf),
        res is Ok ==> locks_consistent(views(final(cores)@), final(locks)@),
        res is Ok ==> counts_bounded(counter_values(*final(per_core)), final(finished)@.len() as int),
{
    let ghost g = views(cores@);
    let ghost fin0 = views_of_requests(finished@);
    let ghost pc0 = counter_values(*per_core);
    let ghost l0 = locks@;
    let n = cores.len();
    let mut i: usize = 0;
    while i < n
        invariant
            n == cores@.len() == g.len(),
            g == views(old(cores)@),
            l0 == old(locks)@,
            i <= n,
            t < usize::MAX,
            locks@.len() == l0.len(),
            finishers_counted(g.subrange(0, i as int), t, l0),
            forall|j: int| 0 <= j < n ==> sweepable(#[trigger] g[j], t as int),
            forall|j: int| 0 <= j < n ==> (#[trigger] g[j]).action is NetworkStackAndApplicationLock,
            forall|j: int| 0 <= j < n ==> flows_below(#[trigger] g[j], l0.len() as int),
            forall|j: int| i <= j < n ==> #[trigger] views(cores@)[j] == g[j],
            forall|j: int, nf: int| 0 <= j < i ==> #[trigger] core_after(g[j], views(cores@)[j], t as int, nf),
            locks_consistent(views(cores@), locks@),
            ({
                let s = sweep(g.subrange(0, i as int), t, l0, fin0, pc0);
                &&& views(cores@).subrange(0, i as int) == s.cores
                &&& views_of_requests(finished@) == s.finished
                &&& counter_values(*per_core) == s.per_core
                &&& s.locks == locks@
            }),
            counts_bounded(counter_values(*per_core), finished@.len() as int),
        decreases n - i,
    {
        let ghost before = views(cores@);
        let ghost lb = locks@;
        proof {
            assert(before[i as int] == g[i as int]);
            assert(sweepable(g[i as int], t as int));
            assert(flows_below(g[i as int], l0.len() as int));
            lemma_schedule_effect(g[i as int], t, lb, 0);
            lemma_lock_step(before, lb, i as int, t);
            lemma_sweep_extend(g, i as int, t, l0, fin0, pc0);
            lemma_finishers_step(g, i as int, t, l0, fin0, pc0);
        }
        match cores[i].get_action() {
            CoreAction::NetworkStackAndApplicationLock => {
                let r = schedule_and_count(&mut cores[i], t, Some(&mut *locks), finished, per_core);
                if let Err(id) = r {
                    proof {
                        assert(!finishers_counted(g.subrange(0, i + 1), t, l0));
                        assert(cores@.len() == n);
                    }
                    return Err(id);
                }
            },
            _ => {
                proof {
                    assert(false);
                }
            },
        }
        proof {
            let c1 = schedule_spec(g[i as int], t, lb).0;
            assert(views(cores@) =~= before.update(i as int, c1));
            assert forall|j: int, nf: int| 0 <= j < i + 1 implies #[trigger] core_after(g[j], views(cores@)[j], t as int, nf) by {
                if j == i as int {
                    lemma_schedule_effect(g[i as int], t, lb, nf);
                }
            }
            assert(views(cores@).subrange(0, i + 1) =~= before.subrange(0, i as int).push(c1));
        }
        i = i + 1;
    }
    proof {
        assert(g.subrange(0, n as int) =~= g);
        assert(views(cores@).subrange(0, n as int) =~= views(cores@));
    }
    Ok(())
}

} // verus!
