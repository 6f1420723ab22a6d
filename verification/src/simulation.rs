//! The simulated server: how its cores are laid out, building it, one tick
//! of the whole machine, and a whole run.

use std::collections::{HashMap, VecDeque};
use vstd::prelude::*;
use arrayvec::ArrayVec;
use crate::request::{Request, RequestView};
use crate::worker_core::{Core, CoreAction, CoreView};
use crate::outside::{counter_values, new_counters, push_counter, FlowRng};
use crate::config::{
    generate_packets, planned_packets, sorted_by_arrival, ConfigError, SimConfig, FORWARD_TIME, NR_COUNTED_CORES,
};
use crate::sweep::{counters_at_most, finishers_counted, flows_below, locks_consistent, stack_unstarted, sweep};
use crate::dispatch::{
    dropped_in_stack, enqueued, forward_dispatch, lemma_forward_dispatch_ok, lemma_stack_dispatch_ok,
    same_except, stack_and_dispatch, forward_and_dispatch, stack_dispatch, swept_worker,
};
use crate::sweep::{core_after, counts_bounded, sweep_locked, sweep_plain, sweepable, views, views_of_requests};
use crate::conservation::{all_ids, law_requests_conserved};
use crate::counting::{law_counts_add_up, total};
use crate::outcomes::{law_outcomes_recorded, outcomes_recorded};

verus! {

/// How the server's cores are laid out.
pub enum Layout {
    /// A forwarding core that hands each request to an idle worker; the workers
    /// run stack and application under per-flow locks (the third field).
    Layout1(Core, Vec<Core>, Vec<usize>),
    /// Workers that each receive from the NIC and run stack and application.
    Layout2(Vec<Core>),
    /// One network-stack core that hands requests on to application cores.
    Layout3(Core, Vec<Core>),
    /// Network-stack cores, each with its own group of application cores
    /// (group `k` belongs to network-stack core `k`).
    Layout4(Vec<Core>, Vec<Vec<Core>>),
}

/// The abstract form of a [`Layout`].
pub ghost enum LayoutView {
    Layout1(CoreView, Seq<CoreView>, Seq<usize>),
    Layout2(Seq<CoreView>),
    Layout3(CoreView, Seq<CoreView>),
    Layout4(Seq<CoreView>, Seq<Seq<CoreView>>),
}

/// The views of a sequence of groups of cores.
pub open spec fn groups_view(gs: Seq<Vec<Core>>) -> Seq<Seq<CoreView>> {
    gs.map_values(|g: Vec<Core>| views(g@))
}

impl View for Layout {
    type V = LayoutView;

    open spec fn view(&self) -> LayoutView {
        match self {
            Layout::Layout1(f, ws, locks) => LayoutView::Layout1(f@, views(ws@), locks@),
            Layout::Layout2(ws) => LayoutView::Layout2(views(ws@)),
            Layout::Layout3(n, apps) => LayoutView::Layout3(n@, views(apps@)),
            Layout::Layout4(ns, groups) => LayoutView::Layout4(views(ns@), groups_view(groups@)),
        }
    }
}

/// `n` fresh cores with ids `first_id`, `first_id + 1`, ...
pub open spec fn fresh_cores(n: nat, first_id: int, action: CoreAction, queue_size: usize) -> Seq<CoreView> {
    Seq::new(n, |i: int| CoreView::fresh((first_id + i) as usize, action, queue_size))
}

/// The application cores of layout 4 that belong to network-stack core `k`
/// when there are `nn` network-stack and `na` application cores: those with
/// ids `nn + i` for the `i < na` with `i % nn == k`, in increasing order.
pub open spec fn app_group(g: Seq<CoreView>, nn: int, na: int, k: int, queue_size: usize) -> bool {
    &&& forall|j: int| 0 <= j < g.len() ==>
            #[trigger] g[j] == CoreView::fresh((nn + k + j * nn) as usize, CoreAction::Application, queue_size)
    &&& k + g.len() * nn >= na
    &&& g.len() > 0 ==> k + (g.len() - 1) * nn < na
}

impl SimConfig {
    /// The cores of a newly built server.
    pub open spec fn initial_layout(self, layout: LayoutView) -> bool {
        let qs = self.queue_size;
        if self.layout == 1 {
            layout == LayoutView::Layout1(
                CoreView::fresh(0, CoreAction::Forward, qs),
                fresh_cores(self.nr_worker_cores as nat, 1, CoreAction::NetworkStackAndApplicationLock, qs),
                Seq::new(self.nr_flows as nat, |i: int| usize::MAX),
            )
        } else if self.layout == 2 {
            layout == LayoutView::Layout2(
                fresh_cores(self.nr_worker_cores as nat, 0, CoreAction::NetworkStackAndApplication, qs),
            )
        } else if self.layout == 3 {
            layout == LayoutView::Layout3(
                CoreView::fresh(0, CoreAction::NetworkStack, qs),
                fresh_cores(self.nr_application_cores as nat, 1, CoreAction::Application, qs),
            )
        } else {
            &&& layout matches LayoutView::Layout4(ns, gs)
            &&& ns == fresh_cores(self.nr_network_cores as nat, 0, CoreAction::NetworkStack, qs)
            &&& gs.len() == self.nr_network_cores
            &&& forall|k: int| 0 <= k < gs.len() ==> app_group(
                #[trigger] gs[k],
                self.nr_network_cores as int,
                self.nr_application_cores as int,
                k,
                qs,
            )
        }
    }

    /// Which worker each dispatching core handed a request to last: 0 to begin with.
    pub open spec fn initial_last_workers(self) -> Map<usize, usize> {
        if self.layout == 1 || self.layout == 3 {
            map![0usize => 0usize]
        } else if self.layout == 4 {
            Map::new(|k: usize| k < self.nr_network_cores, |k: usize| 0usize)
        } else {
            Map::empty()
        }
    }
}

/// Appending a core appends its view.
proof fn lemma_cores_view_push(s: Seq<Core>, c: Core)
    ensures
        views(s.push(c)) == views(s).push(c@),
{
    assert(views(s.push(c)) =~= views(s).push(c@));
}

/// Builds the cores of the layout the configuration names, and the record of
/// the last worker each dispatching core used.
fn build_layout(cfg: &SimConfig) -> (res: Result<(Layout, HashMap<usize, usize>), ConfigError>)
    requires
        cfg.buildable(),
    ensures
        match res {
            Err(e) => cfg.layout_error() == Some(e),
            Ok((layout, last)) => {
                &&& cfg.layout_error() is None
                &&& cfg.initial_layout(layout@)
                &&& last@ == cfg.initial_last_workers()
            },
        },
{
    broadcast use vstd::std_specs::hash::group_hash_axioms;
    let qs = cfg.queue_size;
    let mut last_workers_idx: HashMap<usize, usize> = HashMap::new();
    if cfg.layout == 1 {
        let nr_worker_cores = cfg.nr_worker_cores;
        if nr_worker_cores + 1 > cfg.nr_total_cores {
            return Err(ConfigError::CoreCount);
        }
        let forwarder = Core::new(0, CoreAction::Forward, qs);
        let mut arr: Vec<Core> = Vec::with_capacity(nr_worker_cores);
        let mut i: usize = 0;
        while i < nr_worker_cores
            invariant
                i <= nr_worker_cores < usize::MAX,
                views(arr@) =~= fresh_cores(i as nat, 1, CoreAction::NetworkStackAndApplicationLock, qs),
            decreases nr_worker_cores - i,
        {
            let ghost prev = arr@;
            arr.push(Core::new(i + 1, CoreAction::NetworkStackAndApplicationLock, qs));
            proof { lemma_cores_view_push(prev, arr@.last()); assert(arr@ == prev.push(arr@.last())); }
            i = i + 1;
        }
        last_workers_idx.insert(forwarder.get_id(), 0);
        let nr_flows = cfg.nr_flows;
        let mut locks: Vec<usize> = Vec::with_capacity(nr_flows as usize);
        let mut f: u64 = 0;
        while f < nr_flows
            invariant
                f <= nr_flows,
                locks@ =~= Seq::new(f as nat, |i: int| usize::MAX),
            decreases nr_flows - f,
        {
            locks.push(usize::MAX);
            f = f + 1;
        }
        assert(last_workers_idx@ =~= cfg.initial_last_workers());
        Ok((Layout::Layout1(forwarder, arr, locks), last_workers_idx))
    } else if cfg.layout == 2 {
        let nr_worker_cores = cfg.nr_worker_cores;
        if nr_worker_cores > cfg.nr_total_cores {
            return Err(ConfigError::CoreCount);
        }
        let mut arr: Vec<Core> = Vec::with_capacity(nr_worker_cores);
        let mut i: usize = 0;
        while i < nr_worker_cores
            invariant
                i <= nr_worker_cores,
                views(arr@) =~= fresh_cores(i as nat, 0, CoreAction::NetworkStackAndApplication, qs),
            decreases nr_worker_cores - i,
        {
            let ghost prev = arr@;
            arr.push(Core::new(i, CoreAction::NetworkStackAndApplication, qs));
            proof { lemma_cores_view_push(prev, arr@.last()); assert(arr@ == prev.push(arr@.last())); }
            i = i + 1;
        }
        assert(last_workers_idx@ =~= cfg.initial_last_workers());
        Ok((Layout::Layout2(arr), last_workers_idx))
    } else if cfg.layout == 3 {
        let nr_application_cores = cfg.nr_application_cores;
        if nr_application_cores + 1 > cfg.nr_total_cores {
            return Err(ConfigError::CoreCount);
        }
        let network_core = Core::new(0, CoreAction::NetworkStack, qs);
        let mut arr: Vec<Core> = Vec::with_capacity(nr_application_cores);
        let mut i: usize = 0;
        while i < nr_application_cores
            invariant
                i <= nr_application_cores < usize::MAX,
                views(arr@) =~= fresh_cores(i as nat, 1, CoreAction::Application, qs),
            decreases nr_application_cores - i,
        {
            let ghost prev = arr@;
            arr.push(Core::new(i + 1, CoreAction::Application, qs));
            proof { lemma_cores_view_push(prev, arr@.last()); assert(arr@ == prev.push(arr@.last())); }
            i = i + 1;
        }
        last_workers_idx.insert(network_core.get_id(), 0);
        assert(last_workers_idx@ =~= cfg.initial_last_workers());
        Ok((Layout::Layout3(network_core, arr), last_workers_idx))
    } else if cfg.layout == 4 {
        let nr_network_cores = cfg.nr_network_cores;
        let nr_application_cores = cfg.nr_application_cores;
        if nr_network_cores + nr_application_cores > cfg.nr_total_cores {
            return Err(ConfigError::CoreCount);
        }
        if nr_application_cores < nr_network_cores {
            return Err(ConfigError::TooFewApplicationCores);
        }
        let nn = nr_network_cores;
        let na = nr_application_cores;
        let mut arr: Vec<Core> = Vec::with_capacity(nn);
        let mut groups: Vec<Vec<Core>> = Vec::new();
        let mut k: usize = 0;
        while k < nn
            invariant
                k <= nn,
                nn + na <= usize::MAX,
                na >= nn,
                views(arr@) =~= fresh_cores(k as nat, 0, CoreAction::NetworkStack, qs),
                groups@.len() == k,
                forall|g: int| 0 <= g < k ==> app_group(#[trigger] groups_view(groups@)[g], nn as int, na as int, g, qs),
                last_workers_idx@ =~= Map::new(|x: usize| x < k, |x: usize| 0usize),
            decreases nn - k,
        {
            let ghost prev = arr@;
            arr.push(Core::new(k, CoreAction::NetworkStack, qs));
            proof { lemma_cores_view_push(prev, arr@.last()); assert(arr@ == prev.push(arr@.last())); }
            let mut group: Vec<Core> = Vec::new();
            let mut core_id: usize = nn + k;
            let mut more: bool = k < na;
            let mut j: usize = 0;
            while more
                invariant
                    k < nn,
                    nn + na <= usize::MAX,
                    j <= na,
                    more ==> core_id == nn + k + j * nn,
                    more ==> core_id < nn + na,
                    !more ==> k + j * nn >= na,
                    forall|x: int| 0 <= x < j ==>
                        #[trigger] views(group@)[x]
                            == CoreView::fresh((nn + k + x * nn) as usize, CoreAction::Application, qs),
                    group@.len() == j,
                    j > 0 ==> k + (j - 1) * nn < na,
                decreases na - j + (if more { 1int } else { 0int }),
            {
                let ghost prev = group@;
                group.push(Core::new(core_id, CoreAction::Application, qs));
                proof {
                    lemma_cores_view_push(prev, group@.last());
                    assert(group@ == prev.push(group@.last()));
                    assert(j * nn >= j) by (nonlinear_arith) requires nn >= 1, j >= 0;
                    assert(nn + k + (j + 1) * nn == core_id + nn) by (nonlinear_arith)
                        requires core_id == nn + k + j * nn;
                }
                if nn + na - core_id > nn {
                    core_id = core_id + nn;
                } else {
                    more = false;
                }
                j = j + 1;
            }
            assert(app_group(views(group@), nn as int, na as int, k as int, qs));
            let ghost gv = views(group@);
            let ghost prev_groups = groups@;
            groups.push(group);
            last_workers_idx.insert(k, 0);
            proof {
                assert forall|g: int| 0 <= g < k + 1 implies
                    app_group(#[trigger] groups_view(groups@)[g], nn as int, na as int, g, qs) by {
                    assert(groups_view(groups@)[g] == views(groups@[g]@));
                    if g < k {
                        assert(groups@[g] == prev_groups[g]);
                        assert(groups_view(prev_groups)[g] == views(prev_groups[g]@));
                    } else {
                        assert(views(groups@[g]@) == gv);
                    }
                }
            }
            k = k + 1;
        }
        assert(groups_view(groups@).len() == nn);
        Ok((Layout::Layout4(arr, groups), last_workers_idx))
    } else {
        Err(ConfigError::UnknownLayout)
    }
}

/// The whole simulation: the NIC's indirection table, the cores, the clock,
/// the requests still to arrive, and those finished or dropped so far.
pub struct Simulation {
    nr_indirection_table_entries: usize,
    indirection_table: HashMap<usize, usize>,
    layout: Layout,
    t_cur: usize,
    t_duration: usize,
    last_workers_idx: HashMap<usize, usize>,
    dropped: VecDeque<Request>,
    packets: VecDeque<Request>,
    finished: Vec<Request>,
    per_core: ArrayVec<usize, 16>,
    flow_rng: FlowRng,
}

/// Why a tick cannot be completed.
#[derive(Clone, Copy, PartialEq, Eq, Structural, Debug)]
pub enum TickError {
    /// The core with this id, which has no per-core count (its id is 16 or
    /// more), finished a request.
    UncountedCore(usize),
    /// A request reached the NIC of layout 2 or 4, whose indirection table has no entries.
    EmptyIndirectionTable,
}

/// The abstract state of a [`Simulation`].
pub ghost struct SimView {
    pub nr_indirection_table_entries: usize,
    pub indirection_table: Map<usize, usize>,
    pub layout: LayoutView,
    pub t_cur: usize,
    pub t_duration: usize,
    pub last_workers_idx: Map<usize, usize>,
    pub dropped: Seq<RequestView>,
    pub packets: Seq<RequestView>,
    pub finished: Seq<RequestView>,
    /// How many requests each of the first 16 cores (by id) has finished
    /// since the simulation was made.
    pub per_core: Seq<usize>,
    /// The seed of the generator that picked the requests' flows.
    pub flow_seed: u64,
    /// The numbers that generator gave, first to last.
    pub flows_drawn: Seq<u64>,
}

impl View for Simulation {
    type V = SimView;

    closed spec fn view(&self) -> SimView {
        SimView {
            nr_indirection_table_entries: self.nr_indirection_table_entries,
            indirection_table: self.indirection_table@,
            layout: self.layout@,
            t_cur: self.t_cur,
            t_duration: self.t_duration,
            last_workers_idx: self.last_workers_idx@,
            dropped: views_of_requests(self.dropped@),
            packets: views_of_requests(self.packets@),
            finished: views_of_requests(self.finished@),
            per_core: counter_values(self.per_core),
            flow_seed: self.flow_rng.seed(),
            flows_drawn: self.flow_rng.drawn(),
        }
    }
}

/// A core that receives requests only from a dispatching core, one at a time
/// and only while idle: between ticks it holds at most one waiting request,
/// and none while it works on one; its ready queue is unused.
pub open spec fn fed_by_dispatcher(c: CoreView) -> bool {
    &&& c.local.len() <= 1
    &&& c.local.len() == 1 ==> c.current is None
    &&& c.ready.len() == 0
}

/// A core of a layout at time `t`, doing `action`, with queues of `queue_size`.
pub open spec fn core_ok(c: CoreView, action: CoreAction, queue_size: usize, t: int) -> bool {
    &&& c.wf()
    &&& c.action == action
    &&& c.queue_size == queue_size
    &&& counters_at_most(c, t)
}

/// The workers of a dispatching core.
pub open spec fn workers_ok(ws: Seq<CoreView>, action: CoreAction, queue_size: usize, t: int) -> bool {
    forall|i: int| 0 <= i < ws.len() ==> {
        &&& core_ok(#[trigger] ws[i], action, queue_size, t)
        &&& fed_by_dispatcher(ws[i])
    }
}

/// The rotation point of a dispatching core: present, and a valid index when there are workers.
pub open spec fn rotation_ok(last: Map<usize, usize>, key: usize, n: int) -> bool {
    &&& last.contains_key(key)
    &&& n > 0 ==> last[key] < n
}

/// The requests still to come are in order of arrival, and none of them
/// arrives before `t`.
pub open spec fn arrivals_ahead(ps: Seq<RequestView>, t: int) -> bool {
    &&& sorted_by_arrival(ps)
    &&& forall|i: int| 0 <= i < ps.len() ==> t <= (#[trigger] ps[i]).t_arrival
}

/// The requests arriving at `t` leave the rest of the list in order, none of them arriving before `t + 1`.
proof fn lemma_arrivals_ahead_skip(ps: Seq<RequestView>, t: int)
    requires
        arrivals_ahead(ps, t),
    ensures
        arrivals_ahead(ps.skip(arrival_count(ps, t) as int), t + 1),
{
    lemma_arrival_count(ps, t);
    let n = arrival_count(ps, t) as int;
    let rest = ps.skip(n);
    assert forall|i: int, j: int| 0 <= i <= j < rest.len() implies rest[i].t_arrival <= rest[j].t_arrival by {
        assert(rest[i] == ps[i + n]);
        assert(rest[j] == ps[j + n]);
    }
    assert forall|i: int| 0 <= i < rest.len() implies t + 1 <= (#[trigger] rest[i]).t_arrival by {
        assert(rest[i] == ps[i + n]);
        assert(ps[n].t_arrival <= ps[i + n].t_arrival);
    }
}

/// The indirection table sends entry `k` to queue `k % nr_queues`.
pub open spec fn table_ok(table: Map<usize, usize>, entries: usize, nr_queues: int) -> bool {
    forall|k: usize| k < entries ==> #[trigger] table.contains_key(k) && table[k] == k % (nr_queues as usize)
}

impl SimView {
    /// How many NIC queues (receiving cores) the layout has.
    pub open spec fn nr_queues(self) -> int {
        match self.layout {
            LayoutView::Layout1(_, _, _) => 1,
            LayoutView::Layout2(ws) => ws.len() as int,
            LayoutView::Layout3(_, _) => 1,
            LayoutView::Layout4(ns, _) => ns.len() as int,
        }
    }

    /// The cores are laid out and loaded consistently, no request having had more than `t` ticks.
    pub open spec fn layout_ok_at(self, t: int) -> bool {
        match self.layout {
            LayoutView::Layout1(f, ws, locks) => {
                &&& core_ok(f, CoreAction::Forward, f.queue_size, t)
                &&& flows_below(f, locks.len() as int)
                &&& stack_unstarted(f)
                &&& locks_consistent(ws, locks)
                &&& workers_ok(ws, CoreAction::NetworkStackAndApplicationLock, f.queue_size, t)
                &&& forall|i: int| 0 <= i < ws.len() ==> flows_below(#[trigger] ws[i], locks.len() as int)
                &&& rotation_ok(self.last_workers_idx, f.id, ws.len() as int)
                &&& forall|i: int| 0 <= i < self.packets.len() ==> (#[trigger] self.packets[i]).flow_id < locks.len()
            },
            LayoutView::Layout2(ws) => {
                forall|i: int| 0 <= i < ws.len() ==>
                    core_ok(#[trigger] ws[i], CoreAction::NetworkStackAndApplication, ws[i].queue_size, t)
            },
            LayoutView::Layout3(n, apps) => {
                &&& core_ok(n, CoreAction::NetworkStack, n.queue_size, t)
                &&& workers_ok(apps, CoreAction::Application, n.queue_size, t)
                &&& rotation_ok(self.last_workers_idx, n.id, apps.len() as int)
            },
            LayoutView::Layout4(ns, gs) => {
                &&& ns.len() == gs.len()
                &&& forall|k: int| 0 <= k < ns.len() ==> {
                    &&& core_ok(#[trigger] ns[k], CoreAction::NetworkStack, ns[k].queue_size, t)
                    &&& ns[k].id == k
                    &&& workers_ok(gs[k], CoreAction::Application, ns[k].queue_size, t)
                    &&& rotation_ok(self.last_workers_idx, k as usize, gs[k].len() as int)
                }
            },
        }
    }

    /// The invariant of a simulation between ticks.
    pub open spec fn wf(self) -> bool {
        &&& self.wf_at(self.t_cur as int)
        &&& arrivals_ahead(self.packets, self.t_cur as int)
    }

    /// The invariant, with `t` as the bound on the ticks any request has had.
    pub open spec fn wf_at(self, t: int) -> bool {
        &&& self.layout_ok_at(t)
        &&& table_ok(self.indirection_table, self.nr_indirection_table_entries, self.nr_queues())
        &&& self.nr_indirection_table_entries > 0 ==> self.nr_queues() > 0
        &&& forall|i: int| 0 <= i < self.packets.len() ==> (#[trigger] self.packets[i]).counters_at_most(0)
        &&& self.per_core.len() == NR_COUNTED_CORES
        &&& forall|i: int| 0 <= i < self.per_core.len() ==> #[trigger] self.per_core[i] <= self.finished.len()
    }

}

/// A sequence of `n` zeros.
pub open spec fn zeros(n: nat) -> Seq<usize> {
    Seq::new(n, |i: int| 0usize)
}

impl Simulation {
    /// Builds the server the configuration describes, and every request of the
    /// run; errors when the layout asks for more cores than there are, when
    /// layout 4 has fewer application than network-stack cores, or when the
    /// layout number is unknown.
    pub fn new(cfg: &SimConfig) -> (res: Result<Simulation, ConfigError>)
        requires
            cfg.buildable(),
        ensures
            match res {
                Err(e) => cfg.layout_error() == Some(e),
                Ok(sim) => {
                    &&& cfg.layout_error() is None
                    &&& sim@.wf()
                    &&& cfg.initial_layout(sim@.layout)
                    &&& sim@.last_workers_idx == cfg.initial_last_workers()
                    &&& sim@.nr_indirection_table_entries == cfg.nr_indirection_table_entries
                    &&& sim@.indirection_table == Map::new(
                        |k: usize| k < cfg.nr_indirection_table_entries,
                        |k: usize| (k % (cfg.nr_queues() as usize)) as usize,
                    )
                    &&& sim@.t_cur == 0
                    &&& sim@.t_duration == cfg.duration
                    &&& sim@.flow_seed == cfg.seed
                    &&& planned_packets(*cfg, sim@.packets, sim@.flows_drawn)
                    &&& sorted_by_arrival(sim@.packets)
                    &&& sim@.dropped == Seq::<RequestView>::empty()
                    &&& sim@.finished == Seq::<RequestView>::empty()
                    &&& sim@.per_core == zeros(NR_COUNTED_CORES as nat)
                },
            },
    {
        broadcast use vstd::std_specs::hash::group_hash_axioms;
        let (layout, last_workers_idx) = match build_layout(cfg) {
            Ok(built) => built,
            Err(e) => return Err(e),
        };
        let (packets, flow_rng) = generate_packets(cfg);
        let nr_queues: usize = match &layout {
            Layout::Layout1(_, _, _) => 1,
            Layout::Layout2(arr) => {
                assert(views(arr@).len() == arr@.len());
                arr.len()
            },
            Layout::Layout3(_, _) => 1,
            Layout::Layout4(arr, _) => {
                assert(views(arr@).len() == arr@.len());
                arr.len()
            },
        };
        assert(nr_queues == cfg.nr_queues());
        let entries = cfg.nr_indirection_table_entries;
        let mut indirection_table: HashMap<usize, usize> = HashMap::new();
        let mut i: usize = 0;
        while i < entries
            invariant
                i <= entries,
                entries > 0 ==> nr_queues > 0,
                indirection_table@ =~= Map::new(|k: usize| k < i, |k: usize| (k % nr_queues) as usize),
            decreases entries - i,
        {
            indirection_table.insert(i, i % nr_queues);
            i = i + 1;
        }
        let mut per_core = new_counters();
        let mut c: usize = 0;
        while c < NR_COUNTED_CORES
            invariant
                c <= NR_COUNTED_CORES,
                counter_values(per_core) =~= zeros(c as nat),
            decreases NR_COUNTED_CORES - c,
        {
            push_counter(&mut per_core, 0);
            c = c + 1;
        }
        let sim = Simulation {
            nr_indirection_table_entries: entries,
            indirection_table,
            layout,
            t_cur: 0,
            t_duration: cfg.duration,
            last_workers_idx,
            dropped: VecDeque::new(),
            packets,
            finished: Vec::new(),
            per_core,
            flow_rng,
        };
        proof {
            assert(sim@.dropped =~= Seq::<RequestView>::empty());
            assert(sim@.finished =~= Seq::<RequestView>::empty());
            lemma_initial_wf(*cfg, sim@);
        }
        Ok(sim)
    }
}

/// A newly built simulation satisfies the invariant.
proof fn lemma_initial_wf(cfg: SimConfig, s: SimView)
    requires
        cfg.buildable(),
        cfg.layout_error() is None,
        cfg.initial_layout(s.layout),
        s.last_workers_idx == cfg.initial_last_workers(),
        s.nr_indirection_table_entries == cfg.nr_indirection_table_entries,
        s.indirection_table == Map::new(
            |k: usize| k < cfg.nr_indirection_table_entries,
            |k: usize| (k % (cfg.nr_queues() as usize)) as usize,
        ),
        s.t_cur == 0,
        planned_packets(cfg, s.packets, s.flows_drawn),
        sorted_by_arrival(s.packets),
        s.finished.len() == 0,
        s.per_core == zeros(NR_COUNTED_CORES as nat),
    ensures
        s.wf(),
{
    assert(s.nr_queues() == cfg.nr_queues());
    assert forall|i: int| 0 <= i < s.packets.len() implies (#[trigger] s.packets[i]).counters_at_most(0) by {
        assert(s.packets[i] == RequestView::arrived(
            i as usize,
            s.packets[i].flow_id,
            cfg.arrival_of(i) as usize,
            FORWARD_TIME,
            cfg.stack_ticks(),
            cfg.application_ticks(),
        ));
    }
    match s.layout {
        LayoutView::Layout1(f, ws, locks) => {
            assert(locks.len() == cfg.nr_flows);
            assert forall|i: int| 0 <= i < s.packets.len() implies (#[trigger] s.packets[i]).flow_id < locks.len() by {
                assert(s.packets[i].flow_id < cfg.nr_flows);
            }
        },
        LayoutView::Layout4(ns, gs) => {
            assert forall|k: int| 0 <= k < ns.len() implies {
                &&& core_ok(#[trigger] ns[k], CoreAction::NetworkStack, ns[k].queue_size, 0)
                &&& ns[k].id == k
                &&& workers_ok(gs[k], CoreAction::Application, ns[k].queue_size, 0)
                &&& rotation_ok(s.last_workers_idx, k as usize, gs[k].len() as int)
            } by {
                assert(app_group(gs[k], cfg.nr_network_cores as int, cfg.nr_application_cores as int, k, cfg.queue_size));
                assert(s.last_workers_idx.contains_key(k as usize));
            }
        },
        _ => {},
    }
}

/// Sweeps the application groups of layout 4 for tick `t`, group 0 first.
pub open spec fn sweep_groups(
    gs: Seq<Seq<CoreView>>,
    t: usize,
    finished: Seq<RequestView>,
    per_core: Seq<usize>,
) -> (Seq<Seq<CoreView>>, Seq<RequestView>, Seq<usize>)
    decreases gs.len(),
{
    if gs.len() == 0 {
        (Seq::empty(), finished, per_core)
    } else {
        let (gs0, fin0, pc0) = sweep_groups(gs.drop_last(), t, finished, per_core);
        let sw = sweep(gs.last(), t, Seq::empty(), fin0, pc0);
        (gs0.push(sw.cores), sw.finished, sw.per_core)
    }
}

/// Runs the network-stack cores of layout 4 for tick `t`, core 0 first, each
/// dispatching to its own group (see [`stack_dispatch`]).
pub open spec fn dispatch_groups(
    ns: Seq<CoreView>,
    gs: Seq<Seq<CoreView>>,
    last: Map<usize, usize>,
    t: usize,
    dropped: Seq<RequestView>,
) -> (Seq<CoreView>, Seq<Seq<CoreView>>, Map<usize, usize>, Seq<RequestView>)
    decreases ns.len(),
{
    if ns.len() == 0 || gs.len() == 0 {
        (ns, gs, last, dropped)
    } else {
        let (ns0, gs0, last0, d0) = dispatch_groups(ns.drop_last(), gs.drop_last(), last, t, dropped);
        let (n1, g1, last1, d1) = stack_dispatch(ns.last(), gs.last(), last0, t, d0);
        (ns0.push(n1), gs0.push(g1), last1, d1)
    }
}

/// In a sweep of the groups of layout 4 for tick `t`, every core that
/// finishes a request has a per-core count.
pub open spec fn groups_finishers_counted(gs: Seq<Seq<CoreView>>, t: usize) -> bool {
    forall|k: int| 0 <= k < gs.len() ==> finishers_counted(#[trigger] gs[k], t, Seq::empty())
}

/// On the coming tick, every core that finishes a request has a per-core
/// count (an id below 16).
pub open spec fn tick_counts_ok(s: SimView) -> bool {
    match s.layout {
        LayoutView::Layout1(_, ws, locks) => finishers_counted(ws, s.t_cur, locks),
        LayoutView::Layout2(ws) => finishers_counted(ws, s.t_cur, Seq::empty()),
        LayoutView::Layout3(_, apps) => finishers_counted(apps, s.t_cur, Seq::empty()),
        LayoutView::Layout4(_, gs) => groups_finishers_counted(gs, s.t_cur),
    }
}

/// The NIC can pick a core for the requests arriving on the coming tick: in
/// layouts 2 and 4, when some arrive, the indirection table has entries.
pub open spec fn arrivals_receivable(s: SimView) -> bool {
    (s.layout is Layout2 || s.layout is Layout4) && arrival_count(s.packets, s.t_cur as int) > 0
        ==> s.nr_indirection_table_entries > 0
}

/// The coming tick can be completed.
pub open spec fn tick_ok(s: SimView) -> bool {
    tick_counts_ok(s) && arrivals_receivable(s)
}

/// The cores' part of tick `t`: every worker runs first, then the cores that
/// dispatch to them.
pub open spec fn tick_cores(s: SimView) -> SimView {
    let t = s.t_cur;
    match s.layout {
        LayoutView::Layout1(f, ws, locks) => {
            let sw = sweep(ws, t, locks, s.finished, s.per_core);
            let (f1, ws1, last1) = forward_dispatch(f, sw.cores, s.last_workers_idx, t);
            SimView {
                layout: LayoutView::Layout1(f1, ws1, sw.locks),
                last_workers_idx: last1,
                finished: sw.finished,
                per_core: sw.per_core,
                ..s
            }
        },
        LayoutView::Layout2(ws) => {
            let sw = sweep(ws, t, Seq::empty(), s.finished, s.per_core);
            SimView { layout: LayoutView::Layout2(sw.cores), finished: sw.finished, per_core: sw.per_core, ..s }
        },
        LayoutView::Layout3(n, apps) => {
            let sw = sweep(apps, t, Seq::empty(), s.finished, s.per_core);
            let (n1, apps1, last1, d1) = stack_dispatch(n, sw.cores, s.last_workers_idx, t, s.dropped);
            SimView {
                layout: LayoutView::Layout3(n1, apps1),
                last_workers_idx: last1,
                dropped: d1,
                finished: sw.finished,
                per_core: sw.per_core,
                ..s
            }
        },
        LayoutView::Layout4(ns, gs) => {
            let (gs1, fin1, pc1) = sweep_groups(gs, t, s.finished, s.per_core);
            let (ns2, gs2, last2, d2) = dispatch_groups(ns, gs1, s.last_workers_idx, t, s.dropped);
            SimView {
                layout: LayoutView::Layout4(ns2, gs2),
                last_workers_idx: last2,
                dropped: d2,
                finished: fin1,
                per_core: pc1,
                ..s
            }
        },
    }
}

/// How many requests at the front of `ps` arrive at `t`.
pub open spec fn arrival_count(ps: Seq<RequestView>, t: int) -> nat
    decreases ps.len(),
{
    if ps.len() > 0 && ps[0].t_arrival == t { 1 + arrival_count(ps.drop_first(), t) } else { 0 }
}

/// `c` after it was offered `r`: queued when there is room; otherwise `r` is dropped.
pub open spec fn offer(c: CoreView, r: RequestView, dropped: Seq<RequestView>) -> (CoreView, Seq<RequestView>) {
    if c.local.len() < c.queue_size {
        (enqueued(c, r), dropped)
    } else {
        (c, dropped.push(dropped_in_stack(r)))
    }
}

/// The receiving core the NIC picks for `r` in layouts 2 and 4: its flow
/// picks an entry of the indirection table, which names the core.
pub open spec fn nic_target(s: SimView, r: RequestView) -> int {
    s.indirection_table[(r.flow_id % s.nr_indirection_table_entries) as usize] as int
}

/// A request arriving from the NIC: it is offered to the forwarder (layout 1),
/// to the network-stack core (layout 3), or to the core the indirection
/// table picks (layouts 2 and 4).
pub open spec fn receive(s: SimView, r: RequestView) -> SimView {
    match s.layout {
        LayoutView::Layout1(f, ws, locks) => {
            let (f1, d1) = offer(f, r, s.dropped);
            SimView { layout: LayoutView::Layout1(f1, ws, locks), dropped: d1, ..s }
        },
        LayoutView::Layout2(ws) => {
            let k = nic_target(s, r);
            let (c1, d1) = offer(ws[k], r, s.dropped);
            SimView { layout: LayoutView::Layout2(ws.update(k, c1)), dropped: d1, ..s }
        },
        LayoutView::Layout3(n, apps) => {
            let (n1, d1) = offer(n, r, s.dropped);
            SimView { layout: LayoutView::Layout3(n1, apps), dropped: d1, ..s }
        },
        LayoutView::Layout4(ns, gs) => {
            let k = nic_target(s, r);
            let (c1, d1) = offer(ns[k], r, s.dropped);
            SimView { layout: LayoutView::Layout4(ns.update(k, c1), gs), dropped: d1, ..s }
        },
    }
}

/// Receives the requests of `rs`, last one first.
pub open spec fn receive_all(s: SimView, rs: Seq<RequestView>) -> SimView
    decreases rs.len(),
{
    if rs.len() == 0 {
        s
    } else {
        receive_all(receive(s, rs.last()), rs.drop_last())
    }
}

/// One tick of the whole simulation: the cores run; the requests arriving
/// now leave the list of those to come and reach the NIC, which hands them
/// on (the last of them first); the clock moves on.
pub open spec fn step_spec(s: SimView) -> SimView {
    let s1 = tick_cores(s);
    let n = arrival_count(s.packets, s.t_cur as int);
    let s2 = receive_all(SimView { packets: s.packets.skip(n as int), ..s1 }, s.packets.take(n as int));
    SimView { t_cur: (s.t_cur + 1) as usize, ..s2 }
}

/// Receiving requests leaves the clock, the end of the run and the requests to come alone.
proof fn lemma_receive_all_clock(s: SimView, rs: Seq<RequestView>)
    ensures
        receive_all(s, rs).t_cur == s.t_cur,
        receive_all(s, rs).t_duration == s.t_duration,
        receive_all(s, rs).packets == s.packets,
    decreases rs.len(),
{
    if rs.len() > 0 {
        lemma_receive_all_clock(receive(s, rs.last()), rs.drop_last());
    }
}

/// A tick before the end of the run moves the clock on by one and keeps the end.
pub proof fn lemma_step_clock(s: SimView)
    requires
        s.t_cur < s.t_duration,
    ensures
        step_spec(s).t_cur == s.t_cur + 1,
        step_spec(s).t_duration == s.t_duration,
{
    let s1 = tick_cores(s);
    let n = arrival_count(s.packets, s.t_cur as int);
    lemma_receive_all_clock(SimView { packets: s.packets.skip(n as int), ..s1 }, s.packets.take(n as int));
}

/// The simulation `s` ticked until its clock reaches the end of the run.
pub open spec fn run_spec(s: SimView) -> SimView
    decreases s.t_duration - s.t_cur,
{
    if s.t_cur < s.t_duration {
        proof {
            lemma_step_clock(s);
        }
        run_spec(step_spec(s))
    } else {
        s
    }
}

/// Every tick until the end of the run can be completed.
pub open spec fn run_ok(s: SimView) -> bool
    decreases s.t_duration - s.t_cur,
{
    if s.t_cur < s.t_duration {
        proof {
            lemma_step_clock(s);
        }
        tick_ok(s) && run_ok(step_spec(s))
    } else {
        true
    }
}

/// A sweep leaves a worker that a dispatcher feeds ready to receive: it is
/// consistent, has an empty queue, and its requests have had at most `t + 1` ticks.
proof fn lemma_fed_worker_swept(c: CoreView, c1: CoreView, action: CoreAction, queue_size: usize, t: int)
    requires
        core_ok(c, action, queue_size, t),
        fed_by_dispatcher(c),
        core_after(c, c1, t, 0),
    ensures
        swept_worker(c1, action, queue_size, t + 1),
{
}

/// Sweeps every application group of layout 4 for tick `t`, group 0 first
/// (see [`sweep_groups`]); it stops with an error, giving the core's id, at
/// the first core without a count that finishes a request.
fn sweep_all_groups(
    groups: &mut Vec<Vec<Core>>,
    t: usize,
    finished: &mut Vec<Request>,
    per_core: &mut ArrayVec<usize, 16>,
) -> (res: Result<(), usize>)
    requires
        t < usize::MAX,
        forall|k: int, j: int| 0 <= k < old(groups)@.len() && 0 <= j < old(groups)@[k]@.len() ==>
            sweepable(#[trigger] views(old(groups)@[k]@)[j], t as int),
        forall|k: int, j: int| 0 <= k < old(groups)@.len() && 0 <= j < old(groups)@[k]@.len() ==>
            (#[trigger] views(old(groups)@[k]@)[j]).action == CoreAction::Application,
        counts_bounded(counter_values(*old(per_core)), old(finished)@.len() as int),
    ensures
        res is Ok <==> groups_finishers_counted(groups_view(old(groups)@), t),
        res matches Err(id) ==> id >= 16,
        res is Ok ==> {
            let (gs1, fin1, pc1) = sweep_groups(groups_view(old(groups)@), t, views_of_requests(old(finished)@), counter_values(*old(per_core)));
            &&& groups_view(final(groups)@) == gs1
            &&& views_of_requests(final(finished)@) == fin1
            &&& counter_values(*final(per_core)) == pc1
        },
        final(groups)@.len() == old(groups)@.len(),
        res is Ok ==> forall|k: int| 0 <= k < old(groups)@.len() ==> (#[trigger] final(groups)@[k])@.len() == old(groups)@[k]@.len(),
        res is Ok ==> forall|k: int, j: int, nf: int| 0 <= k < old(groups)@.len() && 0 <= j < old(groups)@[k]@.len() ==>
            #[trigger] core_after(views(old(groups)@[k]@)[j], views(final(groups)@[k]@)[j], t as int, nf),
        res is Ok ==> counts_bounded(counter_values(*final(per_core)), final(finished)@.len() as int),
{
    let ghost gv = groups_view(groups@);
    let ghost old_groups = groups@;
    let ghost fin0 = views_of_requests(finished@);
    let ghost pc0 = counter_values(*per_core);
    let n = groups.len();
    let mut k: usize = 0;
    while k < n
        invariant
            n == groups@.len() == gv.len() == old_groups.len(),
            gv == groups_view(old_groups),
            old_groups == old(groups)@,
            k <= n,
            t < usize::MAX,
            forall|a: int| 0 <= a < k ==> finishers_counted(#[trigger] gv[a], t, Seq::empty()),
            forall|a: int, j: int| 0 <= a < n && 0 <= j < old_groups[a]@.len() ==>
                sweepable(#[trigger] views(old_groups[a]@)[j], t as int),
            forall|a: int, j: int| 0 <= a < n && 0 <= j < old_groups[a]@.len() ==>
                (#[trigger] views(old_groups[a]@)[j]).action == CoreAction::Application,
            forall|a: int| k <= a < n ==> #[trigger] groups@[a] == old_groups[a],
            forall|a: int| 0 <= a < n ==> (#[trigger] groups@[a])@.len() == old_groups[a]@.len(),
            forall|a: int, j: int, nf: int| 0 <= a < k && 0 <= j < old_groups[a]@.len() ==>
                #[trigger] core_after(views(old_groups[a]@)[j], views(groups@[a]@)[j], t as int, nf),
            ({
                let (gs1, fin1, pc1) = sweep_groups(gv.subrange(0, k as int), t, fin0, pc0);
                &&& groups_view(groups@).subrange(0, k as int) == gs1
                &&& views_of_requests(finished@) == fin1
                &&& counter_values(*per_core) == pc1
            }),
            counts_bounded(counter_values(*per_core), finished@.len() as int),
        decreases n - k,
    {
        let ghost before = groups@;
        proof {
            assert(gv.subrange(0, k + 1).drop_last() =~= gv.subrange(0, k as int));
            assert(gv.subrange(0, k + 1).last() == views(old_groups[k as int]@));
            assert(before[k as int] == old_groups[k as int]);
        }
        let r = sweep_plain(&mut groups[k], CoreAction::Application, t, finished, per_core);
        if let Err(id) = r {
            proof {
                assert(gv[k as int] == views(old_groups[k as int]@));
                assert(!groups_finishers_counted(gv, t));
            }
            return Err(id);
        }
        proof {
            assert(gv[k as int] == views(old_groups[k as int]@));
            assert forall|a: int| 0 <= a < n && a != k implies #[trigger] groups@[a] == before[a] by {}
            assert(groups_view(groups@).subrange(0, k + 1) =~= groups_view(before).subrange(0, k as int).push(views(groups@[k as int]@)));
        }
        k = k + 1;
    }
    proof {
        assert(gv.subrange(0, n as int) =~= gv);
        assert(groups_view(groups@).subrange(0, n as int) =~= groups_view(groups@));
    }
    Ok(())
}

/// Runs every network-stack core of layout 4 for tick `t`, core 0 first, each
/// dispatching to its own application group (see [`dispatch_groups`]).
#[verifier::spinoff_prover]
fn dispatch_all_groups(
    network_cores: &mut Vec<Core>,
    groups: &mut Vec<Vec<Core>>,
    last_workers_idx: &mut HashMap<usize, usize>,
    t: usize,
    dropped: &mut VecDeque<Request>,
)
    requires
        t < usize::MAX,
        old(network_cores)@.len() == old(groups)@.len(),
        forall|k: int| 0 <= k < old(network_cores)@.len() ==> {
            &&& core_ok(#[trigger] views(old(network_cores)@)[k], CoreAction::NetworkStack, views(old(network_cores)@)[k].queue_size, t as int)
            &&& views(old(network_cores)@)[k].id == k
            &&& rotation_ok(old(last_workers_idx)@, k as usize, old(groups)@[k]@.len() as int)
            &&& forall|j: int| 0 <= j < old(groups)@[k]@.len() ==> swept_worker(
                #[trigger] views(old(groups)@[k]@)[j],
                CoreAction::Application,
                views(old(network_cores)@)[k].queue_size,
                t + 1,
            )
        },
    ensures
        ({
            let (ns1, gs1, last1, d1) = dispatch_groups(
                views(old(network_cores)@),
                groups_view(old(groups)@),
                old(last_workers_idx)@,
                t,
                views_of_requests(old(dropped)@),
            );
            &&& views(final(network_cores)@) == ns1
            &&& groups_view(final(groups)@) == gs1
            &&& final(last_workers_idx)@ == last1
            &&& views_of_requests(final(dropped)@) == d1
        }),
        final(network_cores)@.len() == old(network_cores)@.len(),
        final(groups)@.len() == old(groups)@.len(),
        forall|k: int| 0 <= k < old(network_cores)@.len() ==> {
            &&& core_ok(#[trigger] views(final(network_cores)@)[k], CoreAction::NetworkStack, views(old(network_cores)@)[k].queue_size, t + 1)
            &&& views(final(network_cores)@)[k].id == k
            &&& final(groups)@[k]@.len() == old(groups)@[k]@.len()
            &&& forall|j: int| 0 <= j < old(groups)@[k]@.len() ==>
                (#[trigger] views(final(groups)@[k]@)[j]).id == views(old(groups)@[k]@)[j].id
            &&& workers_ok(views(final(groups)@[k]@), CoreAction::Application, views(old(network_cores)@)[k].queue_size, t + 1)
            &&& rotation_ok(final(last_workers_idx)@, k as usize, old(groups)@[k]@.len() as int)
        },
{
    let ghost nv = views(network_cores@);
    let ghost gv = groups_view(groups@);
    let ghost old_groups = groups@;
    let ghost last0 = last_workers_idx@;
    let ghost d0 = views_of_requests(dropped@);
    let n = network_cores.len();
    let mut k: usize = 0;
    while k < n
        invariant
            n == network_cores@.len() == groups@.len() == nv.len() == gv.len() == old_groups.len(),
            gv == groups_view(old_groups),
            k <= n,
            t < usize::MAX,
            forall|a: int| 0 <= a < n ==> {
                &&& core_ok(#[trigger] nv[a], CoreAction::NetworkStack, nv[a].queue_size, t as int)
                &&& nv[a].id == a
                &&& rotation_ok(last0, a as usize, old_groups[a]@.len() as int)
                &&& forall|j: int| 0 <= j < old_groups[a]@.len() ==> swept_worker(
                    #[trigger] views(old_groups[a]@)[j],
                    CoreAction::Application,
                    nv[a].queue_size,
                    t + 1,
                )
            },
            forall|a: int| k <= a < n ==> #[trigger] views(network_cores@)[a] == nv[a],
            forall|a: int| k <= a < n ==> #[trigger] groups@[a] == old_groups[a],
            forall|a: usize| k <= a ==> (#[trigger] last_workers_idx@.contains_key(a) == last0.contains_key(a)
                && (last0.contains_key(a) ==> last_workers_idx@[a] == last0[a])),
            forall|a: int| 0 <= a < k ==> {
                &&& core_ok(#[trigger] views(network_cores@)[a], CoreAction::NetworkStack, nv[a].queue_size, t + 1)
                &&& views(network_cores@)[a].id == a
                &&& groups@[a]@.len() == old_groups[a]@.len()
                &&& forall|j: int| 0 <= j < old_groups[a]@.len() ==>
                    (#[trigger] views(groups@[a]@)[j]).id == views(old_groups[a]@)[j].id
                &&& workers_ok(views(groups@[a]@), CoreAction::Application, nv[a].queue_size, t + 1)
                &&& rotation_ok(last_workers_idx@, a as usize, old_groups[a]@.len() as int)
            },
            ({
                let (ns1, gs1, last1, d1) = dispatch_groups(nv.subrange(0, k as int), gv.subrange(0, k as int), last0, t, d0);
                &&& views(network_cores@).subrange(0, k as int) == ns1
                &&& groups_view(groups@).subrange(0, k as int) == gs1
                &&& last_workers_idx@ == last1
                &&& views_of_requests(dropped@) == d1
            }),
        decreases n - k,
    {
        let ghost nb = network_cores@;
        let ghost gb = groups@;
        let ghost lb = last_workers_idx@;
        let ghost db = views_of_requests(dropped@);
        proof {
            assert(nv.subrange(0, k + 1).drop_last() =~= nv.subrange(0, k as int));
            assert(gv.subrange(0, k + 1).drop_last() =~= gv.subrange(0, k as int));
            assert(nv.subrange(0, k + 1).last() == nv[k as int]);
            assert(gv.subrange(0, k + 1).last() == views(old_groups[k as int]@));
            assert(views(nb)[k as int] == nv[k as int]);
            assert(gb[k as int] == old_groups[k as int]);
            assert(rotation_ok(last0, k as usize, old_groups[k as int]@.len() as int));
            assert(lb.contains_key(k as usize) == last0.contains_key(k as usize));
            assert(rotation_ok(lb, k as usize, old_groups[k as int]@.len() as int));
            lemma_stack_dispatch_ok(nv[k as int], views(old_groups[k as int]@), lb, t, db);
        }
        stack_and_dispatch(&mut network_cores[k], &mut groups[k], last_workers_idx, t, dropped);
        proof {
            assert forall|a: int| 0 <= a < n && a != k implies #[trigger] groups@[a] == gb[a] by {}
            assert forall|a: int| 0 <= a < n && a != k implies #[trigger] views(network_cores@)[a] == views(nb)[a] by {}
            assert(views(network_cores@).subrange(0, k + 1) =~= views(nb).subrange(0, k as int).push(views(network_cores@)[k as int]));
            assert(groups_view(groups@).subrange(0, k + 1) =~= groups_view(gb).subrange(0, k as int).push(views(groups@[k as int]@)));
            assert forall|a: usize| k + 1 <= a implies (#[trigger] last_workers_idx@.contains_key(a) == last0.contains_key(a)
                && (last0.contains_key(a) ==> last_workers_idx@[a] == last0[a])) by {
                assert(same_except(last_workers_idx@, lb, k as usize));
                assert(lb.contains_key(a) == last0.contains_key(a));
            }
            assert forall|a: int| 0 <= a < k implies rotation_ok(last_workers_idx@, a as usize, #[trigger] old_groups[a]@.len() as int) by {
                assert(views(nb)[a].id == a);
                assert(rotation_ok(lb, a as usize, old_groups[a]@.len() as int));
                assert(last_workers_idx@.contains_key(a as usize) == lb.contains_key(a as usize));
            }
        }
        k = k + 1;
    }
    proof {
        assert(nv.subrange(0, n as int) =~= nv);
        assert(gv.subrange(0, n as int) =~= gv);
        assert(views(network_cores@).subrange(0, n as int) =~= views(network_cores@));
        assert(groups_view(groups@).subrange(0, n as int) =~= groups_view(groups@));
    }
}

/// The requests at the front of `ps` that arrive at `t` are exactly the first
/// `arrival_count(ps, t)` ones.
pub proof fn lemma_arrival_count(ps: Seq<RequestView>, t: int)
    ensures
        arrival_count(ps, t) <= ps.len(),
        forall|i: int| 0 <= i < arrival_count(ps, t) ==> (#[trigger] ps[i]).t_arrival == t,
        arrival_count(ps, t) < ps.len() ==> ps[arrival_count(ps, t) as int].t_arrival != t,
    decreases ps.len(),
{
    if ps.len() > 0 && ps[0].t_arrival == t {
        lemma_arrival_count(ps.drop_first(), t);
        assert forall|i: int| 0 <= i < arrival_count(ps, t) implies (#[trigger] ps[i]).t_arrival == t by {
            if i > 0 {
                assert(ps[i] == ps.drop_first()[i - 1]);
            }
        }
    }
}

/// Offers `req` to `core`: it joins the local queue when there is room, and is
/// otherwise marked as dropped by the network stack and appended to `dropped`.
fn offer_to(core: &mut Core, req: Request, dropped: &mut VecDeque<Request>)
    requires
        old(core)@.wf(),
    ensures
        final(core)@.wf(),
        ({
            let (c1, d1) = offer(old(core)@, req@, views_of_requests(old(dropped)@));
            &&& final(core)@ == c1
            &&& views_of_requests(final(dropped)@) == d1
        }),
{
    match core.try_enqueue(req) {
        Ok(()) => {},
        Err(mut req) => {
            req.set_p_dropped();
            let ghost r = req@;
            dropped.push_back(req);
            proof {
                assert(views_of_requests(dropped@) =~= views_of_requests(old(dropped)@).push(r));
            }
        },
    }
}

/// The simulation can receive a request from the NIC: the table covers every flow.
pub open spec fn can_receive(s: SimView) -> bool {
    &&& (s.layout is Layout2 || s.layout is Layout4) ==> {
        &&& s.nr_indirection_table_entries > 0
        &&& s.nr_queues() > 0
        &&& table_ok(s.indirection_table, s.nr_indirection_table_entries, s.nr_queues())
    }
}

impl Simulation {
    /// Which receiving core the NIC hands `req` to (layouts 2 and 4): the
    /// core the indirection table names for the request's flow.
    fn select_core(&self, req: &Request) -> (k: usize)
        requires
            self@.layout is Layout2 || self@.layout is Layout4,
            can_receive(self@),
        ensures
            k == nic_target(self@, req@),
            k < self@.nr_queues(),
    {
        broadcast use vstd::std_specs::hash::group_hash_axioms;
        let queue_id: usize = req.get_flow_id() % self.nr_indirection_table_entries;
        proof {
            assert(self.indirection_table@.contains_key(queue_id));
        }
        let core_id: usize = *self.indirection_table.get(&queue_id).unwrap();
        core_id
    }

    /// Hands a request from the NIC to the core that receives it (see [`receive`]).
    fn receive_request(&mut self, req: Request)
        requires
            can_receive(old(self)@),
            match old(self)@.layout {
                LayoutView::Layout1(f, _, _) => f.wf(),
                LayoutView::Layout2(ws) => forall|i: int| 0 <= i < ws.len() ==> (#[trigger] ws[i]).wf(),
                LayoutView::Layout3(n, _) => n.wf(),
                LayoutView::Layout4(ns, _) => forall|i: int| 0 <= i < ns.len() ==> (#[trigger] ns[i]).wf(),
            },
        ensures
            final(self)@ == receive(old(self)@, req@),
    {
        let ghost r = req@;
        match self.layout {
            Layout::Layout2(_) | Layout::Layout4(_, _) => {
                let k = self.select_core(&req);
                match &mut self.layout {
                    Layout::Layout2(arr) => {
                        let ghost before = views(arr@);
                        offer_to(&mut arr[k], req, &mut self.dropped);
                        proof {
                            assert(views(arr@) =~= before.update(k as int, views(arr@)[k as int]));
                        }
                    },
                    Layout::Layout4(arr, _) => {
                        let ghost before = views(arr@);
                        offer_to(&mut arr[k], req, &mut self.dropped);
                        proof {
                            assert(views(arr@) =~= before.update(k as int, views(arr@)[k as int]));
                        }
                    },
                    _ => {},
                }
            },
            _ => {
                match &mut self.layout {
                    Layout::Layout1(forwarder, _, _) => {
                        offer_to(forwarder, req, &mut self.dropped);
                    },
                    Layout::Layout3(network_core, _) => {
                        offer_to(network_core, req, &mut self.dropped);
                    },
                    _ => {},
                }
            },
        }
    }
}

/// Receiving a fresh request keeps the invariant.
proof fn lemma_receive_ok(s: SimView, r: RequestView, t: int)
    requires
        s.wf_at(t),
        t >= 0,
        r.counters_at_most(0),
        s.layout matches LayoutView::Layout1(_, _, locks) ==> r.flow_id < locks.len(),
        (s.layout is Layout2 || s.layout is Layout4) ==> s.nr_indirection_table_entries > 0,
    ensures
        receive(s, r).wf_at(t),
        can_receive(s),
{
    let s1 = receive(s, r);
    match s.layout {
        LayoutView::Layout1(f, ws, locks) => {
            let (f1, d1) = offer(f, r, s.dropped);
            if f.local.len() < f.queue_size {
                assert forall|i: int| 0 <= i < f1.local.len() implies (#[trigger] f1.local[i]).counters_at_most(t) by {
                    if i < f.local.len() { assert(f1.local[i] == f.local[i]); }
                }
                assert forall|i: int| 0 <= i < f1.local.len() implies (#[trigger] f1.local[i]).flow_id < locks.len() by {
                    if i < f.local.len() { assert(f1.local[i] == f.local[i]); }
                }
                assert forall|i: int| 0 <= i < f1.local.len() implies (#[trigger] f1.local[i]).p_completed == 0 by {
                    if i < f.local.len() { assert(f1.local[i] == f.local[i]); }
                }
            }
        },
        LayoutView::Layout2(ws) => {
            let k = nic_target(s, r);
            let q = (r.flow_id % s.nr_indirection_table_entries) as usize;
            assert(s.indirection_table.contains_key(q));
            assert(0 <= k < ws.len());
            let (c1, d1) = offer(ws[k], r, s.dropped);
            assert(core_ok(ws[k], CoreAction::NetworkStackAndApplication, ws[k].queue_size, t));
            if ws[k].local.len() < ws[k].queue_size {
                assert forall|i: int| 0 <= i < c1.local.len() implies (#[trigger] c1.local[i]).counters_at_most(t) by {
                    if i < ws[k].local.len() { assert(c1.local[i] == ws[k].local[i]); }
                }
            }
            let ws1 = ws.update(k, c1);
            assert forall|i: int| 0 <= i < ws1.len() implies
                core_ok(#[trigger] ws1[i], CoreAction::NetworkStackAndApplication, ws1[i].queue_size, t) by {
                if i != k { assert(ws1[i] == ws[i]); }
            }
        },
        LayoutView::Layout3(n, apps) => {
            let (n1, d1) = offer(n, r, s.dropped);
            if n.local.len() < n.queue_size {
                assert forall|i: int| 0 <= i < n1.local.len() implies (#[trigger] n1.local[i]).counters_at_most(t) by {
                    if i < n.local.len() { assert(n1.local[i] == n.local[i]); }
                }
            }
        },
        LayoutView::Layout4(ns, gs) => {
            let k = nic_target(s, r);
            let q = (r.flow_id % s.nr_indirection_table_entries) as usize;
            assert(s.indirection_table.contains_key(q));
            assert(0 <= k < ns.len());
            let (c1, d1) = offer(ns[k], r, s.dropped);
            assert(core_ok(ns[k], CoreAction::NetworkStack, ns[k].queue_size, t));
            if ns[k].local.len() < ns[k].queue_size {
                assert forall|i: int| 0 <= i < c1.local.len() implies (#[trigger] c1.local[i]).counters_at_most(t) by {
                    if i < ns[k].local.len() { assert(c1.local[i] == ns[k].local[i]); }
                }
            }
            let ns1 = ns.update(k, c1);
            assert forall|a: int| 0 <= a < ns1.len() implies {
                &&& core_ok(#[trigger] ns1[a], CoreAction::NetworkStack, ns1[a].queue_size, t)
                &&& ns1[a].id == a
                &&& workers_ok(gs[a], CoreAction::Application, ns1[a].queue_size, t)
                &&& rotation_ok(s.last_workers_idx, a as usize, gs[a].len() as int)
            } by {
                if a != k { assert(ns1[a] == ns[a]); }
                assert(ns[a].id == a);
            }
        },
    }
}

/// Taking the first `n` requests off the list to come keeps the invariant,
/// and those taken are fresh and (in layout 1) on flows that have locks.
proof fn lemma_split_packets_ok(s: SimView, n: int, t: int)
    requires
        s.wf_at(t),
        0 <= n <= s.packets.len(),
    ensures
        (SimView { packets: s.packets.skip(n), ..s }).wf_at(t),
        forall|i: int| 0 <= i < s.packets.take(n).len() ==> {
            &&& (#[trigger] s.packets.take(n)[i]).counters_at_most(0)
            &&& s.layout matches LayoutView::Layout1(_, _, locks) ==> s.packets.take(n)[i].flow_id < locks.len()
        },
{
    let s2 = SimView { packets: s.packets.skip(n), ..s };
    assert forall|i: int| 0 <= i < s2.packets.len() implies (#[trigger] s2.packets[i]).counters_at_most(0) by {
        assert(s2.packets[i] == s.packets[i + n]);
    }
    assert forall|i: int| 0 <= i < s.packets.take(n).len() implies {
        &&& (#[trigger] s.packets.take(n)[i]).counters_at_most(0)
        &&& s.layout matches LayoutView::Layout1(_, _, locks) ==> s.packets.take(n)[i].flow_id < locks.len()
    } by {
        assert(s.packets.take(n)[i] == s.packets[i]);
    }
    if let LayoutView::Layout1(_, _, locks) = s.layout {
        assert forall|i: int| 0 <= i < s2.packets.len() implies (#[trigger] s2.packets[i]).flow_id < locks.len() by {
            assert(s2.packets[i] == s.packets[i + n]);
        }
    }
}

impl Simulation {
    /// The current tick.
    pub fn get_time(&self) -> (t: usize)
        ensures
            t == self@.t_cur,
    {
        self.t_cur
    }

    /// Whether the simulation has ticks left to run.
    pub fn is_running(&self) -> (b: bool)
        ensures
            b == (self@.t_cur < self@.t_duration),
    {
        self.t_cur < self.t_duration
    }

    /// Runs one tick of the simulation (see [`step_spec`]). It is an error
    /// when a core without a per-core count (an id of 16 or more) finishes a
    /// request, which stops the tick there, and when a request reaches an
    /// empty indirection table, which stops the tick after the cores ran.
    pub fn step(&mut self) -> (res: Result<(), TickError>)
        requires
            old(self)@.wf(),
            old(self)@.t_cur < old(self)@.t_duration,
        ensures
            res is Ok <==> tick_ok(old(self)@),
            res matches Err(TickError::UncountedCore(id)) ==> !tick_counts_ok(old(self)@) && id >= NR_COUNTED_CORES,
            res matches Err(TickError::EmptyIndirectionTable) ==> tick_counts_ok(old(self)@) && !arrivals_receivable(old(self)@),
            res is Ok ==> {
                &&& final(self)@ == step_spec(old(self)@)
                &&& final(self)@.wf()
                &&& total(old(self)@.per_core) == old(self)@.finished.len()
                    ==> total(final(self)@.per_core) == final(self)@.finished.len()
                &&& outcomes_recorded(old(self)@) ==> outcomes_recorded(final(self)@)
            },
    {
        let t = self.t_cur;
        let ghost s0 = self@;
        let uses_table = match &self.layout {
            Layout::Layout2(_) | Layout::Layout4(_, _) => true,
            _ => false,
        };
        let r = self.run_cores();
        if let Err(id) = r {
            return Err(TickError::UncountedCore(id));
        }
        let ghost s1 = self@;
        let received = self.take_arrivals();
        proof {
            let cnt = arrival_count(s1.packets, t as int);
            lemma_arrival_count(s1.packets, t as int);
            lemma_split_packets_ok(s1, cnt as int, t + 1);
            assert(views_of_requests(received@).len() == received@.len());
        }
        if uses_table && received.len() > 0 && self.nr_indirection_table_entries == 0 {
            return Err(TickError::EmptyIndirectionTable);
        }
        self.receive_arrivals(received);
        self.t_cur = t + 1;
        let nr_finished = self.finished.len();
        proof {
            let cnt = arrival_count(s0.packets, t as int);
            lemma_arrivals_ahead_skip(s0.packets, t as int);
            lemma_receive_all_clock(SimView { packets: s1.packets.skip(cnt as int), ..s1 }, s1.packets.take(cnt as int));
            if total(s0.per_core) == s0.finished.len() {
                assert(self@ == step_spec(s0));
                assert(views_of_requests(self.finished@).len() == nr_finished);
                law_counts_add_up(s0);
            }
            if outcomes_recorded(s0) {
                law_outcomes_recorded(s0);
            }
        }
        Ok(())
    }

    /// The cores' part of a tick (see [`tick_cores`]).
    fn run_cores(&mut self) -> (res: Result<(), usize>)
        requires
            old(self)@.wf(),
            old(self)@.t_cur < old(self)@.t_duration,
        ensures
            res is Ok <==> tick_counts_ok(old(self)@),
            res matches Err(id) ==> id >= NR_COUNTED_CORES,
            res is Ok ==> final(self)@ == (SimView { packets: old(self)@.packets, ..tick_cores(old(self)@) }),
            res is Ok ==> final(self)@.wf_at(old(self)@.t_cur + 1),
    {
        let t = self.t_cur;
        let ghost s0 = self@;
        match &mut self.layout {
            Layout::Layout1(forwarder, workers, locks) => {
                let ghost ws0 = views(workers@);
                proof {
                    assert forall|j: int| 0 <= j < ws0.len() implies sweepable(#[trigger] ws0[j], t as int) by {}
                }
                let r = sweep_locked(workers, locks, t, &mut self.finished, &mut self.per_core);
                if let Err(id) = r {
                    return Err(id);
                }
                let ghost ws1 = views(workers@);
                proof {
                    assert forall|j: int| 0 <= j < ws1.len() implies swept_worker(
                        #[trigger] ws1[j], CoreAction::NetworkStackAndApplicationLock, forwarder@.queue_size, t + 1) by {
                        assert(core_after(ws0[j], ws1[j], t as int, 0));
                        assert(core_after(ws0[j], ws1[j], t as int, locks@.len() as int));
                        lemma_fed_worker_swept(ws0[j], ws1[j], CoreAction::NetworkStackAndApplicationLock, forwarder@.queue_size, t as int);
                    }
                    assert forall|j: int| 0 <= j < ws1.len() implies flows_below(#[trigger] ws1[j], locks@.len() as int) by {
                        assert(core_after(ws0[j], ws1[j], t as int, locks@.len() as int));
                    }
                    lemma_forward_dispatch_ok(forwarder@, ws1, locks@, self.last_workers_idx@, t);
                }
                forward_and_dispatch(forwarder, workers, &mut self.last_workers_idx, t);
            },
            Layout::Layout2(workers) => {
                let ghost ws0 = views(workers@);
                let r = sweep_plain(workers, CoreAction::NetworkStackAndApplication, t, &mut self.finished, &mut self.per_core);
                if let Err(id) = r {
                    return Err(id);
                }
                proof {
                    assert forall|j: int| 0 <= j < ws0.len() implies
                        core_ok(#[trigger] views(workers@)[j], CoreAction::NetworkStackAndApplication, views(workers@)[j].queue_size, t + 1) by {
                        assert(core_after(ws0[j], views(workers@)[j], t as int, 0));
                    }
                }
            },
            Layout::Layout3(network_core, apps) => {
                let ghost as0 = views(apps@);
                let r = sweep_plain(apps, CoreAction::Application, t, &mut self.finished, &mut self.per_core);
                if let Err(id) = r {
                    return Err(id);
                }
                let ghost as1 = views(apps@);
                proof {
                    assert forall|j: int| 0 <= j < as1.len() implies swept_worker(
                        #[trigger] as1[j], CoreAction::Application, network_core@.queue_size, t + 1) by {
                        assert(core_after(as0[j], as1[j], t as int, 0));
                        lemma_fed_worker_swept(as0[j], as1[j], CoreAction::Application, network_core@.queue_size, t as int);
                    }
                    lemma_stack_dispatch_ok(network_core@, as1, self.last_workers_idx@, t, views_of_requests(self.dropped@));
                }
                stack_and_dispatch(network_core, apps, &mut self.last_workers_idx, t, &mut self.dropped);
            },
            Layout::Layout4(network_cores, groups) => {
                let ghost gs0 = groups@;
                let ghost ns0 = views(network_cores@);
                proof {
                    assert forall|k: int, j: int| 0 <= k < gs0.len() && 0 <= j < gs0[k]@.len() implies
                        sweepable(#[trigger] views(gs0[k]@)[j], t as int) && views(gs0[k]@)[j].action == CoreAction::Application by {
                        assert(groups_view(gs0)[k] == views(gs0[k]@));
                        assert(ns0[k].id == k);
                        assert(workers_ok(groups_view(gs0)[k], CoreAction::Application, ns0[k].queue_size, t as int));
                    }
                }
                let r = sweep_all_groups(groups, t, &mut self.finished, &mut self.per_core);
                if let Err(id) = r {
                    return Err(id);
                }
                let ghost gs1 = groups@;
                proof {
                    assert forall|k: int| 0 <= k < network_cores@.len() implies {
                        &&& core_ok(#[trigger] views(network_cores@)[k], CoreAction::NetworkStack, views(network_cores@)[k].queue_size, t as int)
                        &&& views(network_cores@)[k].id == k
                        &&& rotation_ok(self.last_workers_idx@, k as usize, groups@[k]@.len() as int)
                        &&& forall|j: int| 0 <= j < groups@[k]@.len() ==> swept_worker(
                            #[trigger] views(groups@[k]@)[j],
                            CoreAction::Application,
                            views(network_cores@)[k].queue_size,
                            t + 1,
                        )
                    } by {
                        assert(ns0[k].id == k);
                        assert(groups_view(gs0)[k] == views(gs0[k]@));
                        assert forall|j: int| 0 <= j < groups@[k]@.len() implies swept_worker(
                            #[trigger] views(groups@[k]@)[j],
                            CoreAction::Application,
                            views(network_cores@)[k].queue_size,
                            t + 1,
                        ) by {
                            assert(gs1[k]@.len() == gs0[k]@.len());
                            assert(core_after(views(gs0[k]@)[j], views(gs1[k]@)[j], t as int, 0));
                            lemma_fed_worker_swept(views(gs0[k]@)[j], views(gs1[k]@)[j], CoreAction::Application, ns0[k].queue_size, t as int);
                        }
                    }
                }
                dispatch_all_groups(network_cores, groups, &mut self.last_workers_idx, t, &mut self.dropped);
            },
        }
        proof {
            assert(self@ == (SimView { packets: s0.packets, ..tick_cores(s0) }));
        }
        Ok(())
    }

    /// Takes off the list of requests to come those that arrive now.
    fn take_arrivals(&mut self) -> (received: Vec<Request>)
        ensures
            ({
                let cnt = arrival_count(old(self)@.packets, old(self)@.t_cur as int);
                &&& views_of_requests(received@) == old(self)@.packets.take(cnt as int)
                &&& final(self)@ == (SimView { packets: old(self)@.packets.skip(cnt as int), ..old(self)@ })
            }),
    {
        broadcast use vstd::std_specs::vecdeque::group_vec_dequeue_axioms;
        let t = self.t_cur;
        let ghost s1 = self@;
        let ghost p0 = s1.packets;
        let ghost cnt = arrival_count(p0, t as int);
        proof {
            lemma_arrival_count(p0, t as int);
        }
        let mut received: Vec<Request> = Vec::new();
        proof {
            assert(p0.skip(0) =~= p0);
            assert(views_of_requests(received@) =~= p0.take(0));
            assert(views_of_requests(self.packets@) == p0);
        }
        if self.packets.len() > 0 {
            let next_arrival_time: usize = self.packets[0].get_arrival_time();
            if t == next_arrival_time {
                loop
                    invariant_except_break
                        next_arrival_time == t,
                        cnt == arrival_count(p0, t as int),
                        cnt <= p0.len(),
                        forall|i: int| 0 <= i < cnt ==> (#[trigger] p0[i]).t_arrival == t,
                        cnt < p0.len() ==> p0[cnt as int].t_arrival != t,
                        received@.len() <= cnt,
                        views_of_requests(self.packets@) == p0.skip(received@.len() as int),
                        views_of_requests(received@) == p0.take(received@.len() as int),
                        self@ == (SimView { packets: p0.skip(received@.len() as int), ..s1 }),
                    ensures
                        views_of_requests(received@) == p0.take(cnt as int),
                        self@ == (SimView { packets: p0.skip(cnt as int), ..s1 }),
                    decreases self.packets@.len(),
                {
                    let ghost m = received@.len();
                    if self.packets.len() == 0 {
                        proof {
                            assert(p0.skip(m as int).len() == 0);
                        }
                        break;
                    }
                    proof {
                        assert(self.packets@.len() > 0);
                        assert(views_of_requests(self.packets@).len() == self.packets@.len());
                        assert(p0.skip(m as int).len() == p0.len() - m);
                        assert(m < p0.len());
                        assert(views_of_requests(self.packets@)[0] == p0.skip(m as int)[0]);
                        assert(views_of_requests(self.packets@)[0] == self.packets@[0]@);
                        assert(views_of_requests(self.packets@)[0] == p0[m as int]);
                    }
                    if next_arrival_time == self.packets[0].get_arrival_time() {
                        let ghost pb = self.packets@;
                        let req = self.packets.pop_front().unwrap();
                        proof {
                            assert(self.packets@ == pb.subrange(1, pb.len() as int));
                            assert forall|i: int| 0 <= i < self.packets@.len() implies
                                #[trigger] views_of_requests(self.packets@)[i] == views_of_requests(pb)[i + 1] by {
                                assert(self.packets@[i] == pb[i + 1]);
                            }
                        }
                        let ghost rv = req@;
                        received.push(req);
                        proof {
                            assert(rv == p0[m as int]);
                            assert(views_of_requests(self.packets@) =~= p0.skip((m + 1) as int));
                            assert(views_of_requests(received@) =~= p0.take((m + 1) as int));
                        }
                    } else {
                        break;
                    }
                }
            } else {
                proof {
                    assert(cnt == 0);
                    assert(p0.skip(0) =~= p0);
                    assert(views_of_requests(received@) =~= p0.take(0));
                }
            }
        } else {
            proof {
                assert(cnt == 0);
                assert(p0.skip(0) =~= p0);
                assert(views_of_requests(received@) =~= p0.take(0));
            }
        }
        received
    }

    /// Hands the requests that arrived now to the NIC, the last of them first.
    fn receive_arrivals(&mut self, received: Vec<Request>)
        requires
            old(self)@.wf_at(old(self)@.t_cur + 1),
            old(self)@.t_cur < usize::MAX,
            forall|i: int| 0 <= i < received@.len() ==> {
                &&& (#[trigger] views_of_requests(received@)[i]).counters_at_most(0)
                &&& old(self)@.layout matches LayoutView::Layout1(_, _, locks) ==>
                    views_of_requests(received@)[i].flow_id < locks.len()
            },
            (old(self)@.layout is Layout2 || old(self)@.layout is Layout4) && received@.len() > 0
                ==> old(self)@.nr_indirection_table_entries > 0,
        ensures
            final(self)@ == receive_all(old(self)@, views_of_requests(received@)),
            final(self)@.wf_at(old(self)@.t_cur + 1),
    {
        let t = self.t_cur;
        let mut received = received;
        let ghost s2 = self@;
        let ghost arrived = views_of_requests(received@);
        loop
            invariant
                self@.wf_at(t + 1),
                self@.t_cur == t,
                t < usize::MAX,
                receive_all(self@, views_of_requests(received@)) == receive_all(s2, arrived),
                forall|i: int| 0 <= i < received@.len() ==> {
                    &&& (#[trigger] views_of_requests(received@)[i]).counters_at_most(0)
                    &&& self@.layout matches LayoutView::Layout1(_, _, locks) ==>
                        views_of_requests(received@)[i].flow_id < locks.len()
                },
                (self@.layout is Layout2 || self@.layout is Layout4) && received@.len() > 0
                    ==> self@.nr_indirection_table_entries > 0,
            ensures
                self@ == receive_all(s2, arrived),
                self@.wf_at(t + 1),
            decreases received@.len(),
        {
            let ghost rs = views_of_requests(received@);
            match received.pop() {
                Some(req) => {
                    proof {
                        assert(req@ == rs.last());
                        assert(rs[rs.len() - 1].counters_at_most(0));
                        lemma_receive_ok(self@, req@, t + 1);
                        assert(views_of_requests(received@) =~= rs.drop_last());
                    }
                    self.receive_request(req);
                    proof {
                        assert forall|i: int| 0 <= i < received@.len() implies
                            (#[trigger] views_of_requests(received@)[i]) == rs[i] by {}
                    }
                },
                None => {
                    proof {
                        assert(rs.len() == 0);
                        assert(receive_all(self@, rs) == self@);
                    }
                    break;
                },
            }
        }
    }
}

impl Simulation {
    /// Moves the clock to the arrival of the first request, as a run starts.
    pub fn start(&mut self)
        requires
            old(self)@.wf(),
            old(self)@.packets.len() > 0,
        ensures
            final(self)@ == (SimView { t_cur: old(self)@.packets[0].t_arrival, ..old(self)@ }),
            final(self)@.wf(),
    {
        broadcast use vstd::std_specs::vecdeque::group_vec_dequeue_axioms;
        proof {
            assert(views_of_requests(self.packets@)[0] == self.packets@[0]@);
            lemma_wf_later(self@, self.packets@[0]@.t_arrival as int);
        }
        self.t_cur = self.packets[0].get_arrival_time();
    }

    /// Runs the whole simulation: the clock moves to the arrival of the first
    /// request, then the simulation ticks until the end of the run. No request
    /// is lost or made up on the way. A tick that cannot be completed (see
    /// [`Simulation::step`]) stops the run with its error.
    pub fn run(&mut self) -> (res: Result<(), TickError>)
        requires
            old(self)@.wf(),
            old(self)@.packets.len() > 0,
        ensures
            res is Ok <==> run_ok(SimView { t_cur: old(self)@.packets[0].t_arrival, ..old(self)@ }),
            res matches Err(TickError::UncountedCore(id)) ==> id >= NR_COUNTED_CORES,
            res is Ok ==> {
                &&& final(self)@ == run_spec(SimView { t_cur: old(self)@.packets[0].t_arrival, ..old(self)@ })
                &&& final(self)@.wf()
                &&& final(self)@.t_cur == if old(self)@.packets[0].t_arrival < old(self)@.t_duration {
                    old(self)@.t_duration
                } else {
                    old(self)@.packets[0].t_arrival
                }
                &&& forall|v: usize| #[trigger] all_ids(final(self)@, v) == all_ids(old(self)@, v)
                &&& total(old(self)@.per_core) == old(self)@.finished.len()
                    ==> total(final(self)@.per_core) == final(self)@.finished.len()
                &&& outcomes_recorded(old(self)@) ==> outcomes_recorded(final(self)@)
            },
    {
        let ghost s0 = self@;
        let ghost a0 = s0.packets[0].t_arrival;
        self.start();
        let ghost target = run_spec(self@);
        let ghost target_ok = run_ok(self@);
        while self.t_cur < self.t_duration
            invariant
                self@.wf(),
                s0 == old(self)@,
                a0 == s0.packets[0].t_arrival,
                target_ok == run_ok(SimView { t_cur: a0, ..s0 }),
                run_spec(self@) == target,
                run_ok(self@) == target_ok,
                self@.t_duration == s0.t_duration,
                self@.t_cur == a0 || self@.t_cur <= s0.t_duration,
                self@.t_cur >= a0,
                forall|v: usize| #[trigger] all_ids(self@, v) == all_ids(s0, v),
                total(s0.per_core) == s0.finished.len() ==> total(self@.per_core) == self@.finished.len(),
                outcomes_recorded(s0) ==> outcomes_recorded(self@),
            decreases self@.t_duration - self@.t_cur,
        {
            let ghost s1 = self@;
            proof {
                lemma_step_clock(s1);
            }
            let r = self.step();
            if let Err(e) = r {
                proof {
                    assert(!run_ok(s1));
                }
                return Err(e);
            }
            proof {
                assert forall|v: usize| #[trigger] all_ids(step_spec(s1), v) == all_ids(s1, v) by {
                    law_requests_conserved(s1, v);
                }
            }
        }
        Ok(())
    }

    /// The requests finished so far, in the order they finished.
    pub fn finished_requests(&self) -> (r: &Vec<Request>)
        ensures
            views_of_requests(r@) == self@.finished,
    {
        &self.finished
    }

    /// The requests dropped so far, in the order they were dropped.
    pub fn dropped_requests(&self) -> (r: &VecDeque<Request>)
        ensures
            views_of_requests(r@) == self@.dropped,
    {
        &self.dropped
    }

    /// How many requests have been dropped.
    pub fn dropped_count(&self) -> (n: usize)
        ensures
            n == self@.dropped.len(),
    {
        broadcast use vstd::std_specs::vecdeque::group_vec_dequeue_axioms;
        self.dropped.len()
    }

    /// How many requests have been finished.
    pub fn finished_count(&self) -> (n: usize)
        ensures
            n == self@.finished.len(),
    {
        self.finished.len()
    }

    /// How many requests are still to arrive.
    pub fn pending_count(&self) -> (n: usize)
        ensures
            n == self@.packets.len(),
    {
        broadcast use vstd::std_specs::vecdeque::group_vec_dequeue_axioms;
        self.packets.len()
    }

    /// How many requests the core with id `core` has finished since the
    /// simulation was made (the counts add up over every run and tick).
    pub fn finished_by_core(&self, core: usize) -> (n: usize)
        requires
            self@.wf(),
            core < NR_COUNTED_CORES,
        ensures
            n == self@.per_core[core as int],
    {
        let counts = crate::outside::counters_slice(&self.per_core);
        counts[core]
    }
}

/// The invariant at one time holds at any later time.
proof fn lemma_wf_later(s: SimView, t: int)
    requires
        s.wf(),
        s.t_cur <= t <= usize::MAX,
        forall|i: int| 0 <= i < s.packets.len() ==> t <= (#[trigger] s.packets[i]).t_arrival,
    ensures
        (SimView { t_cur: t as usize, ..s }).wf(),
{
    let s1 = SimView { t_cur: t as usize, ..s };
    let t0 = s.t_cur as int;
    assert forall|c: CoreView| #[trigger] counters_at_most(c, t0) implies counters_at_most(c, t) by {
        assert forall|i: int| 0 <= i < c.local.len() implies (#[trigger] c.local[i]).counters_at_most(t) by {
            assert(c.local[i].counters_at_most(t0));
        }
        assert forall|i: int| 0 <= i < c.ready.len() implies (#[trigger] c.ready[i]).counters_at_most(t) by {
            assert(c.ready[i].counters_at_most(t0));
        }
    }
    match s.layout {
        LayoutView::Layout1(f, ws, locks) => {
            assert forall|i: int| 0 <= i < ws.len() implies {
                &&& core_ok(#[trigger] ws[i], CoreAction::NetworkStackAndApplicationLock, f.queue_size, t)
                &&& fed_by_dispatcher(ws[i])
            } by {
                assert(core_ok(ws[i], CoreAction::NetworkStackAndApplicationLock, f.queue_size, t0));
            }
        },
        LayoutView::Layout2(ws) => {
            assert forall|i: int| 0 <= i < ws.len() implies
                core_ok(#[trigger] ws[i], CoreAction::NetworkStackAndApplication, ws[i].queue_size, t) by {
                assert(core_ok(ws[i], CoreAction::NetworkStackAndApplication, ws[i].queue_size, t0));
            }
        },
        LayoutView::Layout3(n, apps) => {
            assert forall|i: int| 0 <= i < apps.len() implies {
                &&& core_ok(#[trigger] apps[i], CoreAction::Application, n.queue_size, t)
                &&& fed_by_dispatcher(apps[i])
            } by {
                assert(core_ok(apps[i], CoreAction::Application, n.queue_size, t0));
            }
        },
        LayoutView::Layout4(ns, gs) => {
            assert forall|k: int| 0 <= k < ns.len() implies {
                &&& core_ok(#[trigger] ns[k], CoreAction::NetworkStack, ns[k].queue_size, t)
                &&& ns[k].id == k
                &&& workers_ok(gs[k], CoreAction::Application, ns[k].queue_size, t)
                &&& rotation_ok(s1.last_workers_idx, k as usize, gs[k].len() as int)
            } by {
                assert(ns[k].id == k);
                assert forall|i: int| 0 <= i < gs[k].len() implies {
                    &&& core_ok(#[trigger] gs[k][i], CoreAction::Application, ns[k].queue_size, t)
                    &&& fed_by_dispatcher(gs[k][i])
                } by {
                    assert(core_ok(gs[k][i], CoreAction::Application, ns[k].queue_size, t0));
                }
            }
        },
    }
}

/// The mapping layout 4 prints as it builds its groups: for each application
/// core `nn + i`, in order, the network-stack core it belongs to, `(nn + i) % nn`.
pub fn application_mapping(nr_network_cores: usize, nr_application_cores: usize) -> (m: Vec<(usize, usize)>)
    requires
        nr_application_cores > 0 ==> nr_network_cores > 0,
        nr_network_cores + nr_application_cores <= usize::MAX,
    ensures
        m@.len() == nr_application_cores,
        forall|i: int| 0 <= i < nr_application_cores ==> #[trigger] m@[i] == (
            ((nr_network_cores + i) % (nr_network_cores as int)) as usize,
            (nr_network_cores + i) as usize,
        ),
{
    let mut m: Vec<(usize, usize)> = Vec::new();
    let mut i: usize = 0;
    while i < nr_application_cores
        invariant
            nr_application_cores > 0 ==> nr_network_cores > 0,
            nr_network_cores + nr_application_cores <= usize::MAX,
            i <= nr_application_cores,
            m@.len() == i,
            forall|a: int| 0 <= a < i ==> #[trigger] m@[a] == (
                ((nr_network_cores + a) % (nr_network_cores as int)) as usize,
                (nr_network_cores + a) as usize,
            ),
        decreases nr_application_cores - i,
    {
        let core_id: usize = nr_network_cores + i;
        let network_id: usize = core_id % nr_network_cores;
        m.push((network_id, core_id));
        i = i + 1;
    }
    m
}

} // verus!
