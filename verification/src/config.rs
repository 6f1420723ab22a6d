//! The settings of a run, and the requests they describe.

use std::collections::VecDeque;
use vstd::prelude::*;
use crate::request::{Request, RequestView};
use crate::outside::{next_random, seeded_rng, FlowRng};
use crate::sweep::views_of_requests;

verus! {

/// How many ticks the forwarding core spends on a request. No setting names
/// it: the configuration gives the network-stack and application times only,
/// and forwarding takes one tick, as one request is forwarded per tick.
pub const FORWARD_TIME: usize = 1;

/// How many cores have a count of finished requests.
pub const NR_COUNTED_CORES: usize = 16;

/// The settings of a simulation run, as plain values.
pub struct SimConfig {
    /// How many ticks the simulation runs for.
    pub duration: usize,
    /// How many requests each queue of each core may hold.
    pub queue_size: usize,
    /// How many cores the server has.
    pub nr_total_cores: usize,
    /// How many flows the requests are spread over.
    pub nr_flows: u64,
    /// Which layout (1 to 4) the cores follow.
    pub layout: usize,
    /// Worker cores of layout 1 or layout 2.
    pub nr_worker_cores: usize,
    /// Application cores of layout 3 or layout 4.
    pub nr_application_cores: usize,
    /// Network-stack cores of layout 4.
    pub nr_network_cores: usize,
    /// The seed of the generator that picks each request's flow.
    pub seed: u64,
    /// How many requests arrive in all.
    pub nr_packets: usize,
    /// The distribution of the time between arrivals.
    pub packet_distribution: String,
    /// The mean time between arrivals.
    pub arrival_mean1: usize,
    /// The distribution of network-stack times.
    pub stack_distribution: String,
    /// The mean network-stack time.
    pub stack_mean1: usize,
    /// The distribution of application times.
    pub application_distribution: String,
    /// The mean application time.
    pub application_mean1: usize,
    /// How many entries the NIC's indirection table has.
    pub nr_indirection_table_entries: usize,
}

/// Why a configuration describes no server.
#[derive(Clone, Copy, PartialEq, Eq, Structural, Debug)]
pub enum ConfigError {
    /// The layout needs more cores than the server has.
    CoreCount,
    /// Layout 4 has fewer application cores than network-stack cores.
    TooFewApplicationCores,
    /// The layout number is not 1, 2, 3 or 4.
    UnknownLayout,
}

/// Whether a distribution's name is `constant`.
pub open spec fn is_constant_name(name: Seq<char>) -> bool {
    name == "constant"@
}

/// Tells whether a distribution's name is `constant`.
pub fn is_constant(name: &String) -> (b: bool)
    ensures
        b == is_constant_name(name@),
{
    let constant = String::from_str("constant");
    *name == constant
}

/// The error that layout `layout` gives on a server of `total` cores, with
/// `workers` worker cores (layouts 1 and 2), `apps` application cores (layouts
/// 3 and 4) and `nets` network-stack cores (layout 4), if any.
pub open spec fn layout_error_for(layout: usize, total: usize, workers: usize, apps: usize, nets: usize)
    -> Option<ConfigError>
{
    if layout == 1 {
        if workers + 1 > total { Some(ConfigError::CoreCount) } else { None }
    } else if layout == 2 {
        if workers > total { Some(ConfigError::CoreCount) } else { None }
    } else if layout == 3 {
        if apps + 1 > total { Some(ConfigError::CoreCount) } else { None }
    } else if layout == 4 {
        if nets + apps > total {
            Some(ConfigError::CoreCount)
        } else if apps < nets {
            Some(ConfigError::TooFewApplicationCores)
        } else {
            None
        }
    } else {
        Some(ConfigError::UnknownLayout)
    }
}

/// Tells whether layout `layout` passes its core counts (see [`layout_error_for`]).
pub(crate) fn layout_passes(layout: usize, total: usize, workers: usize, apps: usize, nets: usize) -> (b: bool)
    ensures
        b == (layout_error_for(layout, total, workers, apps, nets) is None),
{
    if layout == 1 {
        workers < total
    } else if layout == 2 {
        workers <= total
    } else if layout == 3 {
        apps < total
    } else if layout == 4 {
        nets <= total && apps <= total - nets && nets <= apps
    } else {
        false
    }
}

impl SimConfig {
    /// The error the configuration's layout gives, if any.
    pub open spec fn layout_error(self) -> Option<ConfigError> {
        layout_error_for(
            self.layout,
            self.nr_total_cores,
            self.nr_worker_cores,
            self.nr_application_cores,
            self.nr_network_cores,
        )
    }

    /// How many NIC queues the layout has: one per core that receives from the NIC.
    pub open spec fn nr_queues(self) -> int {
        if self.layout == 2 {
            self.nr_worker_cores as int
        } else if self.layout == 4 {
            self.nr_network_cores as int
        } else {
            1
        }
    }

    /// When request `i` (counting from 0) arrives.
    pub open spec fn arrival_of(self, i: int) -> int {
        if is_constant_name(self.packet_distribution@) { (i + 1) * self.arrival_mean1 } else { 100 }
    }

    /// The network-stack time of every request.
    pub open spec fn stack_ticks(self) -> usize {
        if is_constant_name(self.stack_distribution@) { self.stack_mean1 } else { 1 }
    }

    /// The application time of every request.
    pub open spec fn application_ticks(self) -> usize {
        if is_constant_name(self.application_distribution@) { self.application_mean1 } else { 1 }
    }

    /// The requests can be made: a flow can be picked for each, and no arrival
    /// time overflows.
    pub open spec fn packets_fit(self) -> bool {
        &&& self.nr_packets > 0 ==> self.nr_flows > 0
        &&& is_constant_name(self.packet_distribution@)
                ==> self.nr_packets * self.arrival_mean1 <= usize::MAX
    }

    /// The configuration can be checked and built without arithmetic overflow
    /// or division by zero: its core counts can be checked against the
    /// server's, and, when they pass, the layout, the requests and the
    /// indirection table can be built.
    pub open spec fn buildable(self) -> bool {
        &&& self.layout == 1 ==> self.nr_worker_cores < usize::MAX
        &&& self.layout == 3 ==> self.nr_application_cores < usize::MAX
        &&& self.layout == 4 ==> self.nr_network_cores + self.nr_application_cores <= usize::MAX
        &&& self.layout_error() is None ==> {
            &&& self.layout == 4 && self.nr_application_cores > 0 ==> self.nr_network_cores > 0
            &&& self.layout == 1 ==> self.nr_flows <= usize::MAX
            &&& self.packets_fit()
            &&& self.nr_indirection_table_entries > 0 ==> self.nr_queues() > 0
        }
    }

    /// Tells whether the configuration can be built without arithmetic
    /// overflow or division by zero (see [`SimConfig::buildable`]).
    pub fn is_buildable(&self) -> (b: bool)
        ensures
            b == self.buildable(),
    {
        let layout_sums_fit = if self.layout == 1 {
            self.nr_worker_cores < usize::MAX
        } else if self.layout == 3 {
            self.nr_application_cores < usize::MAX
        } else if self.layout == 4 {
            self.nr_network_cores <= usize::MAX - self.nr_application_cores
        } else {
            true
        };
        if !layout_sums_fit {
            return false;
        }
        let layout_passes = if self.layout == 1 {
            self.nr_worker_cores + 1 <= self.nr_total_cores
        } else if self.layout == 2 {
            self.nr_worker_cores <= self.nr_total_cores
        } else if self.layout == 3 {
            self.nr_application_cores + 1 <= self.nr_total_cores
        } else if self.layout == 4 {
            self.nr_network_cores + self.nr_application_cores <= self.nr_total_cores
                && self.nr_network_cores <= self.nr_application_cores
        } else {
            false
        };
        if !layout_passes {
            return true;
        }
        let mapping_fits = self.layout != 4 || self.nr_application_cores == 0 || self.nr_network_cores > 0;
        let nr_queues: usize = if self.layout == 2 {
            self.nr_worker_cores
        } else if self.layout == 4 {
            self.nr_network_cores
        } else {
            1
        };
        let flows_fit = (self.layout != 1 || self.nr_flows as u128 <= usize::MAX as u128)
            && (self.nr_packets == 0 || self.nr_flows > 0);
        let arrivals_fit = !is_constant(&self.packet_distribution)
            || self.arrival_mean1 == 0
            || self.nr_packets <= usize::MAX / self.arrival_mean1;
        proof {
            if self.arrival_mean1 > 0 {
                let n = self.nr_packets as int;
                let m = self.arrival_mean1 as int;
                let q = usize::MAX as int / m;
                assert(n <= q ==> n * m <= usize::MAX) by (nonlinear_arith)
                    requires m > 0, q == usize::MAX as int / m, n >= 0;
                assert(n > q ==> n * m > usize::MAX) by (nonlinear_arith)
                    requires m > 0, q == usize::MAX as int / m, n >= 0;
            }
        }
        let table_fits = self.nr_indirection_table_entries == 0 || nr_queues > 0;
        mapping_fits && flows_fit && arrivals_fit && table_fits
    }

    /// Request `i`, arriving at `t_arrival`, on the flow that the random number `draw` picks.
    pub fn packet(&self, i: usize, t_arrival: usize, draw: u64, stack_time: usize, application_time: usize)
        -> (r: Request)
        requires
            self.nr_flows > 0,
        ensures
            r@ == RequestView::arrived(
                i,
                (draw % self.nr_flows) as usize,
                t_arrival,
                FORWARD_TIME,
                stack_time,
                application_time,
            ),
            r@.flow_id < self.nr_flows,
    {
        let flow: usize = (draw % self.nr_flows) as usize;
        Request::new(i, flow, t_arrival, FORWARD_TIME, stack_time, application_time)
    }
}

/// Requests come in order of arrival.
pub open spec fn sorted_by_arrival(rs: Seq<RequestView>) -> bool {
    forall|i: int, j: int| 0 <= i <= j < rs.len() ==> rs[i].t_arrival <= rs[j].t_arrival
}

/// The requests that will arrive, given the numbers `drawn` from the flow
/// generator: request `i` has id `i`, arrives as the configuration says, and is
/// on flow `drawn[i] % nr_flows` (below `nr_flows`).
pub open spec fn planned_packets(cfg: SimConfig, ps: Seq<RequestView>, drawn: Seq<u64>) -> bool {
    &&& ps.len() == cfg.nr_packets
    &&& drawn.len() == ps.len()
    &&& forall|i: int| 0 <= i < ps.len() ==> {
        &&& #[trigger] ps[i] == RequestView::arrived(
            i as usize,
            (drawn[i] % cfg.nr_flows) as usize,
            cfg.arrival_of(i) as usize,
            FORWARD_TIME,
            cfg.stack_ticks(),
            cfg.application_ticks(),
        )
        &&& ps[i].flow_id < cfg.nr_flows
    }
}

/// Makes every request of the run, in order of arrival, with the generator
/// that picked their flows: it is seeded from the configuration's seed, and
/// its `i`-th number picks the flow of request `i`.
pub fn generate_packets(cfg: &SimConfig) -> (res: (VecDeque<Request>, FlowRng))
    requires
        cfg.packets_fit(),
    ensures
        res.1.seed() == cfg.seed,
        planned_packets(*cfg, views_of_requests(res.0@), res.1.drawn()),
        sorted_by_arrival(views_of_requests(res.0@)),
{
    let mut rng = seeded_rng(cfg.seed);
    let mut packets: VecDeque<Request> = VecDeque::new();
    let arrival_constant = is_constant(&cfg.packet_distribution);
    let stack_time: usize = if is_constant(&cfg.stack_distribution) { cfg.stack_mean1 } else { 1 };
    let application_time: usize =
        if is_constant(&cfg.application_distribution) { cfg.application_mean1 } else { 1 };
    let n = cfg.nr_packets;
    let mut last_t_arrival: usize = 0;
    let mut i: usize = 0;
    while i < n
        invariant
            cfg.packets_fit(),
            n == cfg.nr_packets,
            i <= n,
            arrival_constant == is_constant_name(cfg.packet_distribution@),
            stack_time == cfg.stack_ticks(),
            application_time == cfg.application_ticks(),
            packets@.len() == i,
            rng.seed() == cfg.seed,
            rng.drawn().len() == i,
            i > 0 ==> last_t_arrival == cfg.arrival_of(i - 1),
            arrival_constant ==> last_t_arrival == i * cfg.arrival_mean1,
            forall|k: int| 0 <= k < i ==> {
                &&& #[trigger] packets@[k]@ == RequestView::arrived(
                    k as usize,
                    (rng.drawn()[k] % cfg.nr_flows) as usize,
                    cfg.arrival_of(k) as usize,
                    FORWARD_TIME,
                    stack_time,
                    application_time,
                )
                &&& packets@[k]@.flow_id < cfg.nr_flows
            },
        decreases n - i,
    {
        if arrival_constant {
            proof {
                assert((i + 1) * cfg.arrival_mean1 <= n * cfg.arrival_mean1) by (nonlinear_arith)
                    requires i + 1 <= n;
                assert((i + 1) * cfg.arrival_mean1 == i * cfg.arrival_mean1 + cfg.arrival_mean1)
                    by (nonlinear_arith);
            }
            last_t_arrival = last_t_arrival + cfg.arrival_mean1;
        } else {
            last_t_arrival = 100;
        }
        let draw: u64 = next_random(&mut rng);
        let req = cfg.packet(i, last_t_arrival, draw, stack_time, application_time);
        packets.push_back(req);
        i = i + 1;
    }
    proof {
        lemma_arrivals_in_range(*cfg);
        assert(planned_packets(*cfg, views_of_requests(packets@), rng.drawn()));
        assert forall|a: int, b: int| 0 <= a <= b < views_of_requests(packets@).len() implies
            views_of_requests(packets@)[a].t_arrival <= views_of_requests(packets@)[b].t_arrival by {
            assert(packets@[a]@ == views_of_requests(packets@)[a]);
            assert(packets@[b]@ == views_of_requests(packets@)[b]);
        }
    }
    (packets, rng)
}

/// Arrival times fit a `usize` and never decrease from one request to the next.
proof fn lemma_arrivals_in_range(cfg: SimConfig)
    requires
        cfg.packets_fit(),
    ensures
        forall|a: int| 0 <= a < cfg.nr_packets ==> 0 <= #[trigger] cfg.arrival_of(a) <= usize::MAX,
        forall|a: int, b: int| 0 <= a <= b < cfg.nr_packets ==>
            #[trigger] cfg.arrival_of(a) <= #[trigger] cfg.arrival_of(b),
{
    let m = cfg.arrival_mean1 as int;
    let n = cfg.nr_packets as int;
    if is_constant_name(cfg.packet_distribution@) {
        assert forall|a: int| 0 <= a < n implies 0 <= #[trigger] cfg.arrival_of(a) <= usize::MAX by {
            assert(0 <= (a + 1) * m <= n * m) by (nonlinear_arith)
                requires 0 <= a < n, 0 <= m;
        }
        assert forall|a: int, b: int| 0 <= a <= b < n implies
            #[trigger] cfg.arrival_of(a) <= #[trigger] cfg.arrival_of(b) by {
            assert((a + 1) * m <= (b + 1) * m) by (nonlinear_arith)
                requires 0 <= a <= b, 0 <= m;
        }
    }
}

} // verus!
