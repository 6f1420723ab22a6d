//! Reading the settings of a run from the JSON text of `config.json`.

use vstd::prelude::*;
use crate::config::{layout_error_for, SimConfig};
use crate::outside::{json_text_at, json_text_named, json_u64_at, json_u64_named, path_view};

verus! {

/// The number the text holds under the top-level key `a`.
pub open spec fn u64_at(text: Seq<char>, a: Seq<char>) -> Option<u64> {
    json_u64_named(text, seq![a])
}

/// The number the text holds under key `b` of the object under key `a`.
pub open spec fn u64_at2(text: Seq<char>, a: Seq<char>, b: Seq<char>) -> Option<u64> {
    json_u64_named(text, seq![a, b])
}

/// The string the text holds under key `b` of the object under key `a`.
pub open spec fn text_at2(text: Seq<char>, a: Seq<char>, b: Seq<char>) -> Option<Seq<char>> {
    json_text_named(text, seq![a, b])
}

/// The layout number the text gives.
pub open spec fn layout_in(text: Seq<char>) -> usize {
    (u64_at(text, "layout"@)->0) as usize
}

/// The worker cores the text gives for its layout (layouts 1 and 2; else 0).
pub open spec fn workers_in(text: Seq<char>) -> usize {
    let layout = layout_in(text);
    if layout == 1 {
        (u64_at2(text, "layout1"@, "nr_worker_cores"@)->0) as usize
    } else if layout == 2 {
        (u64_at2(text, "layout2"@, "nr_worker_cores"@)->0) as usize
    } else {
        0
    }
}

/// The application cores the text gives for its layout (layouts 3 and 4; else 0).
pub open spec fn apps_in(text: Seq<char>) -> usize {
    let layout = layout_in(text);
    if layout == 3 {
        (u64_at2(text, "layout3"@, "nr_application_cores"@)->0) as usize
    } else if layout == 4 {
        (u64_at2(text, "layout4"@, "nr_application_cores"@)->0) as usize
    } else {
        0
    }
}

/// The network-stack cores the text gives for its layout (layout 4; else 0).
pub open spec fn nets_in(text: Seq<char>) -> usize {
    if layout_in(text) == 4 {
        (u64_at2(text, "layout4"@, "nr_network_cores"@)->0) as usize
    } else {
        0
    }
}

/// The layout the text gives passes its core counts.
pub open spec fn layout_passes_in(text: Seq<char>) -> bool {
    layout_error_for(
        layout_in(text),
        (u64_at(text, "nr_total_cores"@)->0) as usize,
        workers_in(text),
        apps_in(text),
        nets_in(text),
    ) is None
}

/// Every key a run reads is in the text with a value of the right type: the
/// general ones, those of the layout named (if it is one of 1 to 4), and, when
/// that layout passes its core counts, those of the requests and the NIC.
pub open spec fn config_keys_present(text: Seq<char>) -> bool {
    &&& u64_at(text, "duration"@) is Some
    &&& u64_at(text, "queue_size"@) is Some
    &&& u64_at(text, "nr_total_cores"@) is Some
    &&& u64_at2(text, "packets"@, "nr_flows"@) is Some
    &&& u64_at(text, "layout"@) is Some
    &&& layout_in(text) == 1 ==> u64_at2(text, "layout1"@, "nr_worker_cores"@) is Some
    &&& layout_in(text) == 2 ==> u64_at2(text, "layout2"@, "nr_worker_cores"@) is Some
    &&& layout_in(text) == 3 ==> u64_at2(text, "layout3"@, "nr_application_cores"@) is Some
    &&& layout_in(text) == 4 ==> u64_at2(text, "layout4"@, "nr_network_cores"@) is Some
    &&& layout_in(text) == 4 ==> u64_at2(text, "layout4"@, "nr_application_cores"@) is Some
    &&& layout_passes_in(text) ==> {
        &&& u64_at(text, "seed"@) is Some
        &&& u64_at2(text, "packets"@, "nr_packets"@) is Some
        &&& text_at2(text, "packets"@, "distribution"@) is Some
        &&& u64_at2(text, "packets"@, "mean1"@) is Some
        &&& text_at2(text, "network_stack"@, "distribution"@) is Some
        &&& u64_at2(text, "network_stack"@, "mean1"@) is Some
        &&& text_at2(text, "application"@, "distribution"@) is Some
        &&& u64_at2(text, "application"@, "mean1"@) is Some
        &&& u64_at(text, "nr_indirection_table_entries"@) is Some
    }
}

/// `cfg` holds what the text gives: each number read, narrowed to a `usize`
/// where the setting is one; 0 for the core counts its layout does not read;
/// and, when the layout does not pass its core counts (so that nothing more is
/// read), 0 and empty strings for the settings of the requests and the NIC.
pub open spec fn config_read(text: Seq<char>, cfg: SimConfig) -> bool {
    &&& cfg.duration == (u64_at(text, "duration"@)->0) as usize
    &&& cfg.queue_size == (u64_at(text, "queue_size"@)->0) as usize
    &&& cfg.nr_total_cores == (u64_at(text, "nr_total_cores"@)->0) as usize
    &&& cfg.nr_flows == u64_at2(text, "packets"@, "nr_flows"@)->0
    &&& cfg.layout == layout_in(text)
    &&& cfg.nr_worker_cores == workers_in(text)
    &&& cfg.nr_application_cores == apps_in(text)
    &&& cfg.nr_network_cores == nets_in(text)
    &&& if layout_passes_in(text) {
        &&& cfg.seed == u64_at(text, "seed"@)->0
        &&& cfg.nr_packets == (u64_at2(text, "packets"@, "nr_packets"@)->0) as usize
        &&& cfg.packet_distribution@ == text_at2(text, "packets"@, "distribution"@)->0
        &&& cfg.arrival_mean1 == (u64_at2(text, "packets"@, "mean1"@)->0) as usize
        &&& cfg.stack_distribution@ == text_at2(text, "network_stack"@, "distribution"@)->0
        &&& cfg.stack_mean1 == (u64_at2(text, "network_stack"@, "mean1"@)->0) as usize
        &&& cfg.application_distribution@ == text_at2(text, "application"@, "distribution"@)->0
        &&& cfg.application_mean1 == (u64_at2(text, "application"@, "mean1"@)->0) as usize
        &&& cfg.nr_indirection_table_entries == (u64_at(text, "nr_indirection_table_entries"@)->0) as usize
    } else {
        &&& cfg.seed == 0
        &&& cfg.nr_packets == 0
        &&& cfg.packet_distribution@ == Seq::<char>::empty()
        &&& cfg.arrival_mean1 == 0
        &&& cfg.stack_distribution@ == Seq::<char>::empty()
        &&& cfg.stack_mean1 == 0
        &&& cfg.application_distribution@ == Seq::<char>::empty()
        &&& cfg.application_mean1 == 0
        &&& cfg.nr_indirection_table_entries == 0
    }
}

/// The number under the top-level key `a`.
fn number_at(text: &String, a: &str) -> (r: Option<u64>)
    ensures
        r == u64_at(text@, a@),
{
    let path: Vec<String> = vec![String::from_str(a)];
    proof {
        assert(path_view(path@) =~= seq![a@]);
    }
    json_u64_at(text.as_str(), &path)
}

/// The number under key `b` of the object under key `a`.
fn number_at2(text: &String, a: &str, b: &str) -> (r: Option<u64>)
    ensures
        r == u64_at2(text@, a@, b@),
{
    let path: Vec<String> = vec![String::from_str(a), String::from_str(b)];
    proof {
        assert(path_view(path@) =~= seq![a@, b@]);
    }
    json_u64_at(text.as_str(), &path)
}

/// The string under key `b` of the object under key `a`.
fn string_at2(text: &String, a: &str, b: &str) -> (r: Option<String>)
    ensures
        r matches Some(s) ==> text_at2(text@, a@, b@) == Some(s@),
        r is None ==> text_at2(text@, a@, b@) is None,
{
    let path: Vec<String> = vec![String::from_str(a), String::from_str(b)];
    proof {
        assert(path_view(path@) =~= seq![a@, b@]);
    }
    json_text_at(text.as_str(), &path)
}

/// Reads the settings of a run from the JSON text of `config.json`; `None`
/// exactly when a key the run reads is missing or holds a value of the wrong
/// type (see [`config_keys_present`] and [`config_read`]).
pub fn config_from_json(text: &String) -> (res: Option<SimConfig>)
    ensures
        res is Some <==> config_keys_present(text@),
        res matches Some(cfg) ==> config_read(text@, cfg),
{
    let duration = match number_at(text, "duration") { Some(v) => v, None => return None };
    let queue_size = match number_at(text, "queue_size") { Some(v) => v, None => return None };
    let nr_total_cores = match number_at(text, "nr_total_cores") { Some(v) => v, None => return None };
    let nr_flows = match number_at2(text, "packets", "nr_flows") { Some(v) => v, None => return None };
    let layout = match number_at(text, "layout") { Some(v) => v as usize, None => return None };
    let mut nr_worker_cores: usize = 0;
    let mut nr_application_cores: usize = 0;
    let mut nr_network_cores: usize = 0;
    if layout == 1 {
        match number_at2(text, "layout1", "nr_worker_cores") {
            Some(v) => { nr_worker_cores = v as usize; },
            None => return None,
        }
    } else if layout == 2 {
        match number_at2(text, "layout2", "nr_worker_cores") {
            Some(v) => { nr_worker_cores = v as usize; },
            None => return None,
        }
    } else if layout == 3 {
        match number_at2(text, "layout3", "nr_application_cores") {
            Some(v) => { nr_application_cores = v as usize; },
            None => return None,
        }
    } else if layout == 4 {
        match number_at2(text, "layout4", "nr_network_cores") {
            Some(v) => { nr_network_cores = v as usize; },
            None => return None,
        }
        match number_at2(text, "layout4", "nr_application_cores") {
            Some(v) => { nr_application_cores = v as usize; },
            None => return None,
        }
    }
    let total = nr_total_cores as usize;
    let mut cfg = SimConfig {
        duration: duration as usize,
        queue_size: queue_size as usize,
        nr_total_cores: total,
        nr_flows,
        layout,
        nr_worker_cores,
        nr_application_cores,
        nr_network_cores,
        seed: 0,
        nr_packets: 0,
        packet_distribution: String::from_str(""),
        arrival_mean1: 0,
        stack_distribution: String::from_str(""),
        stack_mean1: 0,
        application_distribution: String::from_str(""),
        application_mean1: 0,
        nr_indirection_table_entries: 0,
    };
    proof {
        reveal_strlit("");
    }
    if !crate::config::layout_passes(layout, total, nr_worker_cores, nr_application_cores, nr_network_cores) {
        proof {
            assert(cfg.packet_distribution@ =~= Seq::<char>::empty());
            assert(cfg.layout == layout_in(text@));
            assert(cfg.nr_worker_cores == workers_in(text@));
            assert(cfg.nr_application_cores == apps_in(text@));
            assert(cfg.nr_network_cores == nets_in(text@));
            assert(!layout_passes_in(text@));
        }
        return Some(cfg);
    }
    cfg.seed = match number_at(text, "seed") { Some(v) => v, None => return None };
    cfg.nr_packets = match number_at2(text, "packets", "nr_packets") { Some(v) => v as usize, None => return None };
    cfg.packet_distribution = match string_at2(text, "packets", "distribution") { Some(v) => v, None => return None };
    cfg.arrival_mean1 = match number_at2(text, "packets", "mean1") { Some(v) => v as usize, None => return None };
    cfg.stack_distribution = match string_at2(text, "network_stack", "distribution") { Some(v) => v, None => return None };
    cfg.stack_mean1 = match number_at2(text, "network_stack", "mean1") { Some(v) => v as usize, None => return None };
    cfg.application_distribution =
        match string_at2(text, "application", "distribution") { Some(v) => v, None => return None };
    cfg.application_mean1 = match number_at2(text, "application", "mean1") { Some(v) => v as usize, None => return None };
    cfg.nr_indirection_table_entries =
        match number_at(text, "nr_indirection_table_entries") { Some(v) => v as usize, None => return None };
    Some(cfg)
}

} // verus!
