use netstack_sim::config::{generate_packets, SimConfig};
use netstack_sim::config_json::config_from_json;

fn text(layout: &str, extra: &str) -> String {
    format!(
        r#"{{
  "duration": 1000, "queue_size": 8, "nr_total_cores": 8, "layout": {},
  "layout1": {{ "nr_worker_cores": 3 }},
  "layout2": {{ "nr_worker_cores": 4 }},
  "layout3": {{ "nr_application_cores": 5 }},
  "layout4": {{ "nr_network_cores": 2, "nr_application_cores": 4 }},
  "packets": {{ "nr_flows": 7, "nr_packets": 50, "distribution": "constant", "mean1": 3 }},
  "network_stack": {{ "distribution": "constant", "mean1": 2 }},
  "application": {{ "distribution": "exponential", "mean1": 6 }}{}
}}"#,
        layout, extra
    )
}

fn full(layout: &str) -> String {
    text(layout, r#", "seed": 42, "nr_indirection_table_entries": 128"#)
}

#[test]
fn every_setting_is_read_from_its_key() {
    let cfg = config_from_json(&full("4")).unwrap();
    assert_eq!(cfg.duration, 1000);
    assert_eq!(cfg.queue_size, 8);
    assert_eq!(cfg.nr_total_cores, 8);
    assert_eq!(cfg.layout, 4);
    assert_eq!(cfg.nr_network_cores, 2);
    assert_eq!(cfg.nr_application_cores, 4);
    assert_eq!(cfg.nr_worker_cores, 0);
    assert_eq!(cfg.nr_flows, 7);
    assert_eq!(cfg.nr_packets, 50);
    assert_eq!(cfg.seed, 42);
    assert_eq!(cfg.packet_distribution, "constant");
    assert_eq!(cfg.arrival_mean1, 3);
    assert_eq!(cfg.stack_distribution, "constant");
    assert_eq!(cfg.stack_mean1, 2);
    assert_eq!(cfg.application_distribution, "exponential");
    assert_eq!(cfg.application_mean1, 6);
    assert_eq!(cfg.nr_indirection_table_entries, 128);
}

#[test]
fn only_the_named_layout_keys_are_read() {
    let cfg = config_from_json(&full("1")).unwrap();
    assert_eq!(cfg.nr_worker_cores, 3);
    assert_eq!((cfg.nr_application_cores, cfg.nr_network_cores), (0, 0));
    let cfg = config_from_json(&full("2")).unwrap();
    assert_eq!(cfg.nr_worker_cores, 4);
    let cfg = config_from_json(&full("3")).unwrap();
    assert_eq!(cfg.nr_application_cores, 5);
    assert_eq!(cfg.nr_worker_cores, 0);
}

#[test]
fn a_missing_or_mistyped_key_gives_none() {
    assert!(config_from_json(&text("4", "")).is_none());
    assert!(config_from_json(&text("4", r#", "seed": "x", "nr_indirection_table_entries": 1"#)).is_none());
    assert!(config_from_json(&"not json".to_string()).is_none());
    assert!(config_from_json(&full("4").replace("\"duration\"", "\"span\"")).is_none());
}

#[test]
fn a_layout_that_fails_its_core_count_needs_no_more_keys() {
    let cfg = config_from_json(&text("7", "")).unwrap();
    assert_eq!(cfg.layout, 7);
    assert_eq!(cfg.seed, 0);
    assert_eq!(cfg.nr_packets, 0);
    assert_eq!(cfg.packet_distribution, "");
    let cfg = config_from_json(&text("3", "").replace("\"nr_application_cores\": 5", "\"nr_application_cores\": 9")).unwrap();
    assert_eq!(cfg.nr_application_cores, 9);
    assert_eq!(cfg.nr_indirection_table_entries, 0);
}

fn flows(seed: u64) -> Vec<usize> {
    let mut cfg: SimConfig = config_from_json(&full("2")).unwrap();
    cfg.seed = seed;
    cfg.nr_flows = 1000;
    cfg.nr_packets = 20;
    let (ps, _) = generate_packets(&cfg);
    ps.iter().map(|p| p.get_flow_id()).collect()
}

#[test]
fn the_flows_come_from_the_seeded_generator() {
    let a = flows(42);
    assert_eq!(a, flows(42));
    assert!(a.iter().any(|&f| f != a[0]));
    assert!(a.iter().all(|&f| f < 1000));
    assert_ne!(a, flows(43));
}
