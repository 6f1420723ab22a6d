use netstack_sim::config::{generate_packets, is_constant, ConfigError, SimConfig};
use netstack_sim::simulation::{application_mapping, Simulation, TickError};

fn config(layout: usize) -> SimConfig {
    SimConfig {
        duration: 30,
        queue_size: 4,
        nr_total_cores: 8,
        nr_flows: 1,
        layout,
        nr_worker_cores: 2,
        nr_application_cores: 2,
        nr_network_cores: 1,
        seed: 42,
        nr_packets: 2,
        packet_distribution: "constant".to_string(),
        arrival_mean1: 5,
        stack_distribution: "constant".to_string(),
        stack_mean1: 2,
        application_distribution: "constant".to_string(),
        application_mean1: 1,
        nr_indirection_table_entries: 1,
    }
}

fn tick_to_end(sim: &mut Simulation) {
    sim.start();
    while sim.is_running() {
        sim.step().unwrap();
    }
}

#[test]
fn distribution_names() {
    assert!(is_constant(&"constant".to_string()));
    assert!(!is_constant(&"exponential".to_string()));
    assert!(!is_constant(&"Constant".to_string()));
}

#[test]
fn packets_arrive_at_multiples_of_the_mean() {
    let mut cfg = config(2);
    cfg.nr_packets = 3;
    cfg.nr_flows = 4;
    let (ps, _) = generate_packets(&cfg);
    assert_eq!(ps.len(), 3);
    for (i, p) in ps.iter().enumerate() {
        assert_eq!(p.get_id(), i);
        assert_eq!(p.get_arrival_time(), 5 * (i + 1));
        assert_eq!(p.get_stack_time(), 2);
        assert_eq!(p.get_request_time(), 1);
        assert!(p.get_flow_id() < 4);
    }
}

#[test]
fn other_distributions_arrive_at_100_with_unit_times() {
    let mut cfg = config(2);
    cfg.packet_distribution = "poisson".to_string();
    cfg.stack_distribution = "poisson".to_string();
    cfg.application_distribution = "poisson".to_string();
    let (ps, _) = generate_packets(&cfg);
    for p in ps.iter() {
        assert_eq!(p.get_arrival_time(), 100);
        assert_eq!(p.get_stack_time(), 1);
        assert_eq!(p.get_request_time(), 1);
    }
}

#[test]
fn a_draw_picks_the_flow_by_remainder() {
    let mut cfg = config(2);
    cfg.nr_flows = 3;
    let r = cfg.packet(5, 17, 7, 2, 3);
    assert_eq!(r.get_flow_id(), 1);
    assert_eq!(r.get_id(), 5);
    assert_eq!(r.get_arrival_time(), 17);
    assert_eq!(r.get_stack_time(), 2);
    assert_eq!(r.get_request_time(), 3);
}

#[test]
fn unknown_layout_is_refused() {
    let cfg = config(5);
    assert!(matches!(Simulation::new(&cfg), Err(ConfigError::UnknownLayout)));
}

#[test]
fn too_many_cores_are_refused() {
    let mut cfg = config(1);
    cfg.nr_worker_cores = 3;
    cfg.nr_total_cores = 3;
    assert!(matches!(Simulation::new(&cfg), Err(ConfigError::CoreCount)));
    let mut cfg = config(2);
    cfg.nr_worker_cores = 9;
    assert!(matches!(Simulation::new(&cfg), Err(ConfigError::CoreCount)));
    let mut cfg = config(3);
    cfg.nr_application_cores = 8;
    assert!(matches!(Simulation::new(&cfg), Err(ConfigError::CoreCount)));
    let mut cfg = config(4);
    cfg.nr_network_cores = 4;
    cfg.nr_application_cores = 5;
    assert!(matches!(Simulation::new(&cfg), Err(ConfigError::CoreCount)));
}

#[test]
fn layout_4_needs_enough_application_cores() {
    let mut cfg = config(4);
    cfg.nr_network_cores = 2;
    cfg.nr_application_cores = 1;
    assert!(matches!(Simulation::new(&cfg), Err(ConfigError::TooFewApplicationCores)));
}

#[test]
fn exactly_enough_cores_are_accepted() {
    let mut cfg = config(1);
    cfg.nr_worker_cores = 2;
    cfg.nr_total_cores = 3;
    assert!(Simulation::new(&cfg).is_ok());
}

#[test]
fn buildable_configurations() {
    assert!(config(1).is_buildable());
    let mut cfg = config(2);
    cfg.nr_flows = 0;
    assert!(!cfg.is_buildable());
    let mut cfg = config(2);
    cfg.nr_indirection_table_entries = 0;
    assert!(cfg.is_buildable());
    let mut cfg = config(2);
    cfg.arrival_mean1 = usize::MAX;
    assert!(!cfg.is_buildable());
    let mut cfg = config(2);
    cfg.nr_worker_cores = 0;
    assert!(!cfg.is_buildable());
}

#[test]
fn layout_4_mapping_goes_round_robin() {
    assert_eq!(application_mapping(2, 3), vec![(0, 2), (1, 3), (0, 4)]);
    assert_eq!(application_mapping(1, 2), vec![(0, 1), (0, 2)]);
    assert_eq!(application_mapping(0, 0), vec![]);
}

#[test]
fn new_simulation_starts_empty() {
    let sim = Simulation::new(&config(3)).ok().unwrap();
    assert_eq!(sim.get_time(), 0);
    assert_eq!(sim.pending_count(), 2);
    assert_eq!(sim.finished_count(), 0);
    assert_eq!(sim.dropped_count(), 0);
    for c in 0..16 {
        assert_eq!(sim.finished_by_core(c), 0);
    }
}

#[test]
fn start_moves_the_clock_to_the_first_arrival() {
    let mut sim = Simulation::new(&config(2)).ok().unwrap();
    sim.start();
    assert_eq!(sim.get_time(), 5);
    sim.step().unwrap();
    assert_eq!(sim.get_time(), 6);
    assert_eq!(sim.pending_count(), 1);
}

#[test]
fn layout_1_forwards_to_the_next_idle_worker() {
    let mut sim = Simulation::new(&config(1)).ok().unwrap();
    sim.run().unwrap();
    assert_eq!(sim.get_time(), 30);
    assert_eq!(sim.finished_count(), 2);
    assert_eq!(sim.dropped_count(), 0);
    assert_eq!(sim.finished_by_core(2), 2);
    assert_eq!(sim.finished_by_core(1), 0);
    let done = sim.finished_requests();
    assert_eq!(done[0].get_id(), 0);
    assert_eq!(done[0].get_start(), 8);
    assert_eq!(done[0].get_departure_time(), 11);
    assert_eq!(done[1].get_id(), 1);
    assert_eq!(done[1].get_start(), 13);
    assert_eq!(done[1].get_departure_time(), 16);
}

#[test]
fn layout_2_runs_both_phases_on_the_receiving_worker() {
    let mut cfg = config(2);
    cfg.nr_worker_cores = 1;
    cfg.application_mean1 = 3;
    cfg.duration = 40;
    cfg.arrival_mean1 = 10;
    let mut sim = Simulation::new(&cfg).ok().unwrap();
    sim.run().unwrap();
    assert_eq!(sim.finished_count(), 2);
    assert_eq!(sim.finished_by_core(0), 2);
    let done = sim.finished_requests();
    assert_eq!(done[0].get_start(), 11);
    assert_eq!(done[0].get_departure_time(), 16);
    assert_eq!(done[1].get_start(), 21);
    assert_eq!(done[1].get_departure_time(), 26);
}

#[test]
fn layout_3_hands_on_in_round_robin() {
    let mut cfg = config(3);
    cfg.stack_mean1 = 1;
    cfg.application_mean1 = 2;
    let mut sim = Simulation::new(&cfg).ok().unwrap();
    sim.run().unwrap();
    assert_eq!(sim.finished_count(), 2);
    assert_eq!(sim.finished_by_core(2), 1);
    assert_eq!(sim.finished_by_core(1), 1);
    let done = sim.finished_requests();
    assert_eq!(done[0].get_id(), 0);
    assert_eq!(done[0].get_departure_time(), 10);
    assert_eq!(done[1].get_id(), 1);
    assert_eq!(done[1].get_departure_time(), 15);
}

#[test]
fn layout_4_hands_on_within_the_group() {
    let mut cfg = config(4);
    cfg.nr_network_cores = 1;
    cfg.nr_application_cores = 1;
    cfg.stack_mean1 = 1;
    cfg.application_mean1 = 1;
    let mut sim = Simulation::new(&cfg).ok().unwrap();
    sim.run().unwrap();
    assert_eq!(sim.finished_count(), 2);
    assert_eq!(sim.finished_by_core(1), 2);
    let done = sim.finished_requests();
    assert_eq!(done[0].get_departure_time(), 10);
    assert_eq!(done[1].get_departure_time(), 15);
}

#[test]
fn full_queues_drop_the_requests_received_later() {
    let mut cfg = config(2);
    cfg.nr_worker_cores = 1;
    cfg.queue_size = 1;
    cfg.nr_packets = 3;
    cfg.packet_distribution = "poisson".to_string();
    cfg.stack_distribution = "poisson".to_string();
    cfg.application_distribution = "poisson".to_string();
    cfg.duration = 110;
    let mut sim = Simulation::new(&cfg).ok().unwrap();
    sim.run().unwrap();
    assert_eq!(sim.finished_count(), 1);
    assert_eq!(sim.dropped_count(), 2);
    let done = sim.finished_requests();
    assert_eq!(done[0].get_id(), 2);
    assert_eq!(done[0].get_departure_time(), 103);
    let dropped = sim.dropped_requests();
    assert_eq!(dropped[0].get_id(), 1);
    assert_eq!(dropped[1].get_id(), 0);
}

#[test]
fn every_request_is_accounted_for_at_every_tick() {
    let mut cfg = config(3);
    cfg.nr_packets = 6;
    cfg.queue_size = 1;
    cfg.arrival_mean1 = 1;
    cfg.duration = 12;
    let mut sim = Simulation::new(&cfg).ok().unwrap();
    sim.start();
    while sim.is_running() {
        sim.step().unwrap();
        assert!(sim.finished_count() + sim.dropped_count() + sim.pending_count() <= 6);
    }
    assert!(sim.finished_count() + sim.dropped_count() <= 6);
}

#[test]
fn run_is_start_then_ticks_to_the_end() {
    for layout in 1..5 {
        let mut cfg = config(layout);
        cfg.nr_packets = 5;
        cfg.arrival_mean1 = 2;
        let mut by_run = Simulation::new(&cfg).ok().unwrap();
        let mut by_hand = Simulation::new(&cfg).ok().unwrap();
        by_run.run().unwrap();
        tick_to_end(&mut by_hand);
        assert_eq!(by_run.get_time(), 30);
        assert_eq!(by_hand.get_time(), 30);
        assert_eq!(by_run.finished_count(), by_hand.finished_count());
        assert_eq!(by_run.dropped_count(), by_hand.dropped_count());
        assert_eq!(by_run.pending_count(), by_hand.pending_count());
        for c in 0..16 {
            assert_eq!(by_run.finished_by_core(c), by_hand.finished_by_core(c));
        }
        assert_eq!(by_run.finished_count() + by_run.dropped_count(), 5);
    }
}

#[test]
fn run_stops_at_a_first_arrival_past_the_end() {
    let mut cfg = config(2);
    cfg.duration = 3;
    let mut sim = Simulation::new(&cfg).ok().unwrap();
    sim.run().unwrap();
    assert_eq!(sim.get_time(), 5);
    assert_eq!(sim.pending_count(), 2);
    assert_eq!(sim.finished_count(), 0);
}

#[test]
fn per_core_counts_add_up_to_the_finished_requests() {
    for layout in 1..5 {
        let mut cfg = config(layout);
        cfg.nr_packets = 7;
        cfg.nr_flows = 3;
        cfg.arrival_mean1 = 1;
        cfg.queue_size = 2;
        let mut sim = Simulation::new(&cfg).ok().unwrap();
        sim.start();
        while sim.is_running() {
            sim.step().unwrap();
            let counted: usize = (0..16).map(|c| sim.finished_by_core(c)).sum();
            assert_eq!(counted, sim.finished_count());
        }
    }
}

#[test]
fn finished_requests_have_completed_their_application() {
    for layout in 1..5 {
        let mut cfg = config(layout);
        cfg.nr_packets = 6;
        cfg.nr_flows = 2;
        cfg.arrival_mean1 = 1;
        cfg.queue_size = 1;
        let mut sim = Simulation::new(&cfg).ok().unwrap();
        sim.run().unwrap();
        assert!(sim.finished_count() > 0);
        for r in sim.finished_requests().iter() {
            assert!(r.is_r_completed());
            assert!(r.get_departure_time() > r.get_arrival_time());
        }
        for r in sim.dropped_requests().iter() {
            assert!(!r.is_r_completed());
        }
    }
}

#[test]
fn cores_without_a_count_may_run_as_long_as_they_finish_nothing() {
    let mut cfg = config(2);
    cfg.nr_total_cores = 20;
    cfg.nr_worker_cores = 20;
    cfg.nr_packets = 4;
    let mut sim = Simulation::new(&cfg).ok().unwrap();
    assert_eq!(sim.run(), Ok(()));
    assert_eq!(sim.finished_count(), 4);
    assert_eq!(sim.finished_by_core(0), 4);
}

#[test]
fn a_core_without_a_count_that_finishes_a_request_is_an_error() {
    let mut cfg = config(3);
    cfg.nr_total_cores = 20;
    cfg.nr_application_cores = 17;
    cfg.nr_packets = 20;
    cfg.stack_mean1 = 1;
    cfg.application_mean1 = 1;
    cfg.duration = 200;
    let mut sim = Simulation::new(&cfg).ok().unwrap();
    assert_eq!(sim.run(), Err(TickError::UncountedCore(16)));
}

#[test]
fn an_empty_indirection_table_fails_only_when_a_request_arrives() {
    let mut cfg = config(4);
    cfg.nr_network_cores = 1;
    cfg.nr_application_cores = 1;
    cfg.nr_indirection_table_entries = 0;
    let mut sim = Simulation::new(&cfg).ok().unwrap();
    sim.start();
    assert_eq!(sim.step(), Err(TickError::EmptyIndirectionTable));

    let mut cfg = config(2);
    cfg.nr_indirection_table_entries = 0;
    cfg.duration = 4;
    let mut sim = Simulation::new(&cfg).ok().unwrap();
    assert_eq!(sim.run(), Ok(()));
    assert_eq!(sim.get_time(), 5);
    assert_eq!(sim.pending_count(), 2);
}

#[test]
fn layout_errors_come_before_the_requests_are_made() {
    let mut cfg = config(5);
    cfg.nr_flows = 0;
    assert!(cfg.is_buildable());
    assert!(matches!(Simulation::new(&cfg), Err(ConfigError::UnknownLayout)));
    let mut cfg = config(1);
    cfg.nr_worker_cores = 8;
    cfg.arrival_mean1 = usize::MAX;
    assert!(cfg.is_buildable());
    assert!(matches!(Simulation::new(&cfg), Err(ConfigError::CoreCount)));
    let mut cfg = config(3);
    cfg.nr_application_cores = usize::MAX;
    assert!(!cfg.is_buildable());
}

#[test]
fn a_second_run_starts_from_the_next_request_to_come() {
    let mut cfg = config(2);
    cfg.duration = 7;
    let mut sim = Simulation::new(&cfg).ok().unwrap();
    assert_eq!(sim.run(), Ok(()));
    assert_eq!(sim.get_time(), 7);
    assert_eq!(sim.pending_count(), 1);
    assert_eq!(sim.run(), Ok(()));
    assert_eq!(sim.get_time(), 10);
    assert_eq!(sim.pending_count(), 1);
}
