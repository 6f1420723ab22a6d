use netstack_sim::request::Request;

#[test]
fn new_request_has_given_fields_and_nothing_started() {
    let r = Request::new(7, 3, 42, 1, 2, 5);
    assert_eq!(r.get_id(), 7);
    assert_eq!(r.get_flow_id(), 3);
    assert_eq!(r.get_arrival_time(), 42);
    assert_eq!(r.get_stack_time(), 2);
    assert_eq!(r.get_request_time(), 5);
    assert_eq!(r.get_departure_time(), 0);
    assert_eq!(r.get_start(), 0);
    assert!(!r.is_f_completed());
    assert!(!r.is_p_completed());
    assert!(!r.is_r_completed());
}

#[test]
fn setters_change_only_their_field() {
    let mut r = Request::new(1, 2, 3, 1, 1, 1);
    r.set_id(10);
    r.set_flow_id(20);
    r.set_arrival_time(30);
    r.set_departure_time(40);
    r.set_p_start(50);
    assert_eq!(r.get_id(), 10);
    assert_eq!(r.get_flow_id(), 20);
    assert_eq!(r.get_arrival_time(), 30);
    assert_eq!(r.get_departure_time(), 40);
    assert_eq!(r.get_start(), 50);
    r.set_f_start(1);
    r.set_r_start(2);
    r.set_f_end(3);
    r.set_p_end(4);
    r.set_r_end(5);
    r.set_f_dropped();
    r.set_p_dropped();
    r.set_r_dropped();
    assert_eq!(r.get_start(), 50);
    assert_eq!(r.get_id(), 10);
}

#[test]
fn forwarding_completes_at_its_time_and_stays_complete() {
    let mut r = Request::new(0, 0, 0, 3, 1, 1);
    assert!(!r.f_schedule());
    assert!(!r.f_schedule());
    assert!(r.f_schedule());
    assert!(r.f_schedule());
    assert!(r.is_f_completed());
}

#[test]
fn stack_completes_at_its_time() {
    let mut r = Request::new(0, 0, 0, 1, 2, 1);
    assert!(!r.p_schedule());
    assert!(r.p_schedule());
    assert!(r.is_p_completed());
}

#[test]
fn application_completes_at_its_time() {
    let mut r = Request::new(0, 0, 0, 1, 1, 4);
    assert!(!r.r_schedule());
    assert!(!r.r_schedule());
    assert!(!r.r_schedule());
    assert!(r.r_schedule());
    assert!(r.r_schedule());
}

#[test]
fn a_zero_time_never_completes() {
    let mut r = Request::new(0, 0, 0, 0, 0, 0);
    for _ in 0..5 {
        assert!(!r.f_schedule());
        assert!(!r.p_schedule());
        assert!(!r.r_schedule());
    }
}

#[test]
fn describe_prints_the_id() {
    let r = Request::new(7, 0, 0, 1, 1, 1);
    assert_eq!(r.describe(), "Request #7)");
    let r = Request::new(1234, 0, 0, 1, 1, 1);
    assert_eq!(r.describe(), "Request #1234)");
    let r = Request::new(0, 0, 0, 1, 1, 1);
    assert_eq!(r.describe(), "Request #0)");
}

#[test]
fn getters_report_the_last_value_set() {
    let mut r = Request::new(1, 2, 3, 1, 4, 5);
    r.set_id(10);
    r.p_schedule();
    r.set_id(11);
    r.set_f_start(7);
    r.set_r_start(8);
    assert_eq!(r.get_id(), 11);
    assert_eq!(r.get_flow_id(), 2);
    assert_eq!(r.get_arrival_time(), 3);
    assert_eq!(r.get_start(), 0);
    r.set_p_start(9);
    r.r_schedule();
    assert_eq!(r.get_start(), 9);
    assert_eq!(r.get_stack_time(), 4);
    assert_eq!(r.get_request_time(), 5);
}

#[test]
fn stack_flag_follows_its_count_with_other_calls_between() {
    let mut r = Request::new(0, 0, 0, 1, 3, 1);
    assert!(!r.p_schedule());
    r.set_departure_time(4);
    assert!(!r.p_schedule());
    r.f_schedule();
    assert!(r.p_schedule());
    r.set_p_end(2);
    assert!(r.p_schedule());
    assert!(r.is_p_completed());
}
