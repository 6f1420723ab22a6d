use netstack_sim::request::Request;
use netstack_sim::worker_core::{Core, CoreAction, CoreState};

fn finished(s: CoreState) -> Request {
    match s {
        CoreState::Finished(r) => r,
        CoreState::Running => panic!("expected Finished, got Running"),
        CoreState::Idle => panic!("expected Finished, got Idle"),
    }
}

fn is_running(s: &CoreState) -> bool {
    matches!(s, CoreState::Running)
}

fn is_idle(s: &CoreState) -> bool {
    matches!(s, CoreState::Idle)
}

#[test]
fn new_core_is_idle() {
    let c = Core::new(3, CoreAction::Application, 4);
    assert!(c.is_idle());
    assert_eq!(c.get_id(), 3);
    assert_eq!(*c.get_action(), CoreAction::Application);
}

#[test]
fn empty_core_reports_idle() {
    let mut c = Core::new(0, CoreAction::Forward, 4);
    assert!(is_idle(&c.schedule(5, None)));
    assert!(c.is_idle());
}

#[test]
fn forward_core_takes_two_ticks_for_a_one_tick_forward() {
    let mut c = Core::new(0, CoreAction::Forward, 4);
    assert!(c.try_enqueue(Request::new(9, 0, 1, 1, 1, 1)).is_ok());
    assert!(c.is_idle());
    assert!(is_running(&c.schedule(6, None)));
    assert!(!c.is_idle());
    let r = finished(c.schedule(7, None));
    assert_eq!(r.get_id(), 9);
    assert!(r.is_f_completed());
    assert!(c.is_idle());
    assert!(is_idle(&c.schedule(8, None)));
}

#[test]
fn application_core_sets_departure_on_the_next_tick() {
    let mut c = Core::new(1, CoreAction::Application, 2);
    c.try_enqueue(Request::new(4, 0, 0, 1, 1, 3)).ok().unwrap();
    assert!(is_running(&c.schedule(10, None)));
    assert!(is_running(&c.schedule(11, None)));
    let r = finished(c.schedule(12, None));
    assert_eq!(r.get_departure_time(), 13);
    assert!(r.is_r_completed());
}

#[test]
fn network_stack_core_records_its_start() {
    let mut c = Core::new(0, CoreAction::NetworkStack, 2);
    c.try_enqueue(Request::new(4, 0, 0, 1, 2, 3)).ok().unwrap();
    assert!(is_running(&c.schedule(20, None)));
    let r = finished(c.schedule(21, None));
    assert_eq!(r.get_start(), 20);
    assert!(r.is_p_completed());
    assert!(!r.is_r_completed());
    assert_eq!(r.get_departure_time(), 0);
}

#[test]
fn stack_and_application_runs_both_phases() {
    let mut c = Core::new(0, CoreAction::NetworkStackAndApplication, 2);
    c.try_enqueue(Request::new(4, 0, 0, 1, 2, 2)).ok().unwrap();
    assert!(is_running(&c.schedule(1, None)));
    assert!(is_running(&c.schedule(2, None)));
    assert!(is_running(&c.schedule(3, None)));
    let r = finished(c.schedule(4, None));
    assert_eq!(r.get_start(), 1);
    assert_eq!(r.get_departure_time(), 5);
}

#[test]
fn requests_are_started_in_queue_order() {
    let mut c = Core::new(0, CoreAction::NetworkStack, 3);
    c.try_enqueue(Request::new(1, 0, 0, 1, 1, 1)).ok().unwrap();
    c.try_enqueue(Request::new(2, 0, 0, 1, 1, 1)).ok().unwrap();
    c.schedule(0, None);
    assert_eq!(finished(c.schedule(1, None)).get_id(), 1);
    c.schedule(2, None);
    assert_eq!(finished(c.schedule(3, None)).get_id(), 2);
}

#[test]
fn full_queue_hands_the_request_back() {
    let mut c = Core::new(0, CoreAction::Application, 1);
    assert!(c.try_enqueue(Request::new(1, 0, 0, 1, 1, 1)).is_ok());
    match c.try_enqueue(Request::new(2, 5, 0, 1, 1, 1)) {
        Ok(()) => panic!("the queue was full"),
        Err(r) => {
            assert_eq!(r.get_id(), 2);
            assert_eq!(r.get_flow_id(), 5);
        },
    }
}

#[test]
fn zero_size_queue_takes_nothing() {
    let mut c = Core::new(0, CoreAction::Application, 0);
    assert!(c.try_enqueue(Request::new(1, 0, 0, 1, 1, 1)).is_err());
    assert!(c.try_enqueue_ready_queue(Request::new(1, 0, 0, 1, 1, 1)).is_err());
}

#[test]
fn ready_queue_is_first_in_first_out() {
    let mut c = Core::new(0, CoreAction::NetworkStack, 2);
    assert!(c.try_enqueue_ready_queue(Request::new(1, 0, 0, 1, 1, 1)).is_ok());
    assert!(c.try_enqueue_ready_queue(Request::new(2, 0, 0, 1, 1, 1)).is_ok());
    assert!(c.try_enqueue_ready_queue(Request::new(3, 0, 0, 1, 1, 1)).is_err());
    assert_eq!(c.pop_ready_queue().get_id(), 1);
    assert_eq!(c.pop_ready_queue().get_id(), 2);
}

#[test]
fn locked_workers_take_turns_on_one_flow() {
    let mut locks: Vec<usize> = vec![usize::MAX; 2];
    let mut a = Core::new(1, CoreAction::NetworkStackAndApplicationLock, 2);
    let mut b = Core::new(2, CoreAction::NetworkStackAndApplicationLock, 2);
    a.try_enqueue(Request::new(10, 1, 0, 1, 1, 1)).ok().unwrap();
    b.try_enqueue(Request::new(11, 1, 0, 1, 1, 1)).ok().unwrap();
    // a takes the lock of flow 1 and starts its network stack.
    assert!(is_running(&a.schedule(0, Some(&mut locks))));
    assert_eq!(locks[1], 1);
    // b takes its request but must wait for the lock.
    assert!(is_running(&b.schedule(0, Some(&mut locks))));
    assert_eq!(locks[1], 1);
    assert!(!b.is_idle());
    // a runs its application and finishes, releasing the lock.
    let r = finished(a.schedule(1, Some(&mut locks)));
    assert_eq!(r.get_id(), 10);
    assert_eq!(r.get_departure_time(), 2);
    assert_eq!(locks[1], usize::MAX);
    // now b takes the lock and starts.
    assert!(is_running(&b.schedule(2, Some(&mut locks))));
    assert_eq!(locks[1], 2);
    let r = finished(b.schedule(3, Some(&mut locks)));
    assert_eq!(r.get_id(), 11);
    assert_eq!(r.get_start(), 2);
    assert_eq!(locks[1], usize::MAX);
    assert_eq!(locks[0], usize::MAX);
}

#[test]
fn locked_worker_waits_while_another_holds_the_lock() {
    let mut locks: Vec<usize> = vec![5];
    let mut a = Core::new(1, CoreAction::NetworkStackAndApplicationLock, 2);
    a.try_enqueue(Request::new(10, 0, 0, 1, 1, 1)).ok().unwrap();
    for t in 0..4 {
        assert!(is_running(&a.schedule(t, Some(&mut locks))));
        assert_eq!(locks[0], 5);
    }
    locks[0] = usize::MAX;
    a.schedule(4, Some(&mut locks));
    assert_eq!(locks[0], 1);
    let r = finished(a.schedule(5, Some(&mut locks)));
    assert_eq!(r.get_start(), 4);
    assert_eq!(locks[0], usize::MAX);
}

#[test]
fn stack_then_application_run_from_a_queued_request() {
    for action in [CoreAction::NetworkStackAndApplication, CoreAction::NetworkStackAndApplicationLock] {
        let mut c = Core::new(1, action, 4);
        let mut locks = vec![usize::MAX, usize::MAX];
        assert!(c.try_enqueue(Request::new(5, 1, 0, 1, 3, 2)).is_ok());
        for t in 10..14 {
            let lock = if action == CoreAction::NetworkStackAndApplicationLock { Some(&mut locks) } else { None };
            assert!(is_running(&c.schedule(t, lock)));
            assert!(!c.is_idle());
        }
        let lock = if action == CoreAction::NetworkStackAndApplicationLock { Some(&mut locks) } else { None };
        let r = finished(c.schedule(14, lock));
        assert!(c.is_idle());
        assert_eq!(r.get_id(), 5);
        assert_eq!(r.get_start(), 10);
        assert_eq!(r.get_departure_time(), 15);
        assert_eq!(locks, vec![usize::MAX, usize::MAX]);
        assert_eq!(c.get_id(), 1);
        assert_eq!(*c.get_action(), action);
    }
}
