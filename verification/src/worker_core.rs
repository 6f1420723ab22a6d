//! A worker core: what it does with a request on each tick, and its queues.

use std::collections::VecDeque;
use vstd::prelude::*;
use crate::request::{Request, RequestView};

verus! {

/// The work a core does with the requests it is given.
#[derive(Clone, Copy, PartialEq, Eq, Structural, Debug)]
pub enum CoreAction {
    /// Receives each request and passes it on.
    Forward,
    /// Runs the application part of each request.
    Application,
    /// Runs the network-stack part of each request.
    NetworkStack,
    /// Runs the network stack and then the application, for each request in turn.
    NetworkStackAndApplication,
    /// As `NetworkStackAndApplication`, holding a per-flow lock while it works on a request.
    NetworkStackAndApplicationLock,
}

/// What a core did on one tick.
pub enum CoreState {
    /// It had nothing to work on.
    Idle,
    /// It is working on a request that is not finished.
    Running,
    /// It finished the request, which it hands back.
    Finished(Request),
}

/// The abstract form of a [`CoreState`].
pub ghost enum Outcome {
    Idle,
    Running,
    Finished(RequestView),
}

impl View for CoreState {
    type V = Outcome;

    open spec fn view(&self) -> Outcome {
        match self {
            CoreState::Idle => Outcome::Idle,
            CoreState::Running => Outcome::Running,
            CoreState::Finished(r) => Outcome::Finished(r@),
        }
    }
}

/// The value a flow's lock holds while no core holds it.
pub open spec fn lock_free() -> usize {
    usize::MAX
}

/// The abstract state of a [`Core`].
pub ghost struct CoreView {
    pub id: usize,
    pub idle: bool,
    pub action: CoreAction,
    pub current: Option<RequestView>,
    pub local: Seq<RequestView>,
    pub ready: Seq<RequestView>,
    /// How many requests each of the two queues may hold.
    pub queue_size: usize,
}

/// The request with its application phase ended at `t` and its departure set to the next tick.
pub open spec fn app_finished(r: RequestView, t: usize) -> RequestView {
    RequestView { t_r_end: t, t_departure: (t + 1) as usize, ..r }
}

/// One tick of "network stack, then application" on a request that has started:
/// the stack phase runs until it completes (its end recorded, the application
/// set to start on the next tick), then the application phase runs.
/// The flag says whether the request is finished.
pub open spec fn stack_then_app(r: RequestView, t: usize) -> (RequestView, bool) {
    if r.is_p_completed {
        let r1 = r.r_step();
        if r1.is_r_completed {
            (app_finished(r1, t), true)
        } else {
            (r1, false)
        }
    } else {
        let r1 = r.p_step();
        if r1.is_p_completed {
            (RequestView { t_p_end: t, t_r_start: (t + 1) as usize, ..r1 }, false)
        } else {
            (r1, false)
        }
    }
}

/// What a core with `action` and `id` does on tick `t` to the request it has just
/// taken from its queue, and to the flow locks.
pub open spec fn start_spec(
    action: CoreAction,
    id: usize,
    r: RequestView,
    t: usize,
    locks: Seq<usize>,
) -> (RequestView, Seq<usize>) {
    match action {
        CoreAction::Forward => (RequestView { t_f_start: t, ..r }.f_step(), locks),
        CoreAction::Application => (RequestView { t_r_start: t, ..r }.r_step(), locks),
        CoreAction::NetworkStack => (RequestView { t_p_start: t, ..r }.p_step(), locks),
        CoreAction::NetworkStackAndApplication => (RequestView { t_p_start: t, ..r }.p_step(), locks),
        CoreAction::NetworkStackAndApplicationLock => {
            if locks[r.flow_id as int] == lock_free() {
                (RequestView { t_p_start: t, ..r }.p_step(), locks.update(r.flow_id as int, id))
            } else {
                (r, locks)
            }
        },
    }
}

/// What a core with `action` and `id` does on tick `t` to the request it is
/// already working on, and to the flow locks; the flag says whether it finished.
pub open spec fn continue_spec(
    action: CoreAction,
    id: usize,
    r: RequestView,
    t: usize,
    locks: Seq<usize>,
) -> (RequestView, Seq<usize>, bool) {
    match action {
        CoreAction::Forward => {
            let r1 = r.f_step();
            if r1.is_f_completed {
                (RequestView { t_f_end: t, ..r1 }, locks, true)
            } else {
                (r1, locks, false)
            }
        },
        CoreAction::Application => {
            let r1 = r.r_step();
            if r1.is_r_completed {
                (app_finished(r1, t), locks, true)
            } else {
                (r1, locks, false)
            }
        },
        CoreAction::NetworkStack => {
            let r1 = r.p_step();
            if r1.is_p_completed {
                (RequestView { t_p_end: t, ..r1 }, locks, true)
            } else {
                (r1, locks, false)
            }
        },
        CoreAction::NetworkStackAndApplication => {
            let (r1, done) = stack_then_app(r, t);
            (r1, locks, done)
        },
        CoreAction::NetworkStackAndApplicationLock => {
            let f = r.flow_id as int;
            if locks[f] == lock_free() {
                (RequestView { t_p_start: t, ..r }.p_step(), locks.update(f, id), false)
            } else if locks[f] == id {
                let (r1, done) = stack_then_app(r, t);
                (r1, if done { locks.update(f, lock_free()) } else { locks }, done)
            } else {
                (r, locks, false)
            }
        },
    }
}

/// One tick of a core: the new core, the new flow locks, and what it reports.
/// A core with a request works on it, and is idle again once it finishes it;
/// a core without one takes the first request of its local queue and starts
/// it; a core with neither is idle.
pub open spec fn schedule_spec(c: CoreView, t: usize, locks: Seq<usize>) -> (CoreView, Seq<usize>, Outcome) {
    match c.current {
        Some(r) => {
            let (r1, l1, done) = continue_spec(c.action, c.id, r, t, locks);
            if done {
                (CoreView { idle: true, current: None, ..c }, l1, Outcome::Finished(r1))
            } else {
                (CoreView { idle: false, current: Some(r1), ..c }, l1, Outcome::Running)
            }
        },
        None => {
            if c.local.len() == 0 {
                (CoreView { idle: true, ..c }, locks, Outcome::Idle)
            } else {
                let (r1, l1) = start_spec(c.action, c.id, c.local[0], t, locks);
                (CoreView { idle: false, current: Some(r1), local: c.local.drop_first(), ..c }, l1, Outcome::Running)
            }
        },
    }
}

impl CoreAction {
    /// Whether finishing a request with this action records the following tick.
    pub open spec fn looks_one_tick_ahead(self) -> bool {
        !(self is Forward || self is NetworkStack)
    }
}

impl CoreView {
    /// A core that has just been made: idle, with nothing to do.
    pub open spec fn fresh(id: usize, action: CoreAction, queue_size: usize) -> CoreView {
        CoreView { id, idle: true, action, current: None, local: Seq::empty(), ready: Seq::empty(), queue_size }
    }

    /// The queues hold at most `queue_size` requests each; a core works on a
    /// request only if its queue could have held it; a core is idle exactly
    /// when it works on no request.
    pub open spec fn wf(self) -> bool {
        &&& self.local.len() <= self.queue_size
        &&& self.ready.len() <= self.queue_size
        &&& self.current is Some ==> self.queue_size > 0
        &&& self.idle <==> self.current is None
    }

    /// The request a tick of this core will work on, if any.
    pub open spec fn next_request(self) -> Option<RequestView> {
        match self.current {
            Some(r) => Some(r),
            None => if self.local.len() > 0 { Some(self.local[0]) } else { None },
        }
    }

    /// A tick at time `t` with these flow locks neither overflows nor indexes out of bounds.
    pub open spec fn can_schedule(self, t: usize, locks: Option<Seq<usize>>) -> bool {
        &&& self.next_request() matches Some(r) ==> r.counters_below_max()
        &&& (self.next_request() is Some && self.action.looks_one_tick_ahead()) ==> t < usize::MAX
        &&& self.next_request() matches Some(r) ==> (self.action is NetworkStackAndApplicationLock
                ==> (locks matches Some(l) && r.flow_id < l.len()))
    }
}

/// A core of the server: its action, the request it is working on, a local
/// queue of requests waiting for it and a ready queue of requests it has
/// finished but not yet handed on.
pub struct Core {
    core_id: usize,
    is_idle: bool,
    action: CoreAction,
    current_request: Option<Request>,
    local_queue: VecDeque<Request>,
    ready_queue: VecDeque<Request>,
    queue_size: usize,
}

/// The views of a queue's requests, front first.
pub open spec fn views_of(q: Seq<Request>) -> Seq<RequestView> {
    q.map_values(|r: Request| r@)
}

impl View for Core {
    type V = CoreView;

    closed spec fn view(&self) -> CoreView {
        CoreView {
            id: self.core_id,
            idle: self.is_idle,
            action: self.action,
            current: match self.current_request {
                Some(r) => Some(r@),
                None => None,
            },
            local: views_of(self.local_queue@),
            ready: views_of(self.ready_queue@),
            queue_size: self.queue_size,
        }
    }
}

impl Core {
    /// An idle core whose two queues may each hold `queue_size` requests.
    pub fn new(core_id: usize, action: CoreAction, queue_size: usize) -> (core: Core)
        ensures
            core@ == CoreView::fresh(core_id, action, queue_size),
            core@.wf(),
    {
        let local_queue: VecDeque<Request> = VecDeque::<Request>::with_capacity(queue_size);
        let ready_queue: VecDeque<Request> = VecDeque::<Request>::with_capacity(queue_size);
        let core = Core {
            core_id,
            is_idle: true,
            action,
            current_request: None,
            local_queue,
            ready_queue,
            queue_size,
        };
        proof {
            assert(core@.local =~= Seq::<RequestView>::empty());
            assert(core@.ready =~= Seq::<RequestView>::empty());
        }
        core
    }

    /// Whether the core is idle (an idle core works on no request).
    pub fn is_idle(&self) -> (r: bool)
        ensures
            r == self@.idle,
    {
        self.is_idle
    }

    /// The core's id.
    pub fn get_id(&self) -> (r: usize)
        ensures
            r == self@.id,
    {
        self.core_id
    }

    /// The work the core does.
    pub fn get_action(&self) -> (r: &CoreAction)
        ensures
            *r == self@.action,
    {
        &self.action
    }
}

/// The flow locks as a sequence (empty when there are none).
pub open spec fn locks_view(locks: Option<&mut Vec<usize>>) -> Seq<usize> {
    match locks {
        Some(l) => l@,
        None => Seq::empty(),
    }
}

/// Taking the first request off a queue takes the first view off its views.
proof fn lemma_views_drop_first(q: Seq<Request>)
    ensures
        q.len() > 0 ==> views_of(q.subrange(1, q.len() as int)) == views_of(q).drop_first(),
        q.len() > 0 ==> views_of(q)[0] == q[0]@,
        views_of(q).len() == q.len(),
{
    if q.len() > 0 {
        assert(views_of(q.subrange(1, q.len() as int)) =~= views_of(q).drop_first());
    }
}

impl Core {
    /// Runs one tick of this core at time `t_cur`, following [`schedule_spec`].
    /// `locks` holds, for each flow, the id of the core that holds its lock
    /// (or `usize::MAX`); only a `NetworkStackAndApplicationLock` core uses it.
    pub fn schedule(&mut self, t_cur: usize, locks: Option<&mut Vec<usize>>) -> (state: CoreState)
        requires
            old(self)@.wf(),
            old(self)@.can_schedule(t_cur, match locks { Some(l) => Some(l@), None => None }),
        ensures
            final(self)@.wf(),
            ({
                let (c2, l2, o) = schedule_spec(old(self)@, t_cur, locks_view(locks));
                &&& final(self)@ == c2
                &&& state@ == o
                &&& locks matches Some(l) ==> final(l)@ == l2
            }),
    {
        proof {
            lemma_views_drop_first(self.local_queue@);
        }
        match self.action {
            CoreAction::Forward => {
                match &mut self.current_request {
                    Some(req) => {
                        if req.f_schedule() {
                            let mut request: Request = self.current_request.take().unwrap();
                            request.set_f_end(t_cur);
                            self.is_idle = true;
                            CoreState::Finished(request)
                        } else {
                            self.is_idle = false;
                            CoreState::Running
                        }
                    },
                    None => {
                        if let Some(mut req) = self.local_queue.pop_front() {
                            req.set_f_start(t_cur);
                            req.f_schedule();
                            self.current_request = Some(req);
                            self.is_idle = false;
                            CoreState::Running
                        } else {
                            self.is_idle = true;
                            CoreState::Idle
                        }
                    },
                }
            },
            CoreAction::Application => {
                match &mut self.current_request {
                    Some(req) => {
                        if req.r_schedule() {
                            let mut request: Request = self.current_request.take().unwrap();
                            request.set_r_end(t_cur);
                            request.set_departure_time(t_cur + 1);
                            self.is_idle = true;
                            CoreState::Finished(request)
                        } else {
                            self.is_idle = false;
                            CoreState::Running
                        }
                    },
                    None => {
                        if let Some(mut req) = self.local_queue.pop_front() {
                            req.set_r_start(t_cur);
                            req.r_schedule();
                            self.current_request = Some(req);
                            self.is_idle = false;
                            CoreState::Running
                        } else {
                            self.is_idle = true;
                            CoreState::Idle
                        }
                    },
                }
            },
            CoreAction::NetworkStack => {
                match &mut self.current_request {
                    Some(req) => {
                        if req.p_schedule() {
                            let mut request: Request = self.current_request.take().unwrap();
                            request.set_p_end(t_cur);
                            self.is_idle = true;
                            CoreState::Finished(request)
                        } else {
                            self.is_idle = false;
                            CoreState::Running
                        }
                    },
                    None => {
                        if let Some(mut req) = self.local_queue.pop_front() {
                            req.set_p_start(t_cur);
                            req.p_schedule();
                            self.current_request = Some(req);
                            self.is_idle = false;
                            CoreState::Running
                        } else {
                            self.is_idle = true;
                            CoreState::Idle
                        }
                    },
                }
            },
            CoreAction::NetworkStackAndApplication => {
                match &mut self.current_request {
                    Some(req) => {
                        if req.is_p_completed() {
                            if req.r_schedule() {
                                let mut request: Request = self.current_request.take().unwrap();
                                request.set_r_end(t_cur);
                                request.set_departure_time(t_cur + 1);
                                self.is_idle = true;
                                CoreState::Finished(request)
                            } else {
                                self.is_idle = false;
                                CoreState::Running
                            }
                        } else {
                            if req.p_schedule() {
                                req.set_p_end(t_cur);
                                req.set_r_start(t_cur + 1);
                            }
                            self.is_idle = false;
                            CoreState::Running
                        }
                    },
                    None => {
                        if let Some(mut req) = self.local_queue.pop_front() {
                            req.set_p_start(t_cur);
                            req.p_schedule();
                            self.current_request = Some(req);
                            self.is_idle = false;
                            CoreState::Running
                        } else {
                            self.is_idle = true;
                            CoreState::Idle
                        }
                    },
                }
            },
            CoreAction::NetworkStackAndApplicationLock => {
                match &mut self.current_request {
                    Some(req) => {
                        let spinlocks: &mut Vec<usize> = locks.unwrap();
                        let flow: usize = req.get_flow_id();
                        if spinlocks[flow] == usize::MAX {
                            spinlocks[flow] = self.core_id;
                            req.set_p_start(t_cur);
                            req.p_schedule();
                            self.is_idle = false;
                            CoreState::Running
                        } else if spinlocks[flow] == self.core_id {
                            if req.is_p_completed() {
                                if req.r_schedule() {
                                    let mut request: Request = self.current_request.take().unwrap();
                                    request.set_r_end(t_cur);
                                    request.set_departure_time(t_cur + 1);
                                    self.is_idle = true;
                                    spinlocks[request.get_flow_id()] = usize::MAX;
                                    CoreState::Finished(request)
                                } else {
                                    self.is_idle = false;
                                    CoreState::Running
                                }
                            } else {
                                if req.p_schedule() {
                                    req.set_p_end(t_cur);
                                    req.set_r_start(t_cur + 1);
                                }
                                self.is_idle = false;
                                CoreState::Running
                            }
                        } else {
                            self.is_idle = false;
                            CoreState::Running
                        }
                    },
                    None => {
                        if let Some(mut req) = self.local_queue.pop_front() {
                            let spinlocks: &mut Vec<usize> = locks.unwrap();
                            let flow: usize = req.get_flow_id();
                            if spinlocks[flow] == usize::MAX {
                                spinlocks[flow] = self.core_id;
                                req.set_p_start(t_cur);
                                req.p_schedule();
                            }
                            self.current_request = Some(req);
                            self.is_idle = false;
                            CoreState::Running
                        } else {
                            self.is_idle = true;
                            CoreState::Idle
                        }
                    },
                }
            },
        }
    }
}

impl Core {
    /// Appends `req` to the local queue if it has room; hands `req` back otherwise.
    pub fn try_enqueue(&mut self, req: Request) -> (res: Result<(), Request>)
        requires
            old(self)@.wf(),
        ensures
            final(self)@.wf(),
            old(self)@.local.len() < old(self)@.queue_size ==> {
                &&& res is Ok
                &&& final(self)@ == (CoreView { local: old(self)@.local.push(req@), ..old(self)@ })
            },
            old(self)@.local.len() >= old(self)@.queue_size ==> {
                &&& res == Err::<(), Request>(req)
                &&& final(self)@ == old(self)@
            },
    {
        if self.local_queue.len() < self.queue_size {
            self.local_queue.push_back(req);
            proof {
                assert(views_of(self.local_queue@) =~= views_of(old(self).local_queue@).push(req@));
            }
            return Ok(());
        }
        Err(req)
    }

    /// Appends `req` to the ready queue if it has room; hands `req` back otherwise.
    pub fn try_enqueue_ready_queue(&mut self, req: Request) -> (res: Result<(), Request>)
        requires
            old(self)@.wf(),
        ensures
            final(self)@.wf(),
            old(self)@.ready.len() < old(self)@.queue_size ==> {
                &&& res is Ok
                &&& final(self)@ == (CoreView { ready: old(self)@.ready.push(req@), ..old(self)@ })
            },
            old(self)@.ready.len() >= old(self)@.queue_size ==> {
                &&& res == Err::<(), Request>(req)
                &&& final(self)@ == old(self)@
            },
    {
        if self.ready_queue.len() < self.queue_size {
            self.ready_queue.push_back(req);
            proof {
                assert(views_of(self.ready_queue@) =~= views_of(old(self).ready_queue@).push(req@));
            }
            return Ok(());
        }
        Err(req)
    }

    /// Takes the oldest request off the ready queue, which must not be empty.
    pub fn pop_ready_queue(&mut self) -> (req: Request)
        requires
            old(self)@.wf(),
            old(self)@.ready.len() > 0,
        ensures
            final(self)@.wf(),
            req@ == old(self)@.ready[0],
            final(self)@ == (CoreView { ready: old(self)@.ready.drop_first(), ..old(self)@ }),
    {
        proof {
            lemma_views_drop_first(self.ready_queue@);
        }
        self.ready_queue.pop_front().unwrap()
    }
}


/// A call on a [`Core`] that changes it, as its contract describes it.
pub ghost enum CoreOp {
    /// `schedule` at a time, with the flow locks it sees.
    Schedule(usize, Seq<usize>),
    /// `try_enqueue` of a request.
    Enqueue(RequestView),
    /// `try_enqueue_ready_queue` of a request.
    EnqueueReady(RequestView),
    /// `pop_ready_queue` (on a non-empty ready queue).
    PopReady,
}

impl CoreView {
    /// The core after the call `op`.
    pub open spec fn apply(self, op: CoreOp) -> CoreView {
        match op {
            CoreOp::Schedule(t, locks) => schedule_spec(self, t, locks).0,
            CoreOp::Enqueue(r) => {
                if self.local.len() < self.queue_size { CoreView { local: self.local.push(r), ..self } } else { self }
            },
            CoreOp::EnqueueReady(r) => {
                if self.ready.len() < self.queue_size { CoreView { ready: self.ready.push(r), ..self } } else { self }
            },
            CoreOp::PopReady => {
                if self.ready.len() > 0 { CoreView { ready: self.ready.drop_first(), ..self } } else { self }
            },
        }
    }
}

/// The core after the calls `ops`, first to last.
pub open spec fn core_apply_all(c: CoreView, ops: Seq<CoreOp>) -> CoreView
    decreases ops.len(),
{
    if ops.len() == 0 { c } else { core_apply_all(c, ops.drop_last()).apply(ops.last()) }
}

/// No call changes a core's id, action or queue size, and every call keeps
/// its invariant: in particular the core is idle exactly when it holds no request.
pub proof fn law_core_keeps_identity(c: CoreView, ops: Seq<CoreOp>)
    requires
        c.wf(),
    ensures
        core_apply_all(c, ops).id == c.id,
        core_apply_all(c, ops).action == c.action,
        core_apply_all(c, ops).queue_size == c.queue_size,
        core_apply_all(c, ops).wf(),
    decreases ops.len(),
{
    if ops.len() > 0 {
        law_core_keeps_identity(c, ops.drop_last());
    }
}

} // verus!
