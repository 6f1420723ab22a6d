//! A network request and the three processing phases it goes through:
//! forwarding, the network stack, and the application.

use vstd::prelude::*;
use vstd::string::StringExecFns;

verus! {

/// The abstract state of a [`Request`]: every field, as a plain value.
pub ghost struct RequestView {
    pub id: usize,
    pub t_arrival: usize,
    pub t_departure: usize,
    pub is_f_dropped: bool,
    pub is_f_completed: bool,
    pub is_p_dropped: bool,
    pub is_p_completed: bool,
    pub is_r_dropped: bool,
    pub is_r_completed: bool,
    pub flow_id: usize,
    pub t_f_start: usize,
    pub t_f_end: usize,
    pub f_completed: usize,
    pub forward_time: usize,
    pub t_p_start: usize,
    pub t_p_end: usize,
    pub p_completed: usize,
    pub stack_time: usize,
    pub t_r_start: usize,
    pub t_r_end: usize,
    pub r_completed: usize,
    pub request_time: usize,
}

impl RequestView {
    /// A request that has just arrived: no phase has started, nothing is dropped.
    pub open spec fn arrived(
        id: usize,
        flow_id: usize,
        t_arrival: usize,
        forward_time: usize,
        stack_time: usize,
        request_time: usize,
    ) -> RequestView {
        RequestView {
            id,
            t_arrival,
            t_departure: 0,
            is_f_dropped: false,
            is_f_completed: false,
            is_p_dropped: false,
            is_p_completed: false,
            is_r_dropped: false,
            is_r_completed: false,
            flow_id,
            t_f_start: 0,
            t_f_end: 0,
            f_completed: 0,
            forward_time,
            t_p_start: 0,
            t_p_end: 0,
            p_completed: 0,
            stack_time,
            t_r_start: 0,
            t_r_end: 0,
            r_completed: 0,
            request_time,
        }
    }

    /// One tick of forwarding: the tick count grows by one, and the phase is
    /// complete once the count has reached `forward_time` (it stays complete).
    pub open spec fn f_step(self) -> RequestView {
        RequestView {
            f_completed: (self.f_completed + 1) as usize,
            is_f_completed: self.is_f_completed || self.f_completed + 1 == self.forward_time,
            ..self
        }
    }

    /// One tick of network-stack processing.
    pub open spec fn p_step(self) -> RequestView {
        RequestView {
            p_completed: (self.p_completed + 1) as usize,
            is_p_completed: self.is_p_completed || self.p_completed + 1 == self.stack_time,
            ..self
        }
    }

    /// One tick of application processing.
    pub open spec fn r_step(self) -> RequestView {
        RequestView {
            r_completed: (self.r_completed + 1) as usize,
            is_r_completed: self.is_r_completed || self.r_completed + 1 == self.request_time,
            ..self
        }
    }

    /// No tick counter is at the top of its range, so each can take one more tick.
    pub open spec fn counters_below_max(self) -> bool {
        &&& self.f_completed < usize::MAX
        &&& self.p_completed < usize::MAX
        &&& self.r_completed < usize::MAX
    }

    /// Every tick counter is at most `t`.
    pub open spec fn counters_at_most(self, t: int) -> bool {
        &&& self.f_completed <= t
        &&& self.p_completed <= t
        &&& self.r_completed <= t
    }
}

/// `k` ticks of forwarding applied to `r`.
pub open spec fn f_steps(r: RequestView, k: nat) -> RequestView
    decreases k,
{
    if k == 0 { r } else { f_steps(r, (k - 1) as nat).f_step() }
}

/// `k` ticks of network-stack processing applied to `r`.
pub open spec fn p_steps(r: RequestView, k: nat) -> RequestView
    decreases k,
{
    if k == 0 { r } else { p_steps(r, (k - 1) as nat).p_step() }
}

/// `k` ticks of application processing applied to `r`.
pub open spec fn r_steps(r: RequestView, k: nat) -> RequestView
    decreases k,
{
    if k == 0 { r } else { r_steps(r, (k - 1) as nat).r_step() }
}

/// A call on a [`Request`] that changes it: a setter with its argument, or a
/// tick of one phase.
pub ghost enum RequestOp {
    SetId(usize),
    SetFlowId(usize),
    SetArrivalTime(usize),
    SetDepartureTime(usize),
    SetFStart(usize),
    SetPStart(usize),
    SetRStart(usize),
    SetFEnd(usize),
    SetPEnd(usize),
    SetREnd(usize),
    SetFDropped,
    SetPDropped,
    SetRDropped,
    FSchedule,
    PSchedule,
    RSchedule,
}

/// A value a [`Request`] getter reports.
pub ghost enum RequestField {
    Id,
    FlowId,
    ArrivalTime,
    DepartureTime,
    Start,
}

impl RequestView {
    /// The request after the call `op`.
    pub open spec fn apply(self, op: RequestOp) -> RequestView {
        match op {
            RequestOp::SetId(v) => RequestView { id: v, ..self },
            RequestOp::SetFlowId(v) => RequestView { flow_id: v, ..self },
            RequestOp::SetArrivalTime(v) => RequestView { t_arrival: v, ..self },
            RequestOp::SetDepartureTime(v) => RequestView { t_departure: v, ..self },
            RequestOp::SetFStart(v) => RequestView { t_f_start: v, ..self },
            RequestOp::SetPStart(v) => RequestView { t_p_start: v, ..self },
            RequestOp::SetRStart(v) => RequestView { t_r_start: v, ..self },
            RequestOp::SetFEnd(v) => RequestView { t_f_end: v, ..self },
            RequestOp::SetPEnd(v) => RequestView { t_p_end: v, ..self },
            RequestOp::SetREnd(v) => RequestView { t_r_end: v, ..self },
            RequestOp::SetFDropped => RequestView { is_f_dropped: true, ..self },
            RequestOp::SetPDropped => RequestView { is_p_dropped: true, ..self },
            RequestOp::SetRDropped => RequestView { is_r_dropped: true, ..self },
            RequestOp::FSchedule => self.f_step(),
            RequestOp::PSchedule => self.p_step(),
            RequestOp::RSchedule => self.r_step(),
        }
    }

    /// The value the getter for `f` reports.
    pub open spec fn field(self, f: RequestField) -> usize {
        match f {
            RequestField::Id => self.id,
            RequestField::FlowId => self.flow_id,
            RequestField::ArrivalTime => self.t_arrival,
            RequestField::DepartureTime => self.t_departure,
            RequestField::Start => self.t_p_start,
        }
    }
}

/// The value `op` sets the getter for `f` to, if it sets it.
pub open spec fn sets(op: RequestOp, f: RequestField) -> Option<usize> {
    match (op, f) {
        (RequestOp::SetId(v), RequestField::Id) => Some(v),
        (RequestOp::SetFlowId(v), RequestField::FlowId) => Some(v),
        (RequestOp::SetArrivalTime(v), RequestField::ArrivalTime) => Some(v),
        (RequestOp::SetDepartureTime(v), RequestField::DepartureTime) => Some(v),
        (RequestOp::SetPStart(v), RequestField::Start) => Some(v),
        _ => None,
    }
}

/// The request after the calls `ops`, first to last.
pub open spec fn apply_all(r: RequestView, ops: Seq<RequestOp>) -> RequestView
    decreases ops.len(),
{
    if ops.len() == 0 { r } else { apply_all(r, ops.drop_last()).apply(ops.last()) }
}

/// The value the last call of `ops` that sets `f` gave it, or `init` when none did.
pub open spec fn last_set(ops: Seq<RequestOp>, f: RequestField, init: usize) -> usize
    decreases ops.len(),
{
    if ops.len() == 0 {
        init
    } else {
        match sets(ops.last(), f) {
            Some(v) => v,
            None => last_set(ops.drop_last(), f, init),
        }
    }
}

/// After any calls on a request, each getter reports the value its setter last
/// gave, or the value it had before when no call set it (`get_start` reports
/// the network-stack start, which only `set_p_start` sets); and no call changes
/// the phase times.
pub proof fn law_getters_report_last_set(r: RequestView, ops: Seq<RequestOp>, f: RequestField)
    ensures
        apply_all(r, ops).field(f) == last_set(ops, f, r.field(f)),
        apply_all(r, ops).forward_time == r.forward_time,
        apply_all(r, ops).stack_time == r.stack_time,
        apply_all(r, ops).request_time == r.request_time,
    decreases ops.len(),
{
    if ops.len() > 0 {
        law_getters_report_last_set(r, ops.drop_last(), f);
    }
}

/// A request travelling through the server, with the times at which each of
/// its phases started and ended and how many ticks each phase has had.
pub struct Request {
    id: usize,
    t_arrival: usize,
    t_departure: usize,
    is_f_dropped: bool,
    is_f_completed: bool,
    is_p_dropped: bool,
    is_p_completed: bool,
    is_r_dropped: bool,
    is_r_completed: bool,
    flow_id: usize,
    t_f_start: usize,
    t_f_end: usize,
    f_completed: usize,
    forward_time: usize,
    t_p_start: usize,
    t_p_end: usize,
    p_completed: usize,
    stack_time: usize,
    t_r_start: usize,
    t_r_end: usize,
    r_completed: usize,
    request_time: usize,
}

impl View for Request {
    type V = RequestView;

    closed spec fn view(&self) -> RequestView {
        RequestView {
            id: self.id,
            t_arrival: self.t_arrival,
            t_departure: self.t_departure,
            is_f_dropped: self.is_f_dropped,
            is_f_completed: self.is_f_completed,
            is_p_dropped: self.is_p_dropped,
            is_p_completed: self.is_p_completed,
            is_r_dropped: self.is_r_dropped,
            is_r_completed: self.is_r_completed,
            flow_id: self.flow_id,
            t_f_start: self.t_f_start,
            t_f_end: self.t_f_end,
            f_completed: self.f_completed,
            forward_time: self.forward_time,
            t_p_start: self.t_p_start,
            t_p_end: self.t_p_end,
            p_completed: self.p_completed,
            stack_time: self.stack_time,
            t_r_start: self.t_r_start,
            t_r_end: self.t_r_end,
            r_completed: self.r_completed,
            request_time: self.request_time,
        }
    }
}

impl Request {
    /// A request that arrives at `t_arrival`, needing `forward_time` ticks of
    /// forwarding, `stack_time` of network stack and `request_time` of application.
    pub fn new(
        id: usize,
        flow_id: usize,
        t_arrival: usize,
        forward_time: usize,
        stack_time: usize,
        request_time: usize,
    ) -> (req: Request)
        ensures
            req@ == RequestView::arrived(id, flow_id, t_arrival, forward_time, stack_time, request_time),
    {
        Request {
            id,
            t_arrival,
            t_departure: 0,
            is_f_dropped: false,
            is_f_completed: false,
            is_p_dropped: false,
            is_p_completed: false,
            is_r_dropped: false,
            is_r_completed: false,
            flow_id,
            t_f_start: 0,
            t_f_end: 0,
            f_completed: 0,
            forward_time,
            t_p_start: 0,
            t_p_end: 0,
            p_completed: 0,
            stack_time,
            t_r_start: 0,
            t_r_end: 0,
            r_completed: 0,
            request_time,
        }
    }

    /// Sets the request's id.
    pub fn set_id(&mut self, id: usize)
        ensures
            final(self)@ == old(self)@.apply(RequestOp::SetId(id)),
    {
        self.id = id;
    }

    /// The request's id.
    pub fn get_id(&self) -> (r: usize)
        ensures
            r == self@.id,
    {
        self.id
    }

    /// Sets the flow the request belongs to.
    pub fn set_flow_id(&mut self, flow_id: usize)
        ensures
            final(self)@ == old(self)@.apply(RequestOp::SetFlowId(flow_id)),
    {
        self.flow_id = flow_id;
    }

    /// The flow the request belongs to.
    pub fn get_flow_id(&self) -> (r: usize)
        ensures
            r == self@.flow_id,
    {
        self.flow_id
    }

    /// The tick at which network-stack processing started.
    pub fn get_start(&self) -> (r: usize)
        ensures
            r == self@.t_p_start,
    {
        self.t_p_start
    }

    /// Sets when the request arrives.
    pub fn set_arrival_time(&mut self, t_arrival: usize)
        ensures
            final(self)@ == old(self)@.apply(RequestOp::SetArrivalTime(t_arrival)),
    {
        self.t_arrival = t_arrival;
    }

    /// When the request arrives.
    pub fn get_arrival_time(&self) -> (r: usize)
        ensures
            r == self@.t_arrival,
    {
        self.t_arrival
    }

    /// Sets when the request leaves the server.
    pub fn set_departure_time(&mut self, t_departure: usize)
        ensures
            final(self)@ == old(self)@.apply(RequestOp::SetDepartureTime(t_departure)),
    {
        self.t_departure = t_departure;
    }

    /// When the request leaves the server.
    pub fn get_departure_time(&self) -> (r: usize)
        ensures
            r == self@.t_departure,
    {
        self.t_departure
    }

    /// How many ticks of network stack the request needs.
    pub fn get_stack_time(&self) -> (r: usize)
        ensures
            r == self@.stack_time,
    {
        self.stack_time
    }

    /// How many ticks of application the request needs.
    pub fn get_request_time(&self) -> (r: usize)
        ensures
            r == self@.request_time,
    {
        self.request_time
    }

    /// Whether forwarding is complete.
    pub fn is_f_completed(&self) -> (r: bool)
        ensures
            r == self@.is_f_completed,
    {
        self.is_f_completed
    }

    /// Whether the network-stack phase is complete.
    pub fn is_p_completed(&self) -> (r: bool)
        ensures
            r == self@.is_p_completed,
    {
        self.is_p_completed
    }

    /// Whether the application phase is complete.
    pub fn is_r_completed(&self) -> (r: bool)
        ensures
            r == self@.is_r_completed,
    {
        self.is_r_completed
    }

    /// Records when forwarding started.
    pub fn set_f_start(&mut self, t_cur: usize)
        ensures
            final(self)@ == old(self)@.apply(RequestOp::SetFStart(t_cur)),
    {
        self.t_f_start = t_cur;
    }

    /// Records when the network-stack phase started.
    pub fn set_p_start(&mut self, t_cur: usize)
        ensures
            final(self)@ == old(self)@.apply(RequestOp::SetPStart(t_cur)),
    {
        self.t_p_start = t_cur;
    }

    /// Records when the application phase started.
    pub fn set_r_start(&mut self, t_cur: usize)
        ensures
            final(self)@ == old(self)@.apply(RequestOp::SetRStart(t_cur)),
    {
        self.t_r_start = t_cur;
    }

    /// Records when forwarding ended.
    pub fn set_f_end(&mut self, t_cur: usize)
        ensures
            final(self)@ == old(self)@.apply(RequestOp::SetFEnd(t_cur)),
    {
        self.t_f_end = t_cur;
    }

    /// Records when the network-stack phase ended.
    pub fn set_p_end(&mut self, t_cur: usize)
        ensures
            final(self)@ == old(self)@.apply(RequestOp::SetPEnd(t_cur)),
    {
        self.t_p_end = t_cur;
    }

    /// Records when the application phase ended.
    pub fn set_r_end(&mut self, t_cur: usize)
        ensures
            final(self)@ == old(self)@.apply(RequestOp::SetREnd(t_cur)),
    {
        self.t_r_end = t_cur;
    }

    /// Marks the request as dropped while forwarding.
    pub fn set_f_dropped(&mut self)
        ensures
            final(self)@ == old(self)@.apply(RequestOp::SetFDropped),
    {
        self.is_f_dropped = true;
    }

    /// Marks the request as dropped by the network stack.
    pub fn set_p_dropped(&mut self)
        ensures
            final(self)@ == old(self)@.apply(RequestOp::SetPDropped),
    {
        self.is_p_dropped = true;
    }

    /// Marks the request as dropped by the application.
    pub fn set_r_dropped(&mut self)
        ensures
            final(self)@ == old(self)@.apply(RequestOp::SetRDropped),
    {
        self.is_r_dropped = true;
    }

    /// Gives the request one tick of forwarding; returns whether forwarding is complete.
    pub fn f_schedule(&mut self) -> (done: bool)
        requires
            old(self)@.f_completed < usize::MAX,
        ensures
            final(self)@ == old(self)@.apply(RequestOp::FSchedule),
            done == final(self)@.is_f_completed,
    {
        self.f_completed += 1;
        if self.f_completed == self.forward_time {
            self.is_f_completed = true;
        }
        self.is_f_completed
    }

    /// Gives the request one tick of network-stack processing; returns whether it is complete.
    pub fn p_schedule(&mut self) -> (done: bool)
        requires
            old(self)@.p_completed < usize::MAX,
        ensures
            final(self)@ == old(self)@.apply(RequestOp::PSchedule),
            done == final(self)@.is_p_completed,
    {
        self.p_completed += 1;
        if self.p_completed == self.stack_time {
            self.is_p_completed = true;
        }
        self.is_p_completed
    }

    /// Gives the request one tick of application processing; returns whether it is complete.
    pub fn r_schedule(&mut self) -> (done: bool)
        requires
            old(self)@.r_completed < usize::MAX,
        ensures
            final(self)@ == old(self)@.apply(RequestOp::RSchedule),
            done == final(self)@.is_r_completed,
    {
        self.r_completed += 1;
        if self.r_completed == self.request_time {
            self.is_r_completed = true;
        }
        self.is_r_completed
    }

    /// The request's debug text: `Request #`, its id in decimal, and `)`.
    pub fn describe(&self) -> (s: String)
        ensures
            s@ == "Request #"@ + decimal_text(self@.id as nat) + ")"@,
    {
        let mut s = String::from_str("Request #");
        let digits = usize_to_decimal(self.id);
        s.append(digits.as_str());
        s.append(")");
        s
    }
}

/// The character of the decimal digit `d` (for `d < 10`).
pub open spec fn digit_char(d: nat) -> char {
    (48 + d) as char
}

/// `n` written in decimal, most significant digit first, with no sign or padding.
pub open spec fn decimal_text(n: nat) -> Seq<char>
    decreases n,
{
    if n < 10 {
        seq![digit_char(n)]
    } else {
        decimal_text(n / 10) + seq![digit_char(n % 10)]
    }
}

/// The decimal digit `d` as text.
fn digit_text(d: usize) -> (s: &'static str)
    requires
        d < 10,
    ensures
        s@ == seq![digit_char(d as nat)],
{
    match d {
        0 => {
            proof {
                reveal_strlit("0");
            }
            "0"
        },
        1 => {
            proof {
                reveal_strlit("1");
            }
            "1"
        },
        2 => {
            proof {
                reveal_strlit("2");
            }
            "2"
        },
        3 => {
            proof {
                reveal_strlit("3");
            }
            "3"
        },
        4 => {
            proof {
                reveal_strlit("4");
            }
            "4"
        },
        5 => {
            proof {
                reveal_strlit("5");
            }
            "5"
        },
        6 => {
            proof {
                reveal_strlit("6");
            }
            "6"
        },
        7 => {
            proof {
                reveal_strlit("7");
            }
            "7"
        },
        8 => {
            proof {
                reveal_strlit("8");
            }
            "8"
        },
        _ => {
            proof {
                reveal_strlit("9");
            }
            "9"
        },
    }
}

/// `n` written in decimal (see [`decimal_text`]).
fn usize_to_decimal(n: usize) -> (s: String)
    ensures
        s@ == decimal_text(n as nat),
    decreases n,
{
    if n < 10 {
        String::from_str(digit_text(n))
    } else {
        let mut s = usize_to_decimal(n / 10);
        s.append(digit_text(n % 10));
        s
    }
}

} // verus!
