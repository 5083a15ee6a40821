//! The admission controller and the lifecycle of the service, as one state
//! machine: a fixed budget of permits, the requests that wait for one in the
//! order of their arrival, and the phase the service is in.
//!
//! The machine decides; it neither waits nor runs anything. Its caller hands
//! it what happened (a request arrived, a permit came back, the termination
//! signal, the listener closed) and does what the answer says.

use vstd::prelude::*;
use std::collections::VecDeque;
use crate::reply::{Reply, health_reply, health_reply_of};

verus! {

/// The phase of the service.
#[derive(Clone, Copy, Debug, PartialEq, Eq, Structural)]
pub enum Phase {
    /// The listener is not bound yet.
    Starting,
    /// Requests are admitted.
    Accepting,
    /// The termination signal has come: nothing new is admitted, and what is
    /// in flight goes on.
    Draining,
    /// The listener is closed and nothing is in flight.
    Stopped,
}

impl Phase {
    /// The place of the phase in the order in which the phases come.
    pub open spec fn rank(self) -> nat {
        match self {
            Phase::Starting => 0,
            Phase::Accepting => 1,
            Phase::Draining => 2,
            Phase::Stopped => 3,
        }
    }
}

/// What the gateway decided of a request that asked for a permit.
#[derive(Clone, Copy, Debug, PartialEq, Eq, Structural)]
pub enum Decision {
    /// The request holds a permit and runs now.
    Granted,
    /// Every permit is out: the request waits for its turn.
    Deferred,
    /// The service admits nothing any more, or not yet.
    Refused,
}

/// The first place at which `request` stands in `waiting`.
pub open spec fn first_place(waiting: Seq<u64>, request: u64) -> int {
    choose|k: int|
        0 <= k < waiting.len() && waiting[k] == request && forall|j: int|
            0 <= j < k ==> waiting[j] != request
}

/// The state of the gateway, as a mathematical value.
pub struct GatewayState {
    /// The number of permits there are.
    pub budget: nat,
    /// The number of permits that are out.
    pub running: nat,
    /// The requests that wait for a permit, the one that came first in front.
    pub waiting: Seq<u64>,
    /// The phase of the service.
    pub phase: Phase,
    /// Whether the listener is open.
    pub listening: bool,
}

impl GatewayState {
    /// What holds of every state that the gateway reaches: no more permits
    /// are out than there are, nobody waits while a permit is free, the
    /// listener is open while requests are accepted, and before the start and
    /// after the stop it is closed and nothing is in flight.
    pub open spec fn well_formed(self) -> bool {
        &&& self.running <= self.budget
        &&& self.waiting.len() > 0 ==> self.running == self.budget
        &&& self.phase == Phase::Accepting ==> self.listening
        &&& self.phase == Phase::Starting || self.phase == Phase::Stopped ==> !self.listening
            && self.idle()
    }

    /// The number of permits that are free.
    pub open spec fn available(self) -> nat {
        (self.budget - self.running) as nat
    }

    /// The number of requests that hold a permit or wait for one.
    pub open spec fn in_flight(self) -> nat {
        self.running + self.waiting.len()
    }

    /// Whether no request holds a permit or waits for one.
    pub open spec fn idle(self) -> bool {
        self.running == 0 && self.waiting.len() == 0
    }

    /// The state of a new gateway with `budget` permits.
    pub open spec fn initial(budget: nat) -> GatewayState {
        GatewayState {
            budget,
            running: 0,
            waiting: Seq::empty(),
            phase: Phase::Starting,
            listening: false,
        }
    }

    /// The state once the listener is bound: from `Starting` the service
    /// accepts; in any other phase nothing changes.
    pub open spec fn opened(self) -> GatewayState {
        if self.phase == Phase::Starting {
            GatewayState { phase: Phase::Accepting, listening: true, ..self }
        } else {
            self
        }
    }

    /// What is decided of a request that asks for a permit.
    pub open spec fn decision(self) -> Decision {
        if self.phase != Phase::Accepting {
            Decision::Refused
        } else if self.running < self.budget {
            Decision::Granted
        } else {
            Decision::Deferred
        }
    }

    /// The state once `request` has asked for a permit: one more permit is
    /// out where it was granted one, it is last in the queue where it was
    /// deferred, and nothing has changed where it was refused.
    pub open spec fn requested(self, request: u64) -> GatewayState {
        match self.decision() {
            Decision::Granted => GatewayState { running: self.running + 1, ..self },
            Decision::Deferred => GatewayState { waiting: self.waiting.push(request), ..self },
            Decision::Refused => self,
        }
    }

    /// The request that takes over a permit that comes back: the one that
    /// has waited longest, if any waits.
    pub open spec fn resumed(self) -> Option<u64> {
        if self.running > 0 && self.waiting.len() > 0 {
            Some(self.waiting[0])
        } else {
            None
        }
    }

    /// The phase after a step that may have ended the draining: `Stopped`
    /// once the service drains, the listener is closed and nothing is in
    /// flight.
    pub open spec fn settled(self) -> GatewayState {
        if self.phase == Phase::Draining && !self.listening && self.idle() {
            GatewayState { phase: Phase::Stopped, ..self }
        } else {
            self
        }
    }

    /// The state once a permit has come back: where a request waits, the
    /// permit passes to the first in the queue and the others move up; where
    /// none waits, one permit fewer is out. Where no permit is out nothing
    /// changes.
    pub open spec fn released(self) -> GatewayState {
        if self.running == 0 {
            self
        } else if self.waiting.len() > 0 {
            GatewayState { waiting: self.waiting.subrange(1, self.waiting.len() as int), ..self }
        } else {
            GatewayState { running: (self.running - 1) as nat, ..self }.settled()
        }
    }

    /// The state once `request` has given up waiting: where it waits, it
    /// leaves the queue, from its first place in it, and the others keep
    /// their order; where it does not wait, nothing changes.
    pub open spec fn withdrawn(self, request: u64) -> GatewayState {
        if self.waiting.contains(request) {
            GatewayState {
                waiting: self.waiting.remove(first_place(self.waiting, request)),
                ..self
            }.settled()
        } else {
            self
        }
    }

    /// The state once the termination signal has come: from `Accepting` the
    /// service drains; in any other phase nothing changes.
    pub open spec fn signalled(self) -> GatewayState {
        if self.phase == Phase::Accepting {
            GatewayState { phase: Phase::Draining, ..self }
        } else {
            self
        }
    }

    /// The state once the listener has closed while the service drains; in
    /// any other phase nothing changes.
    pub open spec fn closed(self) -> GatewayState {
        if self.phase == Phase::Draining {
            GatewayState { listening: false, ..self }.settled()
        } else {
            self
        }
    }
}

/// One thing that happens to the gateway.
pub enum Event {
    /// The listener is bound.
    Opened,
    /// A request asks for a permit.
    Requested(u64),
    /// A permit comes back.
    Released,
    /// A request gives up waiting.
    Withdrawn(u64),
    /// The termination signal comes.
    Signalled,
    /// The listener closes.
    Closed,
}

impl GatewayState {
    /// The state after `event`.
    pub open spec fn step(self, event: Event) -> GatewayState {
        match event {
            Event::Opened => self.opened(),
            Event::Requested(request) => self.requested(request),
            Event::Released => self.released(),
            Event::Withdrawn(request) => self.withdrawn(request),
            Event::Signalled => self.signalled(),
            Event::Closed => self.closed(),
        }
    }

    /// The state once `n` permits have come back, one after the other.
    pub open spec fn released_times(self, n: nat) -> GatewayState
        decreases n,
    {
        if n == 0 {
            self
        } else {
            self.released().released_times((n - 1) as nat)
        }
    }

    /// The state of a gateway with `budget` permits after `events`, in order.
    pub open spec fn after(budget: nat, events: Seq<Event>) -> GatewayState
        decreases events.len(),
    {
        if events.len() == 0 {
            GatewayState::initial(budget)
        } else {
            GatewayState::after(budget, events.drop_last()).step(events.last())
        }
    }
}

/// A new gateway is well formed, and every event leads from a well-formed
/// state to a well-formed state with the same budget.
pub proof fn lemma_step_keeps_well_formed(state: GatewayState, event: Event)
    requires
        state.well_formed(),
    ensures
        GatewayState::initial(state.budget).well_formed(),
        state.step(event).well_formed(),
        state.step(event).budget == state.budget,
{
}

/// Whatever happens, in whatever order, no more permits are out than the
/// budget allows.
pub proof fn lemma_budget_is_never_exceeded(budget: nat, events: Seq<Event>)
    ensures
        GatewayState::after(budget, events).well_formed(),
        GatewayState::after(budget, events).budget == budget,
        GatewayState::after(budget, events).running <= budget,
    decreases events.len(),
{
    if events.len() > 0 {
        lemma_budget_is_never_exceeded(budget, events.drop_last());
        lemma_step_keeps_well_formed(
            GatewayState::after(budget, events.drop_last()),
            events.last(),
        );
    }
}

/// A permit that was granted and comes back leaves the gateway as it was
/// before the request: as many permits are free again. How the work under the
/// permit ended plays no part, since giving it back takes no result.
pub proof fn lemma_release_restores(state: GatewayState, request: u64)
    requires
        state.well_formed(),
        state.decision() == Decision::Granted,
    ensures
        state.requested(request).released() == state,
        state.requested(request).released().available() == state.available(),
{
}

/// Every permit that comes back ends one request's stay: one request fewer
/// is in flight, and once none is in flight every permit is free.
pub proof fn lemma_release_frees_one(state: GatewayState)
    requires
        state.well_formed(),
        state.running > 0,
    ensures
        state.released().in_flight() == state.in_flight() - 1,
        state.released().idle() ==> state.released().available() == state.budget,
{
}

/// Requests are served in the order in which they came: a request that is
/// deferred goes to the back of the queue, and a permit that comes back
/// passes to the front of it, the others keeping their order.
pub proof fn lemma_first_come_first_served(state: GatewayState, request: u64)
    requires
        state.well_formed(),
    ensures
        state.decision() == Decision::Deferred ==> state.requested(request).waiting
            == state.waiting.push(request),
        state.resumed() matches Some(first) ==> first == state.waiting[0]
            && state.released().waiting == state.waiting.skip(1)
            && state.released().running == state.running,
{
    if state.resumed() is Some {
        assert(state.released().waiting =~= state.waiting.skip(1));
    }
}

/// Nobody is passed over: the request that waits behind `i` others runs
/// under the permit that comes back after `i` others have.
pub proof fn lemma_every_turn_comes(state: GatewayState, i: int)
    requires
        state.well_formed(),
        state.running > 0,
        0 <= i < state.waiting.len(),
    ensures
        state.released_times(i as nat).resumed() == Some(state.waiting[i]),
    decreases i,
{
    if i > 0 {
        lemma_step_keeps_well_formed(state, Event::Released);
        lemma_every_turn_comes(state.released(), i - 1);
    }
}

/// While the service drains, nothing new is let in, and it stops only once
/// nothing is in flight: with the listener closed, exactly when the last
/// permit that is out comes back and nobody waits; otherwise when the
/// listener closes on an idle gateway. A request in flight is thus released,
/// and answered, before the service has stopped.
pub proof fn lemma_draining_waits_for_work_in_flight(state: GatewayState, request: u64)
    requires
        state.well_formed(),
        state.phase == Phase::Draining,
    ensures
        state.decision() == Decision::Refused,
        state.requested(request) == state,
        state.signalled() == state,
        state.opened() == state,
        state.released().phase == Phase::Stopped <==> !state.listening && state.running == 1
            && state.waiting.len() == 0,
        state.closed().phase == Phase::Stopped <==> state.idle(),
        state.withdrawn(request).phase == Phase::Stopped ==> state.withdrawn(request).idle(),
{
}

/// The phases come in their order: an event leaves the phase as it is or
/// leads to the next one, so none is skipped and none comes again.
pub proof fn lemma_phases_come_in_order(state: GatewayState, event: Event)
    requires
        state.well_formed(),
    ensures
        state.step(event).phase == state.phase || state.step(event).phase.rank()
            == state.phase.rank() + 1,
{
}

/// A request that is not refused is in flight from then on, with a permit
/// or in the queue; one that is refused leaves no trace.
pub proof fn lemma_request_is_counted(state: GatewayState, request: u64)
    requires
        state.well_formed(),
    ensures
        state.decision() != Decision::Refused ==> state.requested(request).in_flight()
            == state.in_flight() + 1,
        state.decision() == Decision::Refused ==> state.requested(request) == state,
{
}

/// A request that gives up waiting is in flight no more, and takes no
/// permit with it: as many are out as before. One that does not wait changes
/// nothing.
pub proof fn lemma_withdrawal_is_counted(state: GatewayState, request: u64)
    requires
        state.well_formed(),
    ensures
        state.waiting.contains(request) ==> state.withdrawn(request).in_flight()
            == state.in_flight() - 1,
        state.withdrawn(request).running == state.running,
        !state.waiting.contains(request) ==> state.withdrawn(request) == state,
{
    if state.waiting.contains(request) {
        lemma_first_place(state.waiting, request);
        state.waiting.remove_ensures(first_place(state.waiting, request));
    }
}

/// Where `request` stands in `waiting`, its first place is a place of it
/// with no place of it before.
pub proof fn lemma_first_place(waiting: Seq<u64>, request: u64)
    requires
        waiting.contains(request),
    ensures
        0 <= first_place(waiting, request) < waiting.len(),
        waiting[first_place(waiting, request)] == request,
        forall|j: int| 0 <= j < first_place(waiting, request) ==> waiting[j] != request,
{
    let least = least_place(waiting, request, 0);
    assert(0 <= least < waiting.len() && waiting[least] == request && forall|j: int|
        0 <= j < least ==> waiting[j] != request) by {
        lemma_least_place(waiting, request, 0);
    }
}

/// The first place of `request` in `waiting` from `from` on, by search.
pub open spec fn least_place(waiting: Seq<u64>, request: u64, from: int) -> int
    decreases waiting.len() - from,
{
    if from >= waiting.len() || waiting[from] == request {
        from
    } else {
        least_place(waiting, request, from + 1)
    }
}

/// The search finds the first place of a request that stands at or behind
/// the place it starts from.
pub proof fn lemma_least_place(waiting: Seq<u64>, request: u64, from: int)
    requires
        0 <= from,
        exists|k: int| from <= k < waiting.len() && waiting[k] == request,
    ensures
        from <= least_place(waiting, request, from) < waiting.len(),
        waiting[least_place(waiting, request, from)] == request,
        forall|j: int| from <= j < least_place(waiting, request, from) ==> waiting[j] != request,
    decreases waiting.len() - from,
{
    if from < waiting.len() && waiting[from] != request {
        lemma_least_place(waiting, request, from + 1);
    }
}

/// Once stopped, the gateway stays stopped, with nothing in flight.
pub proof fn lemma_stopped_is_final(state: GatewayState, event: Event)
    requires
        state.well_formed(),
        state.phase == Phase::Stopped,
    ensures
        state.step(event) == state,
        state.idle(),
{
}

/// An admission token: the request that holds it may run.
///
/// A permit cannot be copied, and giving it back consumes it, so no permit is
/// given back twice.
#[derive(Debug, PartialEq, Eq)]
pub struct Permit {
    holder: u64,
}

impl View for Permit {
    type V = u64;

    closed spec fn view(&self) -> u64 {
        self.holder
    }
}

impl Permit {
    /// The request that holds this permit.
    pub fn holder(&self) -> (request: u64)
        ensures
            request == self@,
    {
        self.holder
    }
}

/// The answer to a request that asked for a permit.
#[derive(Debug, PartialEq, Eq)]
pub enum Admission {
    /// The request runs now, under this permit.
    Granted(Permit),
    /// The request waits; its permit comes out of a later
    /// [`Gateway::release`].
    Deferred,
    /// The request is not served.
    Refused,
}

impl Admission {
    /// The decision that this answer carries.
    pub open spec fn decision(self) -> Decision {
        match self {
            Admission::Granted(_) => Decision::Granted,
            Admission::Deferred => Decision::Deferred,
            Admission::Refused => Decision::Refused,
        }
    }
}

/// The admission controller and lifecycle manager of one service.
#[derive(Debug)]
pub struct Gateway {
    budget: usize,
    running: usize,
    waiting: VecDeque<u64>,
    phase: Phase,
    listening: bool,
}

impl View for Gateway {
    type V = GatewayState;

    closed spec fn view(&self) -> GatewayState {
        GatewayState {
            budget: self.budget as nat,
            running: self.running as nat,
            waiting: self.waiting@,
            phase: self.phase,
            listening: self.listening,
        }
    }
}

impl Gateway {
    /// What holds of every gateway: its state is well formed.
    #[verifier::type_invariant]
    pub open spec fn well_formed(self) -> bool {
        self@.well_formed()
    }

    /// A gateway with `budget` permits, before the listener is bound.
    pub fn new(budget: usize) -> (gateway: Gateway)
        ensures
            gateway@ == GatewayState::initial(budget as nat),
    {
        Gateway {
            budget,
            running: 0,
            waiting: VecDeque::new(),
            phase: Phase::Starting,
            listening: false,
        }
    }

    /// The phase of the service.
    pub fn phase(&self) -> (phase: Phase)
        ensures
            phase == self@.phase,
    {
        self.phase
    }

    /// The number of permits there are.
    pub fn budget(&self) -> (budget: usize)
        ensures
            budget == self@.budget,
    {
        self.budget
    }

    /// The number of permits that are out.
    pub fn running(&self) -> (running: usize)
        ensures
            running == self@.running,
            running <= self@.budget,
    {
        proof {
            use_type_invariant(self);
        }
        self.running
    }

    /// The number of permits that are free.
    pub fn available(&self) -> (available: usize)
        ensures
            available == self@.available(),
    {
        proof {
            use_type_invariant(self);
        }
        self.budget - self.running
    }

    /// The number of requests that wait for a permit.
    pub fn waiting(&self) -> (waiting: usize)
        ensures
            waiting == self@.waiting.len(),
    {
        self.waiting.len()
    }

    /// Answers a health check. The reply is the same in every state, also
    /// while every permit is out, and the gateway is only read.
    pub fn health(&self) -> (reply: Reply)
        ensures
            reply@ == health_reply_of(),
    {
        health_reply()
    }

    /// The listener is bound.
    pub fn open(&mut self)
        ensures
            final(self)@ == old(self)@.opened(),
    {
        proof {
            use_type_invariant(&*self);
        }
        let mut state = Gateway::new(0);
        std::mem::swap(self, &mut state);
        if state.phase == Phase::Starting {
            state = Gateway { phase: Phase::Accepting, listening: true, ..state };
        }
        *self = state;
    }

    /// The request `request` asks for a permit.
    pub fn acquire(&mut self, request: u64) -> (admission: Admission)
        ensures
            final(self)@ == old(self)@.requested(request),
            admission.decision() == old(self)@.decision(),
            admission matches Admission::Granted(permit) ==> permit@ == request,
    {
        proof {
            use_type_invariant(&*self);
        }
        if self.phase != Phase::Accepting {
            return Admission::Refused;
        }
        let mut state = Gateway::new(0);
        std::mem::swap(self, &mut state);
        let Gateway { budget, running, mut waiting, phase, listening } = state;
        if running < budget {
            *self = Gateway { budget, running: running + 1, waiting, phase, listening };
            Admission::Granted(Permit { holder: request })
        } else {
            waiting.push_back(request);
            *self = Gateway { budget, running, waiting, phase, listening };
            Admission::Deferred
        }
    }

    /// The permit `permit` comes back, however the work under it has ended.
    /// Where a request waits, the permit that is returned is the one under
    /// which the first in the queue runs now.
    pub fn release(&mut self, permit: Permit) -> (next: Option<Permit>)
        ensures
            final(self)@ == old(self)@.released(),
            match next {
                Some(passed) => old(self)@.resumed() == Some(passed@),
                None => old(self)@.resumed() is None,
            },
    {
        proof {
            use_type_invariant(&*self);
        }
        if self.running == 0 {
            return None;
        }
        let mut state = Gateway::new(0);
        std::mem::swap(self, &mut state);
        let Gateway { budget, running, mut waiting, phase, listening } = state;
        match waiting.pop_front() {
            Some(request) => {
                *self = Gateway { budget, running, waiting, phase, listening };
                Some(Permit { holder: request })
            },
            None => {
                let left = running - 1;
                let stops = phase == Phase::Draining && !listening && left == 0;
                *self = Gateway {
                    budget,
                    running: left,
                    waiting,
                    phase: if stops { Phase::Stopped } else { phase },
                    listening,
                };
                None
            },
        }
    }

    /// The request `request` gives up waiting for a permit. The result says
    /// whether it waited.
    pub fn withdraw(&mut self, request: u64) -> (waited: bool)
        ensures
            final(self)@ == old(self)@.withdrawn(request),
            waited == old(self)@.waiting.contains(request),
    {
        proof {
            use_type_invariant(&*self);
        }
        let mut i: usize = 0;
        while i < self.waiting.len()
            invariant
                i <= self.waiting@.len(),
                *self == *old(self),
                self.well_formed(),
                forall|j: int| 0 <= j < i ==> self.waiting@[j] != request,
            decreases self.waiting@.len() - i,
        {
            if self.waiting[i] == request {
                proof {
                    lemma_first_place(self.waiting@, request);
                    self.waiting@.remove_ensures(i as int);
                }
                let mut state = Gateway::new(0);
                std::mem::swap(self, &mut state);
                let Gateway { budget, running, mut waiting, phase, listening } = state;
                waiting.remove(i);
                let stops = phase == Phase::Draining && !listening && running == 0
                    && waiting.len() == 0;
                *self = Gateway {
                    budget,
                    running,
                    waiting,
                    phase: if stops { Phase::Stopped } else { phase },
                    listening,
                };
                return true;
            }
            i += 1;
        }
        false
    }

    /// The termination signal has come.
    pub fn signal(&mut self)
        ensures
            final(self)@ == old(self)@.signalled(),
    {
        proof {
            use_type_invariant(&*self);
        }
        let mut state = Gateway::new(0);
        std::mem::swap(self, &mut state);
        if state.phase == Phase::Accepting {
            state = Gateway { phase: Phase::Draining, ..state };
        }
        *self = state;
    }

    /// The listener has closed.
    pub fn close(&mut self)
        ensures
            final(self)@ == old(self)@.closed(),
    {
        proof {
            use_type_invariant(&*self);
        }
        let mut state = Gateway::new(0);
        std::mem::swap(self, &mut state);
        let Gateway { budget, running, waiting, phase, listening } = state;
        if phase == Phase::Draining {
            let stops = running == 0 && waiting.len() == 0;
            *self = Gateway {
                budget,
                running,
                waiting,
                phase: if stops { Phase::Stopped } else { phase },
                listening: false,
            };
        } else {
            *self = Gateway { budget, running, waiting, phase, listening };
        }
    }
}

} // verus!
