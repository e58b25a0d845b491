//! Server bootstrap: the bind configuration, and the lifecycle of a server
//! as a machine that takes the events the transport reports and answers with
//! what to do next.

use vstd::prelude::*;
use crate::decimal::{decimal, push_decimal};

verus! {

/// Where the server listens.
#[derive(Debug)]
pub struct ServerConfig {
    pub host: String,
    pub port: u16,
}

impl ServerConfig {
    /// The default configuration: every interface, port 3000.
    pub fn new() -> (config: ServerConfig)
        ensures
            config.host@ == "0.0.0.0"@,
            config.port == 3000,
    {
        ServerConfig { host: "0.0.0.0".to_owned(), port: 3000 }
    }

    /// The configuration with another bind address.
    pub fn host(self, host: String) -> (config: ServerConfig)
        ensures
            config.host@ == host@,
            config.port == self.port,
    {
        ServerConfig { host, port: self.port }
    }

    /// The configuration with another port.
    pub fn port(self, port: u16) -> (config: ServerConfig)
        ensures
            config.host@ == self.host@,
            config.port == port,
    {
        ServerConfig { host: self.host, port }
    }

    /// The address to bind: the host, a colon, the port in decimal.
    pub fn bind_address(&self) -> (address: String)
        ensures
            address@ == self.host@ + ":"@ + decimal(self.port as nat),
    {
        let mut address = self.host.clone();
        address.append(":");
        push_decimal(&mut address, self.port as u64);
        assert(address@ =~= self.host@ + ":"@ + decimal(self.port as nat));
        address
    }
}

impl Default for ServerConfig {
    fn default() -> (config: ServerConfig)
        ensures
            config.host@ == "0.0.0.0"@,
            config.port == 3000,
    {
        ServerConfig::new()
    }
}

/// Where a server stands in its life.
#[derive(Clone, Copy, Debug, PartialEq, Eq)]
pub enum Phase {
    /// Constructed; the container is not validated yet.
    Created,
    /// Validated; the listener is being bound.
    Binding,
    /// Accepting requests.
    Listening,
    /// Shutting down: accepting nothing, waiting for requests in flight.
    Draining,
    /// The listener is released.
    Stopped,
    /// Startup failed.
    Failed,
}

/// What the transport reports.
#[derive(Clone, Copy, Debug, PartialEq, Eq)]
pub enum Event {
    /// Eager validation of the container ended, well or not.
    Validated { ok: bool },
    /// The listener is bound.
    Bound,
    /// The address could not be bound.
    BindFailed,
    /// A request has come in.
    RequestArrived,
    /// A request that was handled has been answered.
    RequestFinished,
    /// The signal to shut down has come.
    Shutdown,
}

/// What the transport is to do next.
#[derive(Clone, Copy, Debug, PartialEq, Eq)]
pub enum Action {
    /// Bind the listener.
    Bind,
    /// Start accepting requests.
    Accept,
    /// Hand the request to the dispatcher.
    Handle,
    /// Turn the request away.
    Refuse,
    /// Keep waiting for the requests in flight.
    Wait,
    /// Release the listener: nothing is in flight.
    Release,
    /// Give up: the server cannot start.
    Abort,
    /// Nothing: the event changes nothing.
    Carry,
}

/// The state of a server: its phase and the number of requests in flight.
#[derive(Clone, Copy, Debug, PartialEq, Eq)]
pub struct Lifecycle {
    pub phase: Phase,
    pub in_flight: u64,
}

/// The state after an event, and what to do.
///
/// A server is validated, then bound, then listens. While it listens each
/// request is handled and counted until it is finished. The shutdown signal
/// stops the listening; the listener is released when the last request in
/// flight is finished, at once if there is none. A failed validation or
/// bind is fatal. An event out of its place changes nothing.
pub open spec fn next(state: Lifecycle, event: Event) -> (Lifecycle, Action) {
    match (state.phase, event) {
        (Phase::Created, Event::Validated { ok }) => if ok {
            (Lifecycle { phase: Phase::Binding, in_flight: state.in_flight }, Action::Bind)
        } else {
            (Lifecycle { phase: Phase::Failed, in_flight: state.in_flight }, Action::Abort)
        },
        (Phase::Binding, Event::Bound) => (
            Lifecycle { phase: Phase::Listening, in_flight: state.in_flight },
            Action::Accept,
        ),
        (Phase::Binding, Event::BindFailed) => (
            Lifecycle { phase: Phase::Failed, in_flight: state.in_flight },
            Action::Abort,
        ),
        (Phase::Listening, Event::RequestArrived) => if state.in_flight < u64::MAX {
            (
                Lifecycle { phase: Phase::Listening, in_flight: (state.in_flight + 1) as u64 },
                Action::Handle,
            )
        } else {
            (state, Action::Refuse)
        },
        (Phase::Listening, Event::RequestFinished) => if state.in_flight > 0 {
            (
                Lifecycle { phase: Phase::Listening, in_flight: (state.in_flight - 1) as u64 },
                Action::Carry,
            )
        } else {
            (state, Action::Carry)
        },
        (Phase::Listening, Event::Shutdown) => if state.in_flight == 0 {
            (Lifecycle { phase: Phase::Stopped, in_flight: 0 }, Action::Release)
        } else {
            (Lifecycle { phase: Phase::Draining, in_flight: state.in_flight }, Action::Wait)
        },
        (Phase::Draining, Event::RequestArrived) => (state, Action::Refuse),
        (Phase::Draining, Event::RequestFinished) => if state.in_flight <= 1 {
            (Lifecycle { phase: Phase::Stopped, in_flight: 0 }, Action::Release)
        } else {
            (
                Lifecycle { phase: Phase::Draining, in_flight: (state.in_flight - 1) as u64 },
                Action::Wait,
            )
        },
        (Phase::Draining, Event::Shutdown) => (state, Action::Wait),
        (Phase::Stopped, Event::RequestArrived) => (state, Action::Refuse),
        (Phase::Failed, Event::RequestArrived) => (state, Action::Refuse),
        _ => (state, Action::Carry),
    }
}

/// The state after a run of events.
pub open spec fn after_events(state: Lifecycle, events: Seq<Event>) -> Lifecycle
    decreases events.len(),
{
    if events.len() == 0 {
        state
    } else {
        next(after_events(state, events.drop_last()), events.last()).0
    }
}

/// Whether nothing is accepted any more: the server drains, has stopped or
/// has failed.
pub open spec fn closed(phase: Phase) -> bool {
    phase == Phase::Draining || phase == Phase::Stopped || phase == Phase::Failed
}

/// The listener is released only when nothing is in flight, and then the
/// server has stopped.
pub proof fn lemma_released_when_drained(state: Lifecycle, event: Event)
    ensures
        next(state, event).1 == Action::Release ==> next(state, event).0 == (Lifecycle {
            phase: Phase::Stopped,
            in_flight: 0,
        }) && state.in_flight <= 1,
{
}

/// A request is handled only by a server that listens, and is then counted.
pub proof fn lemma_handled_when_listening(state: Lifecycle, event: Event)
    ensures
        next(state, event).1 == Action::Handle ==> state.phase == Phase::Listening && next(
            state,
            event,
        ).0.phase == Phase::Listening && next(state, event).0.in_flight == state.in_flight + 1,
{
}

/// A server that has stopped or failed stays as it is.
pub proof fn lemma_ended_stays(state: Lifecycle, event: Event)
    requires
        state.phase == Phase::Stopped || state.phase == Phase::Failed,
    ensures
        next(state, event).0 == state,
{
}

/// Once a server accepts nothing any more, no run of events makes it accept
/// again.
pub proof fn lemma_closed_stays_closed(state: Lifecycle, events: Seq<Event>)
    requires
        closed(state.phase),
    ensures
        closed(after_events(state, events).phase),
    decreases events.len(),
{
    if events.len() > 0 {
        lemma_closed_stays_closed(state, events.drop_last());
    }
}

impl Lifecycle {
    /// A server that is constructed and has handled nothing.
    pub fn new() -> (state: Lifecycle)
        ensures
            state == (Lifecycle { phase: Phase::Created, in_flight: 0 }),
    {
        Lifecycle { phase: Phase::Created, in_flight: 0 }
    }

    /// Takes an event and says what to do.
    pub fn step(&mut self, event: Event) -> (action: Action)
        ensures
            (*final(self), action) == next(*old(self), event),
    {
        let (state, action) = match (self.phase, event) {
            (Phase::Created, Event::Validated { ok }) => if ok {
                (Lifecycle { phase: Phase::Binding, in_flight: self.in_flight }, Action::Bind)
            } else {
                (Lifecycle { phase: Phase::Failed, in_flight: self.in_flight }, Action::Abort)
            },
            (Phase::Binding, Event::Bound) => (
                Lifecycle { phase: Phase::Listening, in_flight: self.in_flight },
                Action::Accept,
            ),
            (Phase::Binding, Event::BindFailed) => (
                Lifecycle { phase: Phase::Failed, in_flight: self.in_flight },
                Action::Abort,
            ),
            (Phase::Listening, Event::RequestArrived) => if self.in_flight < u64::MAX {
                (
                    Lifecycle { phase: Phase::Listening, in_flight: self.in_flight + 1 },
                    Action::Handle,
                )
            } else {
                (*self, Action::Refuse)
            },
            (Phase::Listening, Event::RequestFinished) => if self.in_flight > 0 {
                (
                    Lifecycle { phase: Phase::Listening, in_flight: self.in_flight - 1 },
                    Action::Carry,
                )
            } else {
                (*self, Action::Carry)
            },
            (Phase::Listening, Event::Shutdown) => if self.in_flight == 0 {
                (Lifecycle { phase: Phase::Stopped, in_flight: 0 }, Action::Release)
            } else {
                (Lifecycle { phase: Phase::Draining, in_flight: self.in_flight }, Action::Wait)
            },
            (Phase::Draining, Event::RequestArrived) => (*self, Action::Refuse),
            (Phase::Draining, Event::RequestFinished) => if self.in_flight <= 1 {
                (Lifecycle { phase: Phase::Stopped, in_flight: 0 }, Action::Release)
            } else {
                (
                    Lifecycle { phase: Phase::Draining, in_flight: self.in_flight - 1 },
                    Action::Wait,
                )
            },
            (Phase::Draining, Event::Shutdown) => (*self, Action::Wait),
            (Phase::Stopped, Event::RequestArrived) => (*self, Action::Refuse),
            (Phase::Failed, Event::RequestArrived) => (*self, Action::Refuse),
            _ => (*self, Action::Carry),
        };
        *self = state;
        action
    }
}

} // verus!
