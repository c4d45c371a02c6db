//! The life of the service: running, draining, stopped.
//!
//! The service itself waits for requests, for a timer and for a signal; what
//! it does when one of them comes is decided here. While running it serves
//! requests and writes the table to its file at every tick. The shutdown
//! signal starts the drain: no new request is served, and once the requests
//! in flight are answered, or the drain has taken too long, the table is
//! written one last time. When that last write is done the service has
//! stopped.

use vstd::prelude::*;

verus! {

/// The phase of the service.
#[derive(Clone, Copy, Debug, PartialEq, Eq, Structural)]
pub enum Phase {
    Running,
    Draining,
    Stopped,
}

/// What can happen to the service.
#[derive(Clone, Copy, Debug, PartialEq, Eq, Structural)]
pub enum Event {
    /// A request has come in.
    Request,
    /// A request in flight has been answered.
    Finished,
    /// The time between two writes of the table has passed.
    Tick,
    /// The signal to shut down has come.
    Shutdown,
    /// The drain has taken as long as it may.
    Timeout,
    /// A write of the table is done.
    Flushed,
}

/// What the service is to do next.
#[derive(Clone, Copy, Debug, PartialEq, Eq, Structural)]
pub enum Action {
    /// Answer the request.
    Serve,
    /// Turn the request away.
    Refuse,
    /// Write the table to its file.
    Flush,
    /// Write the table to its file for the last time.
    FinalFlush,
    /// End the process.
    Exit,
    /// Nothing.
    Wait,
}

/// The state of the service between two events.
#[derive(Debug)]
pub struct Lifecycle {
    phase: Phase,
    in_flight: usize,
    closing: bool,
}

/// The mathematical content of a [`Lifecycle`].
pub struct LifecycleView {
    /// The phase.
    pub phase: Phase,
    /// The number of requests that are served and not answered yet.
    pub in_flight: nat,
    /// Whether the last write has been asked for.
    pub closing: bool,
}

impl LifecycleView {
    /// What holds of every state: the last write is asked for only after
    /// the shutdown signal, and the service stops only after it.
    pub open spec fn sound(self) -> bool {
        &&& self.closing ==> self.phase != Phase::Running
        &&& self.phase == Phase::Stopped ==> self.closing
        &&& self.in_flight <= usize::MAX
    }

    /// The state at the start.
    pub open spec fn start() -> LifecycleView {
        LifecycleView { phase: Phase::Running, in_flight: 0, closing: false }
    }

    /// The state after an event, and what is to be done.
    pub open spec fn next(self, event: Event) -> (LifecycleView, Action) {
        match self.phase {
            Phase::Running => match event {
                Event::Request => if self.in_flight < usize::MAX {
                    (LifecycleView { in_flight: self.in_flight + 1, ..self }, Action::Serve)
                } else {
                    (self, Action::Refuse)
                },
                Event::Finished => (self.answered(), Action::Wait),
                Event::Tick => (self, Action::Flush),
                Event::Shutdown => if self.in_flight == 0 {
                    (
                        LifecycleView { phase: Phase::Draining, closing: true, ..self },
                        Action::FinalFlush,
                    )
                } else {
                    (LifecycleView { phase: Phase::Draining, ..self }, Action::Wait)
                },
                Event::Timeout => (self, Action::Wait),
                Event::Flushed => (self, Action::Wait),
            },
            Phase::Draining => match event {
                Event::Request => (self, Action::Refuse),
                Event::Finished => if !self.closing && self.answered().in_flight == 0 {
                    (LifecycleView { closing: true, ..self.answered() }, Action::FinalFlush)
                } else {
                    (self.answered(), Action::Wait)
                },
                Event::Tick => (self, Action::Wait),
                Event::Shutdown => (self, Action::Wait),
                Event::Timeout => if !self.closing {
                    (LifecycleView { closing: true, ..self }, Action::FinalFlush)
                } else {
                    (self, Action::Wait)
                },
                Event::Flushed => if self.closing {
                    (LifecycleView { phase: Phase::Stopped, ..self }, Action::Exit)
                } else {
                    (self, Action::Wait)
                },
            },
            Phase::Stopped => match event {
                Event::Request => (self, Action::Refuse),
                _ => (self, Action::Wait),
            },
        }
    }

    /// The state with one request fewer in flight.
    pub open spec fn answered(self) -> LifecycleView {
        if self.in_flight > 0 {
            LifecycleView { in_flight: (self.in_flight - 1) as nat, ..self }
        } else {
            self
        }
    }
}

/// The place of a phase in the life of the service.
pub open spec fn rank(phase: Phase) -> int {
    match phase {
        Phase::Running => 0,
        Phase::Draining => 1,
        Phase::Stopped => 2,
    }
}

/// The state after a run of events.
pub open spec fn after(start: LifecycleView, events: Seq<Event>) -> LifecycleView
    decreases events.len(),
{
    if events.len() == 0 {
        start
    } else {
        after(start, events.drop_last()).next(events.last()).0
    }
}

/// One event keeps a state sound and never takes the service back to an
/// earlier phase. Requests are served only while running; the last write
/// is asked for exactly when the state begins to close, which it does
/// once; and the service stops only when a write is done while it closes.
pub proof fn lemma_step(s: LifecycleView, event: Event)
    requires
        s.sound(),
    ensures
        s.next(event).0.sound(),
        rank(s.next(event).0.phase) >= rank(s.phase),
        rank(s.next(event).0.phase) <= rank(s.phase) + 1,
        s.next(event).1 == Action::Serve ==> s.phase == Phase::Running,
        s.next(event).1 == Action::Flush ==> s.phase == Phase::Running,
        s.next(event).1 == Action::FinalFlush <==> !s.closing && s.next(event).0.closing,
        s.next(event).1 == Action::Exit <==> s.phase == Phase::Draining && s.next(event).0.phase
            == Phase::Stopped,
        s.next(event).1 == Action::Exit ==> event == Event::Flushed,
{
}

/// However many events come, the state stays sound and the phase never
/// goes back.
pub proof fn lemma_run(start: LifecycleView, events: Seq<Event>)
    requires
        start.sound(),
    ensures
        after(start, events).sound(),
        rank(after(start, events).phase) >= rank(start.phase),
    decreases events.len(),
{
    if events.len() > 0 {
        lemma_run(start, events.drop_last());
        lemma_step(after(start, events.drop_last()), events.last());
    }
}

impl View for Lifecycle {
    type V = LifecycleView;

    closed spec fn view(&self) -> LifecycleView {
        LifecycleView {
            phase: self.phase,
            in_flight: self.in_flight as nat,
            closing: self.closing,
        }
    }
}

impl Lifecycle {
    #[verifier::type_invariant]
    spec fn well_formed(self) -> bool {
        self@.sound()
    }

    /// A service that has just started: running, with no request in flight.
    pub fn new() -> (r: Lifecycle)
        ensures
            r@ == LifecycleView::start(),
    {
        Lifecycle { phase: Phase::Running, in_flight: 0, closing: false }
    }

    /// The phase of the service.
    pub fn phase(&self) -> (p: Phase)
        ensures
            p == self@.phase,
            self@.sound(),
    {
        proof {
            use_type_invariant(self);
        }
        self.phase
    }

    /// The number of requests in flight.
    pub fn in_flight(&self) -> (n: usize)
        ensures
            n == self@.in_flight,
    {
        self.in_flight
    }

    /// Takes note of an event and says what is to be done.
    pub fn step(&mut self, event: Event) -> (action: Action)
        ensures
            (final(self)@, action) == old(self)@.next(event),
            final(self)@.sound(),
    {
        proof {
            use_type_invariant(&*self);
            lemma_step(self@, event);
        }
        let phase = self.phase;
        let in_flight: usize = self.in_flight;
        let closing = self.closing;
        let fewer: usize = if in_flight > 0 {
            in_flight - 1
        } else {
            0
        };
        let (next, action) = match phase {
            Phase::Running => match event {
                Event::Request => if in_flight < usize::MAX {
                    (Lifecycle { phase, in_flight: in_flight + 1, closing }, Action::Serve)
                } else {
                    (Lifecycle { phase, in_flight, closing }, Action::Refuse)
                },
                Event::Finished => (Lifecycle { phase, in_flight: fewer, closing }, Action::Wait),
                Event::Tick => (Lifecycle { phase, in_flight, closing }, Action::Flush),
                Event::Shutdown => if in_flight == 0 {
                    (
                        Lifecycle { phase: Phase::Draining, in_flight, closing: true },
                        Action::FinalFlush,
                    )
                } else {
                    (Lifecycle { phase: Phase::Draining, in_flight, closing }, Action::Wait)
                },
                Event::Timeout => (Lifecycle { phase, in_flight, closing }, Action::Wait),
                Event::Flushed => (Lifecycle { phase, in_flight, closing }, Action::Wait),
            },
            Phase::Draining => match event {
                Event::Request => (Lifecycle { phase, in_flight, closing }, Action::Refuse),
                Event::Finished => if !closing && fewer == 0 {
                    (Lifecycle { phase, in_flight: fewer, closing: true }, Action::FinalFlush)
                } else {
                    (Lifecycle { phase, in_flight: fewer, closing }, Action::Wait)
                },
                Event::Tick => (Lifecycle { phase, in_flight, closing }, Action::Wait),
                Event::Shutdown => (Lifecycle { phase, in_flight, closing }, Action::Wait),
                Event::Timeout => if !closing {
                    (Lifecycle { phase, in_flight, closing: true }, Action::FinalFlush)
                } else {
                    (Lifecycle { phase, in_flight, closing }, Action::Wait)
                },
                Event::Flushed => if closing {
                    (Lifecycle { phase: Phase::Stopped, in_flight, closing }, Action::Exit)
                } else {
                    (Lifecycle { phase, in_flight, closing }, Action::Wait)
                },
            },
            Phase::Stopped => match event {
                Event::Request => (Lifecycle { phase, in_flight, closing }, Action::Refuse),
                _ => (Lifecycle { phase, in_flight, closing }, Action::Wait),
            },
        };
        *self = next;
        action
    }
}

} // verus!
