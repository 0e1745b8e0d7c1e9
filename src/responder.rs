use vstd::prelude::*;

verus! {

/// The transport a responder serves.
#[derive(Clone, Copy, Debug, PartialEq, Eq)]
pub enum Transport {
    Tcp,
    Udp,
}

/// Where a responder stands: waiting for its socket, serving, or stopped for good.
#[derive(Clone, Copy, Debug, PartialEq, Eq)]
pub enum Phase {
    Binding,
    Serving,
    Stopped,
}

/// A failure that ends a responder.
#[derive(Clone, Copy, Debug, PartialEq, Eq)]
pub enum Failure {
    /// The socket could not be bound.
    Bind,
    /// The listener stopped handing out connections.
    Listener,
    /// Receiving a datagram failed.
    Receive,
}

/// What the transport reports to a responder. `P` is what a reply goes to:
/// an accepted connection, or the source address of a datagram.
pub enum Event<P> {
    /// The socket was bound.
    Bound,
    /// Binding the socket failed.
    BindFailed,
    /// A connection was accepted, or a datagram came in, from `P`.
    Arrived(P),
    /// One accept or receive call failed.
    SourceFailed,
    /// The listener's stream of connections ended.
    SourceEnded,
}

/// What a responder asks the transport to do next.
pub enum Action<P> {
    /// Nothing to do; keep waiting.
    Wait,
    /// Start an independent task that sends one time payload to `P`.
    Reply(P),
    /// Log the failure at diagnostic level and keep serving.
    LogAndContinue,
    /// Stop serving and hand the failure to the caller.
    Exit(Failure),
}

/// Whether `e` ends a serving responder of transport `t`.
pub open spec fn is_fatal<P>(t: Transport, e: Event<P>) -> bool {
    match e {
        Event::SourceEnded => true,
        Event::SourceFailed => t == Transport::Udp,
        _ => false,
    }
}

/// The next phase and the action of a responder of transport `t` in phase `p`
/// on the event `e`.
pub open spec fn transition<P>(t: Transport, p: Phase, e: Event<P>) -> (Phase, Action<P>) {
    match p {
        Phase::Binding => match e {
            Event::Bound => (Phase::Serving, Action::Wait),
            Event::BindFailed => (Phase::Stopped, Action::Exit(Failure::Bind)),
            _ => (Phase::Binding, Action::Wait),
        },
        Phase::Serving => match e {
            Event::Arrived(peer) => (Phase::Serving, Action::Reply(peer)),
            Event::SourceFailed => if t == Transport::Tcp {
                (Phase::Serving, Action::LogAndContinue)
            } else {
                (Phase::Stopped, Action::Exit(Failure::Receive))
            },
            Event::SourceEnded => (Phase::Stopped, Action::Exit(
                if t == Transport::Tcp { Failure::Listener } else { Failure::Receive },
            )),
            _ => (Phase::Serving, Action::Wait),
        },
        Phase::Stopped => (Phase::Stopped, Action::Wait),
    }
}

/// The final phase and the actions, one per event, of a responder of
/// transport `t` that starts in phase `p` and sees `events` in order.
pub open spec fn run<P>(t: Transport, p: Phase, events: Seq<Event<P>>) -> (Phase, Seq<Action<P>>)
    decreases events.len(),
{
    if events.len() == 0 {
        (p, Seq::empty())
    } else {
        let (next, a) = transition(t, p, events[0]);
        let (last, rest) = run(t, next, events.drop_first());
        (last, seq![a] + rest)
    }
}

/// The targets of the replies among `actions`, in order.
pub open spec fn replies<P>(actions: Seq<Action<P>>) -> Seq<P>
    decreases actions.len(),
{
    if actions.len() == 0 {
        Seq::empty()
    } else {
        let rest = replies(actions.drop_first());
        match actions[0] {
            Action::Reply(peer) => seq![peer] + rest,
            _ => rest,
        }
    }
}

/// The peers of the arrivals among `events`, in order.
pub open spec fn arrivals<P>(events: Seq<Event<P>>) -> Seq<P>
    decreases events.len(),
{
    if events.len() == 0 {
        Seq::empty()
    } else {
        let rest = arrivals(events.drop_first());
        match events[0] {
            Event::Arrived(peer) => seq![peer] + rest,
            _ => rest,
        }
    }
}

/// The decision logic of one daytime responder.
pub struct Responder {
    pub transport: Transport,
    pub phase: Phase,
}

impl Responder {
    /// A responder of transport `transport` that has not bound its socket yet.
    pub fn new(transport: Transport) -> (r: Responder)
        ensures
            r.transport == transport,
            r.phase == Phase::Binding,
    {
        Responder { transport, phase: Phase::Binding }
    }

    /// Takes one event from the transport and says what to do about it.
    pub fn step<P>(&mut self, event: Event<P>) -> (r: Action<P>)
        ensures
            final(self).transport == old(self).transport,
            (final(self).phase, r) == transition(old(self).transport, old(self).phase, event),
    {
        match self.phase {
            Phase::Binding => match event {
                Event::Bound => {
                    self.phase = Phase::Serving;
                    Action::Wait
                },
                Event::BindFailed => {
                    self.phase = Phase::Stopped;
                    Action::Exit(Failure::Bind)
                },
                _ => Action::Wait,
            },
            Phase::Serving => match event {
                Event::Arrived(peer) => Action::Reply(peer),
                Event::SourceFailed => match self.transport {
                    Transport::Tcp => Action::LogAndContinue,
                    Transport::Udp => {
                        self.phase = Phase::Stopped;
                        Action::Exit(Failure::Receive)
                    },
                },
                Event::SourceEnded => {
                    self.phase = Phase::Stopped;
                    match self.transport {
                        Transport::Tcp => Action::Exit(Failure::Listener),
                        Transport::Udp => Action::Exit(Failure::Receive),
                    }
                },
                _ => Action::Wait,
            },
            Phase::Stopped => Action::Wait,
        }
    }
}


/// A serving responder that sees no fatal event stays serving, takes one
/// action per event, and replies exactly once to each arrival, to its peer
/// and in the order of arrival. For TCP this holds across failed accepts.
pub proof fn lemma_serving_replies_once_per_arrival<P>(t: Transport, events: Seq<Event<P>>)
    requires
        forall|i: int| 0 <= i < events.len() ==> !is_fatal(t, #[trigger] events[i]),
    ensures
        run(t, Phase::Serving, events).0 == Phase::Serving,
        run(t, Phase::Serving, events).1.len() == events.len(),
        replies(run(t, Phase::Serving, events).1) == arrivals(events),
    decreases events.len(),
{
    if events.len() > 0 {
        let rest = events.drop_first();
        assert(!is_fatal(t, events[0]));
        assert forall|i: int| 0 <= i < rest.len() implies !is_fatal(t, #[trigger] rest[i]) by {
            assert(rest[i] == events[i + 1]);
        }
        lemma_serving_replies_once_per_arrival(t, rest);
        let acts = run(t, Phase::Serving, events).1;
        assert(acts.drop_first() == run(t, Phase::Serving, rest).1);
    }
}

/// A stopped responder stays stopped and never replies.
pub proof fn lemma_stopped_is_final<P>(t: Transport, events: Seq<Event<P>>)
    ensures
        run(t, Phase::Stopped, events).0 == Phase::Stopped,
        run(t, Phase::Stopped, events).1.len() == events.len(),
        replies(run(t, Phase::Stopped, events).1) == Seq::<P>::empty(),
    decreases events.len(),
{
    if events.len() > 0 {
        lemma_stopped_is_final(t, events.drop_first());
        let acts = run(t, Phase::Stopped, events).1;
        assert(acts.drop_first() == run(t, Phase::Stopped, events.drop_first()).1);
    }
}

/// A responder whose bind fails exits with a bind failure first, stops, and
/// replies to nothing, whatever the transport reports afterwards.
pub proof fn lemma_bind_failure_never_serves<P>(t: Transport, rest: Seq<Event<P>>)
    ensures
        ({
            let (last, acts) = run(t, Phase::Binding, seq![Event::BindFailed] + rest);
            &&& last == Phase::Stopped
            &&& acts[0] == Action::<P>::Exit(Failure::Bind)
            &&& replies(acts) == Seq::<P>::empty()
        }),
{
    let events = seq![Event::BindFailed] + rest;
    assert(events[0] == Event::<P>::BindFailed);
    assert(events.drop_first() == rest);
    lemma_stopped_is_final(t, rest);
    let acts = run(t, Phase::Binding, events).1;
    assert(acts.drop_first() == run(t, Phase::Stopped, rest).1);
}

/// A responder whose bind succeeds serves: while no fatal event comes, it
/// replies exactly once to each later arrival, to its peer, in order.
pub proof fn lemma_bound_then_serves<P>(t: Transport, rest: Seq<Event<P>>)
    requires
        forall|i: int| 0 <= i < rest.len() ==> !is_fatal(t, #[trigger] rest[i]),
    ensures
        ({
            let (last, acts) = run(t, Phase::Binding, seq![Event::Bound] + rest);
            &&& last == Phase::Serving
            &&& acts.len() == rest.len() + 1
            &&& replies(acts) == arrivals(rest)
        }),
{
    let events = seq![Event::Bound] + rest;
    assert(events[0] == Event::<P>::Bound);
    assert(events.drop_first() == rest);
    lemma_serving_replies_once_per_arrival(t, rest);
    let acts = run(t, Phase::Binding, events).1;
    assert(acts.drop_first() == run(t, Phase::Serving, rest).1);
}

} // verus!
