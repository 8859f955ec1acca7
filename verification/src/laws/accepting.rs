//! What a listener is for: every connection to its port is handed out, once and in order.

use vstd::prelude::*;

use crate::action::ActionView;
use crate::error::Fault;
use crate::inner::InnerView;
use crate::laws::tables::{law_steps_keep_the_state_well_formed, Step};
use crate::listener::accepted;
use crate::socket::PortState;

verus! {

/// A connection: the handle of its socket, its port here and its port at the peer.
pub struct Connection {
    pub id: usize,
    pub sport: u16,
    pub dport: u16,
}

impl InnerView {
    /// The step sets up a connection that was asked for on `port`: its socket was not open before,
    /// and is open now.
    pub open spec fn sets_up(self, step: Step, port: u16, id: usize) -> bool {
        let after = self.after(step);
        &&& after.sockets.contains_key(id)
        &&& after.sockets[id].accepting
        &&& after.sockets[id].sport == port
        &&& after.sockets[id].state == PortState::Open
        &&& !(self.sockets.contains_key(id) && self.sockets[id].state == PortState::Open)
    }

    /// The connection that a step sets up on `port` while the port has a listener.
    pub open spec fn established_by(self, step: Step, port: u16) -> Seq<Connection> {
        if self.listeners.contains(port) && exists|id: usize| self.sets_up(step, port, id) {
            let id = choose|id: usize| self.sets_up(step, port, id);
            seq![Connection { id, sport: port, dport: self.after(step).sockets[id].dport }]
        } else {
            Seq::empty()
        }
    }

    /// The connections that are set up on `port` while the port has a listener, in order.
    pub open spec fn established(self, steps: Seq<Step>, port: u16) -> Seq<Connection>
        decreases steps.len(),
    {
        if steps.len() == 0 {
            Seq::empty()
        } else {
            self.established_by(steps[0], port) + self.after(steps[0]).established(
                steps.drop_first(),
                port,
            )
        }
    }

    /// The connections whose streams a step calls to queue with the listener on `port`, once for
    /// each call.
    pub open spec fn queued_by(self, step: Step, port: u16) -> Seq<Connection> {
        match step {
            Step::Deliver { frame, fresh } => Seq::new(
                calls(self.actions(frame), port),
                |i: int|
                    Connection {
                        id: self.recipient(frame, fresh)->0,
                        sport: frame.dport,
                        dport: frame.sport,
                    },
            ),
            _ => Seq::empty(),
        }
    }

    /// The connections whose streams the steps call to queue with the listener on `port`, in order.
    pub open spec fn queued_with(self, steps: Seq<Step>, port: u16) -> Seq<Connection>
        decreases steps.len(),
    {
        if steps.len() == 0 {
            Seq::empty()
        } else {
            self.queued_by(steps[0], port) + self.after(steps[0]).queued_with(
                steps.drop_first(),
                port,
            )
        }
    }
}

/// How often a stream is to be queued with the listener on `port`.
pub open spec fn calls(actions: Seq<ActionView>, port: u16) -> nat
    decreases actions.len(),
{
    if actions.len() == 0 {
        0
    } else if actions[0] == ActionView::Accept(port) {
        1 + calls(actions.drop_first(), port)
    } else {
        calls(actions.drop_first(), port)
    }
}

proof fn lemma_no_calls(actions: Seq<ActionView>, port: u16)
    requires
        forall|i: int| 0 <= i < actions.len() ==> #[trigger] actions[i] != ActionView::Accept(port),
    ensures
        calls(actions, port) == 0,
    decreases actions.len(),
{
    if actions.len() > 0 {
        assert(actions[0] != ActionView::Accept(port));
        lemma_no_calls(actions.drop_first(), port);
    }
}

/// A step calls to queue a stream exactly where it sets up a connection.
proof fn lemma_queued_by(state: InnerView, step: Step, port: u16)
    requires
        state.well_formed(),
        state.allows(step),
    ensures
        state.queued_by(step, port) == state.established_by(step, port),
{
    match step {
        Step::Deliver { frame, fresh } => {
            let listening = state.listeners.contains(frame.dport);
            let socket = state.recipient_socket(frame);
            let actions = state.actions(frame);
            let received = socket.received(frame, listening);
            let known = state.vends(frame) || state.lookup(frame.dport, frame.sport) is Some;
            if known {
                let id = state.recipient(frame, fresh)->0;
                if !state.vends(frame) {
                    assert(state.holds((frame.dport, frame.sport), id));
                }
                assert(state.after(step).sockets[id] == received);
                assert forall|other: usize| state.sets_up(step, port, other) implies other == id by {
                    if other != id {
                        assert(state.after(step).sockets[other] == state.sockets[other]);
                    }
                }
                if socket.hands_out(frame.flag, listening) && socket.accepting && port
                    == frame.dport {
                    assert(state.sets_up(step, port, id));
                    assert(actions =~= seq![actions[0], ActionView::Accept(port)]);
                    assert(actions.drop_first() =~= seq![ActionView::Accept(port)]);
                    assert(actions.drop_first().drop_first() =~= Seq::<ActionView>::empty());
                    reveal_with_fuel(calls, 3);
                    assert(state.queued_by(step, port) =~= state.established_by(step, port));
                } else {
                    lemma_no_calls(actions, port);
                    if state.listeners.contains(port) {
                        assert(!state.sets_up(step, port, id));
                    }
                    assert(state.queued_by(step, port) =~= state.established_by(step, port));
                }
            } else {
                lemma_no_calls(actions, port);
                assert forall|other: usize| !state.sets_up(step, port, other) by {
                    assert(state.after(step) == state);
                }
                assert(state.queued_by(step, port) =~= state.established_by(step, port));
            }
        },
        _ => {
            assert forall|other: usize| !state.sets_up(step, port, other) by {}
            assert(state.queued_by(step, port) =~= state.established_by(step, port));
        },
    }
}

/// Whatever happens, the streams that are to be queued with the listener on a port are one for
/// each connection that is set up on the port while it has a listener, in the order in which the
/// connections are set up, and none of a connection to another port.
pub proof fn law_each_connection_is_queued_once(state: InnerView, steps: Seq<Step>, port: u16)
    requires
        state.well_formed(),
        state.allows_all(steps),
    ensures
        state.queued_with(steps, port) == state.established(steps, port),
        forall|i: int|
            0 <= i < state.queued_with(steps, port).len() ==> (#[trigger] state.queued_with(
                steps,
                port,
            )[i]).sport == port,
    decreases steps.len(),
{
    if steps.len() > 0 {
        lemma_queued_by(state, steps[0], port);
        law_steps_keep_the_state_well_formed(state, steps[0]);
        law_each_connection_is_queued_once(state.after(steps[0]), steps.drop_first(), port);
        let here = state.queued_by(steps[0], port);
        let later = state.after(steps[0]).queued_with(steps.drop_first(), port);
        assert forall|i: int| 0 <= i < (here + later).len() implies (#[trigger] (here
            + later)[i]).sport == port by {
            if i >= here.len() {
                assert((here + later)[i] == later[i - here.len()]);
            }
        }
    }
}

/// Something that happens at a multiplexor with a listener.
pub enum Event {
    /// Its state changes.
    Step(Step),
    /// `accept` is called on the listener.
    Accept,
}

/// The changes of state among the events.
pub open spec fn steps_of(events: Seq<Event>) -> Seq<Step>
    decreases events.len(),
{
    if events.len() == 0 {
        Seq::empty()
    } else {
        match events[0] {
            Event::Step(step) => seq![step] + steps_of(events.drop_first()),
            Event::Accept => steps_of(events.drop_first()),
        }
    }
}

/// How often `accept` is called.
pub open spec fn accepts(events: Seq<Event>) -> nat
    decreases events.len(),
{
    if events.len() == 0 {
        0
    } else {
        match events[0] {
            Event::Step(_) => accepts(events.drop_first()),
            Event::Accept => 1 + accepts(events.drop_first()),
        }
    }
}

/// What the calls of `accept` on the listener on `port` return, in the order in which they return,
/// with `queue` for the streams that are queued and `waiting` for the calls that wait. A call
/// waits while nothing is queued; what was queued first is handed out first.
pub open spec fn handed_out(
    state: InnerView,
    events: Seq<Event>,
    port: u16,
    queue: Seq<Connection>,
    waiting: nat,
) -> Seq<Result<Connection, (Fault, ())>>
    decreases events.len(), waiting,
{
    if waiting > 0 && queue.len() > 0 {
        seq![accepted::<Connection, ()>(Ok(queue[0]))] + handed_out(
            state,
            events,
            port,
            queue.drop_first(),
            (waiting - 1) as nat,
        )
    } else if events.len() == 0 {
        Seq::empty()
    } else {
        match events[0] {
            Event::Step(step) => handed_out(
                state.after(step),
                events.drop_first(),
                port,
                queue + state.queued_by(step, port),
                waiting,
            ),
            Event::Accept => handed_out(state, events.drop_first(), port, queue, waiting + 1),
        }
    }
}

/// The step leaves the listener on `port` in its place.
pub open spec fn keeps_listener(step: Step, port: u16) -> bool {
    step != (Step::FreeListener { port }) && !(step is ShutDown)
}

/// The first `count` of the connections, each as a success, or all of them where there are fewer.
pub open spec fn first_of(connections: Seq<Connection>, count: nat) -> Seq<
    Result<Connection, (Fault, ())>,
> {
    Seq::new(
        if count <= connections.len() {
            count
        } else {
            connections.len()
        },
        |i: int| Ok(connections[i]),
    )
}

/// A listener hands out the connections to its port. As long as it is there, its calls of `accept`
/// return the connections that are set up on its port, each once and in the order in which they
/// are set up, however the calls and all else that happens take turns. As many calls return as
/// there are connections; further ones wait.
pub proof fn law_a_listener_hands_out_its_connections(
    state: InnerView,
    events: Seq<Event>,
    port: u16,
)
    requires
        state.well_formed(),
        state.listeners.contains(port),
        state.allows_all(steps_of(events)),
        forall|i: int|
            0 <= i < steps_of(events).len() ==> keeps_listener(
                #[trigger] steps_of(events)[i],
                port,
            ),
    ensures
        handed_out(state, events, port, Seq::empty(), 0) == first_of(
            state.established(steps_of(events), port),
            accepts(events),
        ),
{
    lemma_handed_out(state, events, port, Seq::empty(), 0);
    assert(Seq::<Connection>::empty() + state.established(steps_of(events), port)
        =~= state.established(steps_of(events), port));
}

proof fn lemma_handed_out(
    state: InnerView,
    events: Seq<Event>,
    port: u16,
    queue: Seq<Connection>,
    waiting: nat,
)
    requires
        state.well_formed(),
        state.allows_all(steps_of(events)),
    ensures
        handed_out(state, events, port, queue, waiting) == first_of(
            queue + state.established(steps_of(events), port),
            waiting + accepts(events),
        ),
    decreases events.len(), waiting,
{
    let all = queue + state.established(steps_of(events), port);
    let count = waiting + accepts(events);
    if waiting > 0 && queue.len() > 0 {
        lemma_handed_out(state, events, port, queue.drop_first(), (waiting - 1) as nat);
        assert(all.drop_first() =~= queue.drop_first() + state.established(steps_of(events), port));
        assert(first_of(all, count) =~= seq![Ok::<Connection, (Fault, ())>(all[0])] + first_of(
            all.drop_first(),
            (count - 1) as nat,
        ));
    } else if events.len() == 0 {
        assert(first_of(all, count) =~= Seq::empty());
    } else {
        let later = events.drop_first();
        match events[0] {
            Event::Step(step) => {
                let steps = steps_of(events);
                assert(steps[0] == step);
                assert(steps.drop_first() =~= steps_of(later));
                lemma_queued_by(state, step, port);
                law_steps_keep_the_state_well_formed(state, step);
                let grown = queue + state.queued_by(step, port);
                lemma_handed_out(state.after(step), later, port, grown, waiting);
                assert(all =~= grown + state.after(step).established(steps_of(later), port));
            },
            Event::Accept => {
                lemma_handed_out(state, later, port, queue, waiting + 1);
            },
        }
    }
}

} // verus!
