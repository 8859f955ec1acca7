//! Laws of the shared state: what every operation keeps.

use vstd::prelude::*;

use crate::action::{actions_view, ActionView};
use crate::config::StreamMultiplexorConfig;
use crate::error::Fault;
use crate::frame::FrameView;
use crate::inner::{Farewell, Gate, InnerView};
use crate::multiplexor::choosable;
use crate::socket::MuxSocket;

verus! {

/// Everything that can happen to the shared state.
pub enum Step {
    /// A frame is taken in; `fresh` is the handle for a new socket, where it calls for one.
    Deliver { frame: FrameView, fresh: usize },
    /// The reader of a socket's stream sends what it has read.
    Send { id: usize },
    /// The reader of a socket's stream stops.
    Finish { id: usize },
    /// A port is bound.
    Bind { port: u16 },
    /// A connection is asked for.
    Dial { id: usize, sport: u16, dport: u16 },
    /// The connection between two ports is freed.
    FreeConnection { sport: u16, dport: u16 },
    /// The listener on a port is freed.
    FreeListener { port: u16 },
    /// A socket is let go of.
    Release { id: usize },
    /// Frames are processed from now on.
    Start,
    /// The stream below is found to be gone.
    Disconnect,
    /// Everything is broken off.
    ShutDown,
}

impl InnerView {
    /// The step can be taken.
    pub open spec fn allows(self, step: Step) -> bool {
        match step {
            Step::Deliver { frame, fresh } => self.vends(frame) ==> !self.sockets.contains_key(fresh),
            Step::Send { id } => self.sockets.contains_key(id),
            Step::Finish { id } => self.sockets.contains_key(id),
            Step::Bind { port } => self.connected && !self.listeners.contains(port),
            Step::Dial { id, sport, dport } => {
                &&& self.connected
                &&& choosable(sport)
                &&& !self.connections.contains_key((sport, dport))
                &&& !self.sockets.contains_key(id)
            },
            Step::Release { id } => !self.registered(id),
            _ => true,
        }
    }

    /// The state after a step.
    pub open spec fn after(self, step: Step) -> InnerView {
        match step {
            Step::Deliver { frame, fresh } => self.delivered(frame, fresh),
            Step::Send { id } => self.with_socket(id, self.sockets[id].counted()),
            Step::Finish { id } => self.with_socket(id, self.sockets[id].finished()).unregister(
                self.sockets[id].sport,
                self.sockets[id].dport,
            ),
            Step::Bind { port } => self.bound(port),
            Step::Dial { id, sport, dport } => self.register(
                id,
                MuxSocket::dialled(self.config.identifier, sport, dport),
            ),
            Step::FreeConnection { sport, dport } => self.unregister(sport, dport),
            Step::FreeListener { port } => InnerView {
                listeners: self.listeners.remove(port),
                ..self
            },
            Step::Release { id } => InnerView { sockets: self.sockets.remove(id), ..self },
            Step::Start => InnerView { running: true, ..self },
            Step::Disconnect => self.disconnected(),
            Step::ShutDown => self.shut_down(),
        }
    }

    /// All of the steps can be taken, one after the other.
    pub open spec fn allows_all(self, steps: Seq<Step>) -> bool
        decreases steps.len(),
    {
        steps.len() > 0 ==> self.allows(steps[0]) && self.after(steps[0]).allows_all(
            steps.drop_first(),
        )
    }

    /// The state after all of the steps.
    pub open spec fn after_all(self, steps: Seq<Step>) -> InnerView
        decreases steps.len(),
    {
        if steps.len() == 0 {
            self
        } else {
            self.after(steps[0]).after_all(steps.drop_first())
        }
    }
}

/// Every step keeps what holds of every shared state: the table of connections leads to sockets
/// with the right ports, every socket goes by its multiplexor's identifier, a stream is there to be
/// written to only while its connection is set up, and a multiplexor that is down has no ports.
pub proof fn law_steps_keep_the_state_well_formed(state: InnerView, step: Step)
    requires
        state.well_formed(),
        state.allows(step),
    ensures
        state.after(step).well_formed(),
{
    let after = state.after(step);
    assert forall|pair: (u16, u16)| #[trigger] after.connections.contains_key(pair) implies {
        after.holds(pair, after.connections[pair])
    } by {
        if state.connections.contains_key(pair) {
            assert(state.holds(pair, state.connections[pair]));
        }
    }
    if !state.connected {
        assert(after.connections =~= Map::empty());
        assert(after.listeners =~= Set::empty());
    }
}

/// Whatever happens to a new multiplexor, its state is well-formed, and its configuration is the
/// one that it was made with.
pub proof fn law_reachable_states_are_well_formed(
    config: StreamMultiplexorConfig,
    running: bool,
    steps: Seq<Step>,
)
    requires
        InnerView::initial(config, running).allows_all(steps),
    ensures
        InnerView::initial(config, running).after_all(steps).well_formed(),
        InnerView::initial(config, running).after_all(steps).config == config,
{
    lemma_steps_from(InnerView::initial(config, running), steps);
}

proof fn lemma_steps_from(state: InnerView, steps: Seq<Step>)
    requires
        state.well_formed(),
        state.allows_all(steps),
    ensures
        state.after_all(steps).well_formed(),
        state.after_all(steps).config == state.config,
        !state.connected ==> !state.after_all(steps).connected,
        !state.watch_connected ==> !state.after_all(steps).watch_connected,
        state.running ==> state.after_all(steps).running,
    decreases steps.len(),
{
    if steps.len() > 0 {
        law_steps_keep_the_state_well_formed(state, steps[0]);
        lemma_steps_from(state.after(steps[0]), steps.drop_first());
    }
}

/// A multiplexor that has gone down stays down, and one that runs is not paused again.
pub proof fn law_going_down_is_final(state: InnerView, steps: Seq<Step>)
    requires
        state.well_formed(),
        state.allows_all(steps),
    ensures
        !state.connected ==> !state.after_all(steps).connected,
        !state.watch_connected ==> !state.after_all(steps).watch_connected,
        state.running ==> state.after_all(steps).running,
{
    lemma_steps_from(state, steps);
}

/// Behind a shutdown no port is taken, no port can be bound and none can be dialled, whatever else
/// happens.
pub proof fn law_nothing_can_be_had_behind_a_shutdown(
    state: InnerView,
    steps: Seq<Step>,
    port: u16,
    id: usize,
    sport: u16,
)
    requires
        state.well_formed(),
        state.shut_down().allows_all(steps),
    ensures
        ({
            let later = state.shut_down().after_all(steps);
            &&& later.connections == Map::<(u16, u16), usize>::empty()
            &&& later.listeners == Set::<u16>::empty()
            &&& !later.allows(Step::Bind { port })
            &&& !later.allows(Step::Dial { id, sport, dport: port })
        }),
{
    law_steps_keep_the_state_well_formed(state, Step::ShutDown);
    lemma_steps_from(state.shut_down(), steps);
}

/// When the multiplexor goes down, everybody who has dialled is told so, and every reader is told
/// to stop.
pub proof fn law_a_shutdown_reaches_every_connection(
    state: InnerView,
    list: Seq<Farewell>,
    pair: (u16, u16),
)
    requires
        state.well_formed(),
        state.farewells(list),
        state.connections.contains_key(pair),
    ensures
        exists|i: int|
            0 <= i < list.len() && (#[trigger] list[i]).socket == state.connections[pair]
                && actions_view(list[i].actions@).contains(ActionView::Reset) && (
            state.sockets[state.connections[pair]].has_stream_sender ==> actions_view(
                list[i].actions@,
            ).contains(ActionView::Refuse(Fault::BrokenPipe))),
{
    let id = state.connections[pair];
    assert(state.registered(id));
    let i = choose|i: int| 0 <= i < list.len() && (#[trigger] list[i]).socket == id;
    let actions = actions_view(list[i].actions@);
    assert(actions == InnerView::farewell(state.sockets[id]));
    assert(actions[0] == ActionView::Reset);
    if state.sockets[id].has_stream_sender {
        assert(actions[1] == ActionView::Refuse(Fault::BrokenPipe));
    }
}

/// A frame of one connection changes nothing about any other connection, whatever it holds.
pub proof fn law_connections_do_not_disturb_each_other(
    state: InnerView,
    frame: FrameView,
    fresh: usize,
    pair: (u16, u16),
)
    requires
        state.well_formed(),
        !state.sockets.contains_key(fresh),
        state.connections.contains_key(pair),
        pair != (frame.dport, frame.sport),
    ensures
        ({
            let after = state.delivered(frame, fresh);
            let id = state.connections[pair];
            &&& after.lookup(pair.0, pair.1) == Some(id)
            &&& after.sockets[id] == state.sockets[id]
        }),
{
    assert(state.holds(pair, state.connections[pair]));
    if state.connections.contains_key((frame.dport, frame.sport)) {
        assert(state.holds(
            (frame.dport, frame.sport),
            state.connections[(frame.dport, frame.sport)],
        ));
    }
}

/// The reader of one connection's stream changes nothing about any other connection, be it that it
/// sends or that it stops.
pub proof fn law_readers_do_not_disturb_each_other(state: InnerView, id: usize, pair: (u16, u16))
    requires
        state.well_formed(),
        state.sockets.contains_key(id),
        state.connections.contains_key(pair),
        pair != (state.sockets[id].sport, state.sockets[id].dport),
    ensures
        ({
            let other = state.connections[pair];
            &&& state.after(Step::Send { id }).lookup(pair.0, pair.1) == Some(other)
            &&& state.after(Step::Send { id }).sockets[other] == state.sockets[other]
            &&& state.after(Step::Finish { id }).lookup(pair.0, pair.1) == Some(other)
            &&& state.after(Step::Finish { id }).sockets[other] == state.sockets[other]
        }),
{
    assert(state.holds(pair, state.connections[pair]));
}

/// Dialling takes nothing away: every connection keeps its place and its socket.
pub proof fn law_dialling_disturbs_no_connection(
    state: InnerView,
    id: usize,
    sport: u16,
    dport: u16,
    pair: (u16, u16),
)
    requires
        state.well_formed(),
        state.allows(Step::Dial { id, sport, dport }),
        state.connections.contains_key(pair),
    ensures
        ({
            let after = state.after(Step::Dial { id, sport, dport });
            &&& after.lookup(pair.0, pair.1) == Some(state.connections[pair])
            &&& after.sockets[state.connections[pair]] == state.sockets[state.connections[pair]]
        }),
{
    assert(state.holds(pair, state.connections[pair]));
}

/// A listener that goes away frees its port for reuse, and the connections that are established
/// are not closed.
pub proof fn law_a_listener_leaves_its_connections(state: InnerView, port: u16)
    requires
        state.well_formed(),
        state.connected,
    ensures
        ({
            let after = state.after(Step::FreeListener { port });
            &&& after.allows(Step::Bind { port })
            &&& after.connections == state.connections
            &&& after.sockets == state.sockets
            &&& state.listeners.contains(port) ==> after.after(Step::Bind { port }) == state
        }),
{
    let after = state.after(Step::FreeListener { port });
    if state.listeners.contains(port) {
        assert(after.after(Step::Bind { port }).listeners =~= state.listeners);
    }
}

/// A port has at most one listener: a bound port cannot be bound again until it is freed.
pub proof fn law_a_port_is_bound_once(state: InnerView, port: u16)
    requires
        state.allows(Step::Bind { port }),
    ensures
        !state.after(Step::Bind { port }).allows(Step::Bind { port }),
        state.after(Step::Bind { port }).after(Step::FreeListener { port }) == state,
{
    let bound = state.after(Step::Bind { port });
    assert(bound.after(Step::FreeListener { port }).listeners =~= state.listeners);
}

/// A paused multiplexor holds its reader and its writer back, whatever is bound or dialled
/// meanwhile, and lets them go on when it is started, unless it is down by then.
pub proof fn law_a_pause_ends_with_start(state: InnerView, port: u16, id: usize, sport: u16)
    requires
        !state.running,
    ensures
        state.gate() is NotRunning,
        state.after(Step::Bind { port }).gate() is NotRunning,
        state.after(Step::Dial { id, sport, dport: port }).gate() is NotRunning,
        state.after(Step::Start).gate() == (if state.watch_connected {
            Gate::Up
        } else {
            Gate::Down
        }),
{
}

} // verus!
