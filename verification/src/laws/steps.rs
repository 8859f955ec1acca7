//! Each call on a multiplexor is a step, so that what holds of steps holds of the calls.

use vstd::prelude::*;

use crate::action::actions_view;
use crate::error::Fault;
use crate::frame::Frame;
use crate::inner::{
    InnerView, ReaderAction, ReaderEvent, Reading, StateAction, StateEvent, StreamMultiplexorInner,
};
use crate::laws::tables::Step;
use crate::listener::MuxListener;
use crate::multiplexor::{Dial, StreamMultiplexor};
use crate::socket::{StreamAction, StreamEvent};

verus! {

/// Taking in a frame is the step that says so, and what is to be done is what the state calls for.
pub proof fn law_taking_in_a_frame_is_a_step(
    inner: &mut StreamMultiplexorInner,
    frame: Frame,
    action: ReaderAction,
)
    requires
        old(inner)@.well_formed(),
        call_ensures(
            StreamMultiplexorInner::framed_reader_sender,
            (inner, ReaderEvent::Received(Some(Ok(frame)))),
            action,
        ),
    ensures
        ({
            let step = Step::Deliver { frame: frame@, fresh: action->Deliver_0.socket->0 };
            &&& action is Deliver
            &&& old(inner)@.allows(step)
            &&& final(inner)@ == old(inner)@.after(step)
            &&& actions_view(action->Deliver_0.actions@) == old(inner)@.actions(frame@)
        }),
{
}

/// A reader that sends, and one that stops, are steps; one that waits is none.
pub proof fn law_reading_is_a_step(
    inner: &mut StreamMultiplexorInner,
    id: usize,
    event: StreamEvent<'_>,
    reading: Reading,
)
    requires
        old(inner)@.well_formed(),
        old(inner)@.sockets.contains_key(id),
        call_ensures(StreamMultiplexorInner::stream_read, (inner, id, event), reading),
    ensures
        match reading.action {
            StreamAction::Await => final(inner)@ == old(inner)@,
            StreamAction::Send(frame) => {
                &&& old(inner)@.allows(Step::Send { id })
                &&& final(inner)@ == old(inner)@.after(Step::Send { id })
                &&& event matches StreamEvent::Read(data)
                &&& frame@ == old(inner)@.sockets[id].data_frame(data@)
            },
            StreamAction::Finish(frame) => {
                &&& old(inner)@.allows(Step::Finish { id })
                &&& final(inner)@ == old(inner)@.after(Step::Finish { id })
                &&& frame@ == old(inner)@.sockets[id].fin_frame()
            },
        },
{
}

/// Binding and dialling, where they succeed, are steps.
pub proof fn law_taking_ports_is_a_step(
    mux: &mut StreamMultiplexor,
    port: u16,
    bound: Result<MuxListener, Fault>,
    other: &mut StreamMultiplexor,
    dialled: Result<Dial, Fault>,
)
    requires
        old(mux)@.well_formed(),
        call_ensures(StreamMultiplexor::bind, (mux, port), bound),
        old(other)@.well_formed(),
        call_ensures(StreamMultiplexor::connect, (other, port), dialled),
    ensures
        bound matches Ok(listener) ==> {
            let step = Step::Bind { port: listener@.port };
            &&& old(mux)@.allows(step)
            &&& final(mux)@ == old(mux)@.after(step)
        },
        dialled matches Ok(dial) ==> {
            let step = Step::Dial { id: dial.socket, sport: dial.sport, dport: port };
            &&& old(other)@.allows(step)
            &&& final(other)@ == old(other)@.after(step)
        },
{
}

/// Starting, losing the stream below, going down, and freeing what may be freed are steps.
pub proof fn law_other_changes_are_steps(
    mux: &mut StreamMultiplexor,
    lost: &mut StreamMultiplexorInner,
    watched: &mut StreamMultiplexorInner,
    event: StateEvent,
    action: StateAction,
    released: &mut StreamMultiplexorInner,
    id: usize,
)
    requires
        old(mux)@.well_formed(),
        call_ensures(StreamMultiplexor::start, (mux,), ()),
        old(lost)@.well_formed(),
        call_ensures(StreamMultiplexorInner::disconnect, (lost,), ()),
        old(watched)@.well_formed(),
        call_ensures(StreamMultiplexorInner::handle_mux_state_change, (watched, event), action),
        old(released)@.well_formed(),
        call_ensures(StreamMultiplexorInner::release, (released, id), ()),
    ensures
        final(mux)@ == old(mux)@.after(Step::Start),
        final(lost)@ == old(lost)@.after(Step::Disconnect),
        action is Shutdown ==> final(watched)@ == old(watched)@.after(Step::ShutDown),
        action is Await ==> final(watched)@ == (match event {
            StateEvent::MayCloseConnection { sport, dport } => old(watched)@.after(
                Step::FreeConnection { sport, dport },
            ),
            StateEvent::MayCloseListener { port } => old(watched)@.after(
                Step::FreeListener { port },
            ),
            _ => old(watched)@,
        }),
        old(released)@.allows(Step::Release { id }) ==> final(released)@ == old(released)@.after(
            Step::Release { id },
        ),
        !old(released)@.allows(Step::Release { id }) ==> final(released)@ == old(released)@,
{
}

/// A step changes what it is about, and nothing else: the signals and the listeners, one by one.
pub proof fn law_steps_change_what_they_are_about(state: InnerView, step: Step, port: u16)
    ensures
        ({
            let after = state.after(step);
            &&& after.config == state.config
            &&& after.watch_connected <==> state.watch_connected && !(step is Disconnect)
            &&& after.connected <==> state.connected && !(step is ShutDown)
            &&& after.running <==> state.running || step is Start
            &&& after.listeners.contains(port) <==> match step {
                Step::Bind { port: bound } => bound == port || state.listeners.contains(port),
                Step::FreeListener { port: freed } => freed != port && state.listeners.contains(
                    port,
                ),
                Step::ShutDown => false,
                _ => state.listeners.contains(port),
            }
        }),
{
}

/// A step changes the place of a connection only if it is about the connection between its ports,
/// or takes the multiplexor down: no other connection gains or loses its place.
pub proof fn law_steps_keep_other_connections(state: InnerView, step: Step, pair: (u16, u16))
    requires
        match step {
            Step::Deliver { frame, .. } => (frame.dport, frame.sport) != pair,
            Step::Finish { id } => (state.sockets[id].sport, state.sockets[id].dport) != pair,
            Step::Dial { sport, dport, .. } => (sport, dport) != pair,
            Step::FreeConnection { sport, dport } => (sport, dport) != pair,
            Step::ShutDown => false,
            _ => true,
        },
    ensures
        state.after(step).connections.contains_key(pair) <==> state.connections.contains_key(pair),
        state.after(step).connections[pair] == state.connections[pair],
{
}

/// A step changes a socket only if it is about that socket.
pub proof fn law_steps_keep_other_sockets(state: InnerView, step: Step, id: usize)
    requires
        state.well_formed(),
        state.allows(step),
        state.sockets.contains_key(id),
        match step {
            Step::Deliver { frame, .. } => !(state.connections.contains_key(
                (frame.dport, frame.sport),
            ) && state.connections[(frame.dport, frame.sport)] == id),
            Step::Send { id: other } => other != id,
            Step::Finish { id: other } => other != id,
            Step::Release { id: other } => other != id,
            _ => true,
        },
    ensures
        state.after(step).sockets.contains_key(id),
        state.after(step).sockets[id] == state.sockets[id],
{
}

} // verus!
