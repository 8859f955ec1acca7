//! Laws of the calls on a multiplexor, in terms of what goes in and what comes out: the ports that
//! are bound, the connections and their sockets, and the signals.

use vstd::prelude::*;

use crate::action::{actions_view, Action};
use crate::config::StreamMultiplexorConfig;
use crate::error::Fault;
use crate::frame::{Flag, Frame};
use crate::inner::{
    InnerView, ReaderAction, ReaderEvent, Reading, StateAction, StateEvent,
    StreamMultiplexorInner, WriterAction, WriterEvent,
};
use crate::laws::sockets::answers;
use crate::listener::MuxListener;
use crate::multiplexor::{Dial, StreamMultiplexor};
use crate::outside::bytes_view;
use crate::socket::{MuxSocket, PortState, StreamAction, StreamEvent};

verus! {

/// What holds of every shared state: each entry in the table of connections leads to a socket
/// between its ports, every socket goes by the multiplexor's identifier, has a stream to write to
/// only while it is open, and either was vended here or has somebody to tell, and a multiplexor
/// that is down has no ports. Nothing more is asked of one.
pub proof fn law_what_holds_of_every_state(state: InnerView)
    ensures
        state.well_formed() <==> {
            &&& forall|pair: (u16, u16)| #[trigger]
                state.connections.contains_key(pair) ==> {
                    let id = state.connections[pair];
                    &&& state.sockets.contains_key(id)
                    &&& state.sockets[id].sport == pair.0
                    &&& state.sockets[id].dport == pair.1
                }
            &&& forall|id: usize| #[trigger]
                state.sockets.contains_key(id) ==> {
                    let socket = state.sockets[id];
                    &&& socket.has_write_half ==> socket.state == PortState::Open
                    &&& socket.identifier == state.config.identifier
                    &&& socket.accepting <==> !socket.has_stream_sender
                }
            &&& !state.connected ==> state.connections == Map::<(u16, u16), usize>::empty()
                && state.listeners == Set::<u16>::empty()
        },
{
    if state.well_formed() {
        assert forall|pair: (u16, u16)| #[trigger] state.connections.contains_key(pair) implies {
            let id = state.connections[pair];
            &&& state.sockets.contains_key(id)
            &&& state.sockets[id].sport == pair.0
            &&& state.sockets[id].dport == pair.1
        } by {
            assert(state.holds(pair, state.connections[pair]));
        }
    }
}

/// A new multiplexor is up, runs unless it is paused, and has no ports.
pub proof fn law_a_new_multiplexor_has_no_ports(
    config: StreamMultiplexorConfig,
    mux: StreamMultiplexor,
    paused: StreamMultiplexor,
    running: bool,
    inner: StreamMultiplexorInner,
)
    requires
        call_ensures(StreamMultiplexor::new, (config,), mux),
        call_ensures(StreamMultiplexor::new_paused, (config,), paused),
        call_ensures(StreamMultiplexorInner::new, (config, running), inner),
    ensures
        ({
            let fresh = InnerView {
                config,
                connected: true,
                watch_connected: true,
                running: true,
                connections: Map::empty(),
                listeners: Set::empty(),
                sockets: Map::empty(),
            };
            &&& mux@ == fresh
            &&& paused@ == (InnerView { running: false, ..fresh })
            &&& inner@ == (InnerView { running, ..fresh })
        }),
        mux@ == mux.inner@,
        mux@.well_formed(),
        paused@.well_formed(),
        inner@.well_formed(),
        call_requires(StreamMultiplexor::new, (config,)),
        call_requires(StreamMultiplexor::new_paused, (config,)),
{
}

/// What can be asked of the shared state is answered by what it is.
pub proof fn law_answers_are_right(
    inner: &StreamMultiplexorInner,
    config: StreamMultiplexorConfig,
    connected: bool,
    watch_connected: bool,
    running: bool,
    port: u16,
    listening: bool,
    sport: u16,
    dport: u16,
    connection: Option<usize>,
    id: usize,
    socket: Option<MuxSocket>,
)
    requires
        call_ensures(StreamMultiplexorInner::config, (inner,), config),
        call_ensures(StreamMultiplexorInner::is_connected, (inner,), connected),
        call_ensures(StreamMultiplexorInner::is_watch_connected, (inner,), watch_connected),
        call_ensures(StreamMultiplexorInner::is_running, (inner,), running),
        call_ensures(StreamMultiplexorInner::is_listening, (inner, port), listening),
        call_ensures(StreamMultiplexorInner::connection, (inner, sport, dport), connection),
        call_ensures(StreamMultiplexorInner::socket, (inner, id), socket),
    ensures
        config == inner@.config,
        connected == inner@.connected,
        watch_connected == inner@.watch_connected,
        running == inner@.running,
        listening <==> inner@.listeners.contains(port),
        connection is Some <==> inner@.connections.contains_key((sport, dport)),
        connection matches Some(found) ==> found == inner@.connections[(sport, dport)],
        socket is Some <==> inner@.sockets.contains_key(id),
        socket matches Some(found) ==> found == inner@.sockets[id],
{
}

/// Anything can be asked at any time.
pub proof fn law_questions_are_admitted<S>(
    inner: &StreamMultiplexorInner,
    mux: &StreamMultiplexor,
    listener: &MuxListener,
    port: u16,
    dport: u16,
    id: usize,
    reply: Option<Result<S, Fault>>,
)
    ensures
        call_requires(StreamMultiplexorInner::config, (inner,)),
        call_requires(StreamMultiplexorInner::is_connected, (inner,)),
        call_requires(StreamMultiplexorInner::is_watch_connected, (inner,)),
        call_requires(StreamMultiplexorInner::is_running, (inner,)),
        call_requires(StreamMultiplexorInner::is_listening, (inner, port)),
        call_requires(StreamMultiplexorInner::connection, (inner, port, dport)),
        call_requires(StreamMultiplexorInner::socket, (inner, id)),
        call_requires(StreamMultiplexor::watch_connected, (mux,)),
        call_requires(StreamMultiplexor::may_listen_on, (mux, port)),
        call_requires(StreamMultiplexor::may_dial_from, (mux, port, dport)),
        call_requires(StreamMultiplexor::has_listen_port, (mux,)),
        call_requires(StreamMultiplexor::has_source_port, (mux, port)),
        call_requires(MuxListener::port, (listener,)),
        call_requires(Dial::outcome::<S>, (reply,)),
{
}

/// A port is chosen from 1024 up to and without the highest, and only where it is free: not bound,
/// or not used for another connection to the same port of the peer.
pub proof fn law_free_ports(
    mux: &StreamMultiplexor,
    dport: u16,
    drawn: u16,
    watch_connected: bool,
    may_listen: bool,
    may_dial: bool,
    has_listen: bool,
    has_source: bool,
)
    requires
        call_ensures(StreamMultiplexor::watch_connected, (mux,), watch_connected),
        call_ensures(StreamMultiplexor::may_listen_on, (mux, drawn), may_listen),
        call_ensures(StreamMultiplexor::may_dial_from, (mux, drawn, dport), may_dial),
        call_ensures(StreamMultiplexor::has_listen_port, (mux,), has_listen),
        call_ensures(StreamMultiplexor::has_source_port, (mux, dport), has_source),
    ensures
        watch_connected == mux@.watch_connected,
        may_listen <==> drawn >= 1024 && !mux@.listeners.contains(drawn),
        may_dial <==> drawn >= 1024 && !mux@.connections.contains_key((drawn, dport)),
        has_listen <==> exists|port: u16|
            1024 <= port < 0xffff && !#[trigger] mux@.listeners.contains(port),
        has_source <==> exists|port: u16|
            1024 <= port < 0xffff && !#[trigger] mux@.connections.contains_key((port, dport)),
{
}

/// Starting sets the multiplexor running, and changes nothing else.
pub proof fn law_start_ends_the_pause(mux: &mut StreamMultiplexor)
    requires
        old(mux)@.well_formed(),
        call_ensures(StreamMultiplexor::start, (mux,), ()),
    ensures
        final(mux)@ == (InnerView { running: true, ..old(mux)@ }),
        final(mux)@.well_formed(),
        call_requires(StreamMultiplexor::start, (mux,)),
{
}

/// Binding a port gives it a listener, and changes nothing else. It fails where the multiplexor is
/// down, and where the port has a listener already; port zero asks for any port that is free.
pub proof fn law_binding_takes_a_free_port(
    mux: &mut StreamMultiplexor,
    port: u16,
    result: Result<MuxListener, Fault>,
    listener: MuxListener,
    bound: u16,
)
    requires
        old(mux)@.well_formed(),
        call_ensures(StreamMultiplexor::bind, (mux, port), result),
        result matches Ok(l) ==> l == listener,
        call_ensures(MuxListener::port, (&listener,), bound),
    ensures
        final(mux)@.well_formed(),
        if !old(mux)@.connected {
            &&& result == Err::<MuxListener, Fault>(Fault::ConnectionReset)
            &&& final(mux)@ == old(mux)@
        } else if port != 0 && old(mux)@.listeners.contains(port) {
            &&& result == Err::<MuxListener, Fault>(Fault::AddrInUse)
            &&& final(mux)@ == old(mux)@
        } else {
            &&& result is Ok
            &&& listener@.identifier == old(mux)@.config.identifier
            &&& port != 0 ==> bound == port
            &&& port == 0 ==> 1024 <= bound < 0xffff
            &&& !old(mux)@.listeners.contains(bound)
            &&& final(mux)@ == (InnerView {
                listeners: old(mux)@.listeners.insert(bound),
                ..old(mux)@
            })
        },
{
}

/// A port that has just been bound is in use, whoever asks for it next.
pub proof fn law_a_bound_port_is_in_use(
    mux: &mut StreamMultiplexor,
    port: u16,
    first: Result<MuxListener, Fault>,
    again: &mut StreamMultiplexor,
    second: Result<MuxListener, Fault>,
)
    requires
        old(mux)@.well_formed(),
        port != 0,
        call_ensures(StreamMultiplexor::bind, (mux, port), first),
        first is Ok,
        *old(again) == *final(mux),
        call_ensures(StreamMultiplexor::bind, (again, port), second),
    ensures
        second == Err::<MuxListener, Fault>(Fault::AddrInUse),
{
}

/// Binding and dialling can be called at any time; where any port will do, one has to be free.
pub proof fn law_port_calls_are_admitted(mux: &mut StreamMultiplexor, port: u16, free: u16)
    requires
        old(mux)@.well_formed(),
        1024 <= free < 0xffff,
    ensures
        port != 0 ==> call_requires(StreamMultiplexor::bind, (mux, port)),
        !old(mux)@.connected || !old(mux)@.listeners.contains(free) ==> call_requires(
            StreamMultiplexor::bind,
            (mux, port),
        ),
        !old(mux)@.connected || !old(mux)@.connections.contains_key((free, port)) ==> call_requires(
            StreamMultiplexor::connect,
            (mux, port),
        ),
{
}

/// Dialling registers a connection from a free port, with a socket that has asked for it and
/// somebody to tell, and gives the frame that asks. It changes nothing else: not a listener, not
/// another connection. It fails only where the multiplexor is down.
pub proof fn law_dialling_registers_a_connection(
    mux: &mut StreamMultiplexor,
    port: u16,
    result: Result<Dial, Fault>,
)
    requires
        old(mux)@.well_formed(),
        call_ensures(StreamMultiplexor::connect, (mux, port), result),
    ensures
        final(mux)@.well_formed(),
        if !old(mux)@.connected {
            &&& result == Err::<Dial, Fault>(Fault::ConnectionReset)
            &&& final(mux)@ == old(mux)@
        } else {
            &&& result matches Ok(dial)
            &&& 1024 <= dial.sport < 0xffff
            &&& !old(mux)@.connections.contains_key((dial.sport, port))
            &&& !old(mux)@.sockets.contains_key(dial.socket)
            &&& dial.syn.sport == dial.sport
            &&& dial.syn.dport == port
            &&& dial.syn.flag == Flag::Syn
            &&& dial.syn.seq == 0
            &&& bytes_view(dial.syn.data).len() == 0
            &&& final(mux)@ == (InnerView {
                connections: old(mux)@.connections.insert((dial.sport, port), dial.socket),
                sockets: old(mux)@.sockets.insert(
                    dial.socket,
                    MuxSocket {
                        identifier: old(mux)@.config.identifier,
                        accepting: false,
                        sport: dial.sport,
                        dport: port,
                        state: PortState::Ack,
                        seq: 0,
                        has_write_half: false,
                        has_stream_sender: true,
                    },
                ),
                ..old(mux)@
            })
        },
{
    if old(mux)@.connected {
        let syn = result->Ok_0.syn;
        assert(syn@.data.len() == 0 && syn@.sport == result->Ok_0.sport && syn@.dport == port);
    }
}

/// What came of dialling is passed on as it is; where nobody is left who could tell, that is an
/// error.
pub proof fn law_outcomes_are_passed_on<S>(
    reply: Option<Result<S, Fault>>,
    result: Result<S, Fault>,
)
    requires
        call_ensures(Dial::outcome::<S>, (reply,), result),
    ensures
        reply matches Some(outcome) ==> result == outcome,
        reply is None ==> result == Err::<S, Fault>(Fault::Other),
{
}

/// A stream that was queued for a listener is passed on as it is, and so is the error of a queue
/// that nothing can enter any more.
pub proof fn law_queued_streams_are_passed_on<S, E>(
    listener: &MuxListener,
    received: Result<S, E>,
    result: Result<S, (Fault, E)>,
)
    requires
        call_ensures(MuxListener::accept::<S, E>, (listener, received), result),
    ensures
        received matches Ok(stream) ==> result == Ok::<S, (Fault, E)>(stream),
        received matches Err(error) ==> result == Err::<S, (Fault, E)>((Fault::Other, error)),
        call_requires(MuxListener::accept::<S, E>, (listener, received)),
{
}

/// Once the stream below is known to be gone, that is all that changes.
pub proof fn law_disconnecting_changes_the_signal_alone(inner: &mut StreamMultiplexorInner)
    requires
        old(inner)@.well_formed(),
        call_ensures(StreamMultiplexorInner::disconnect, (inner,), ()),
    ensures
        final(inner)@ == (InnerView { watch_connected: false, ..old(inner)@ }),
        final(inner)@.well_formed(),
{
}

/// A socket is let go of if and only if no connection leads to it, and nothing else changes.
pub proof fn law_a_socket_in_use_is_not_released(inner: &mut StreamMultiplexorInner, id: usize)
    requires
        old(inner)@.well_formed(),
        call_ensures(StreamMultiplexorInner::release, (inner, id), ()),
    ensures
        final(inner)@.well_formed(),
        ({
            let in_use = exists|pair: (u16, u16)| #[trigger]
                old(inner)@.connections.contains_key(pair) && old(inner)@.connections[pair] == id;
            final(inner)@ == (InnerView {
                sockets: if in_use {
                    old(inner)@.sockets
                } else {
                    old(inner)@.sockets.remove(id)
                },
                ..old(inner)@
            })
        }),
{
}

/// Freeing a connection takes it out of the table and names its socket; freeing a listener takes it
/// off its port. Neither changes anything else.
pub proof fn law_freeing_takes_one_entry(
    inner: &mut StreamMultiplexorInner,
    sport: u16,
    dport: u16,
    freed: Option<usize>,
    other: &mut StreamMultiplexorInner,
    port: u16,
)
    requires
        old(inner)@.well_formed(),
        call_ensures(
            StreamMultiplexorInner::process_may_close_connections_once,
            (inner, sport, dport),
            freed,
        ),
        old(other)@.well_formed(),
        call_ensures(StreamMultiplexorInner::process_may_close_listeners_once, (other, port), ()),
    ensures
        final(inner)@.well_formed(),
        final(inner)@ == (InnerView {
            connections: old(inner)@.connections.remove((sport, dport)),
            ..old(inner)@
        }),
        freed is Some <==> old(inner)@.connections.contains_key((sport, dport)),
        freed matches Some(id) ==> id == old(inner)@.connections[(sport, dport)],
        final(other)@.well_formed(),
        final(other)@ == (InnerView {
            listeners: old(other)@.listeners.remove(port),
            ..old(other)@
        }),
{
}

/// The calls of the tasks are admitted at any time.
pub proof fn law_task_calls_are_admitted(
    inner: &mut StreamMultiplexorInner,
    written: WriterEvent,
    read: ReaderEvent,
    changed: StateEvent,
    id: usize,
    event: StreamEvent<'_>,
    port: u16,
    dport: u16,
)
    requires
        old(inner)@.well_formed(),
    ensures
        call_requires(StreamMultiplexorInner::framed_writer_sender, (inner, written)),
        call_requires(StreamMultiplexorInner::framed_reader_sender, (inner, read)),
        call_requires(StreamMultiplexorInner::handle_mux_state_change, (inner, changed)),
        call_requires(StreamMultiplexorInner::release, (inner, id)),
        call_requires(StreamMultiplexorInner::disconnect, (inner,)),
        call_requires(
            StreamMultiplexorInner::process_may_close_connections_once,
            (inner, port, dport),
        ),
        call_requires(StreamMultiplexorInner::process_may_close_listeners_once, (inner, port)),
        old(inner)@.sockets.contains_key(id) ==> call_requires(
            StreamMultiplexorInner::stream_read,
            (inner, id, event),
        ),
{
}

/// The writer writes each frame that it is given, as it is. It stops when nobody is left to give it
/// one and when it fails to write, and the stream below is then known to be gone; nothing else ever
/// changes. Otherwise it waits, for leave to run, then for a frame, or stops because the stream
/// below is gone.
pub proof fn law_the_writer_writes_what_it_is_given(
    inner: &mut StreamMultiplexorInner,
    event: WriterEvent,
    action: WriterAction,
)
    requires
        old(inner)@.well_formed(),
        call_ensures(StreamMultiplexorInner::framed_writer_sender, (inner, event), action),
    ensures
        final(inner)@.well_formed(),
        match event {
            WriterEvent::Dequeued(Some(frame)) => {
                &&& action == WriterAction::Write(frame)
                &&& final(inner)@ == old(inner)@
            },
            WriterEvent::Dequeued(None) => {
                &&& action is Stop
                &&& final(inner)@ == (InnerView { watch_connected: false, ..old(inner)@ })
            },
            WriterEvent::Written(written) => {
                &&& !written ==> action is Stop
                &&& !written ==> final(inner)@ == (InnerView {
                    watch_connected: false,
                    ..old(inner)@
                })
                &&& written ==> final(inner)@ == old(inner)@
            },
            WriterEvent::Woken => final(inner)@ == old(inner)@,
        },
        event is Woken || event == WriterEvent::Written(true) ==> {
            &&& action is AwaitRunning <==> !old(inner)@.running
            &&& action is Stop <==> old(inner)@.running && !old(inner)@.watch_connected
            &&& action is AwaitFrame <==> old(inner)@.running && old(inner)@.watch_connected
        },
{
}

/// The reader waits, for leave to run, then for a frame, or stops because the stream below is gone;
/// it then changes nothing. It stops when the stream below ends or fails, and the stream below is
/// then known to be gone; nothing else changes.
pub proof fn law_the_reader_stops_with_the_stream_below(
    inner: &mut StreamMultiplexorInner,
    event: ReaderEvent,
    action: ReaderAction,
)
    requires
        old(inner)@.well_formed(),
        call_ensures(StreamMultiplexorInner::framed_reader_sender, (inner, event), action),
        !(event matches ReaderEvent::Received(Some(Ok(_)))),
    ensures
        final(inner)@.well_formed(),
        event is Woken ==> {
            &&& action is AwaitRunning <==> !old(inner)@.running
            &&& action is Stop <==> old(inner)@.running && !old(inner)@.watch_connected
            &&& action is AwaitFrame <==> old(inner)@.running && old(inner)@.watch_connected
            &&& final(inner)@ == old(inner)@
        },
        event is Received ==> {
            &&& action is Stop
            &&& final(inner)@ == (InnerView { watch_connected: false, ..old(inner)@ })
        },
{
}

/// Taking in a frame, whatever it holds, changes nothing but the connection that it belongs to: the
/// signals, the listeners, all other connections and all other sockets stay as they are. In
/// particular no frame takes the multiplexor down or stops a task.
pub proof fn law_a_frame_changes_its_own_connection_alone(
    inner: &mut StreamMultiplexorInner,
    frame: Frame,
    action: ReaderAction,
    pair: (u16, u16),
    id: usize,
)
    requires
        old(inner)@.well_formed(),
        call_ensures(
            StreamMultiplexorInner::framed_reader_sender,
            (inner, ReaderEvent::Received(Some(Ok(frame)))),
            action,
        ),
    ensures
        action is Deliver,
        final(inner)@.well_formed(),
        final(inner)@.config == old(inner)@.config,
        final(inner)@.connected == old(inner)@.connected,
        final(inner)@.watch_connected == old(inner)@.watch_connected,
        final(inner)@.running == old(inner)@.running,
        final(inner)@.listeners == old(inner)@.listeners,
        pair != (frame.dport, frame.sport) ==> {
            &&& final(inner)@.connections.contains_key(pair) <==> old(
                inner,
            )@.connections.contains_key(pair)
            &&& final(inner)@.connections[pair] == old(inner)@.connections[pair]
        },
        old(inner)@.sockets.contains_key(id) && !(old(inner)@.connections.contains_key(
            (frame.dport, frame.sport),
        ) && old(inner)@.connections[(frame.dport, frame.sport)] == id) ==> {
            &&& final(inner)@.sockets.contains_key(id)
            &&& final(inner)@.sockets[id] == old(inner)@.sockets[id]
        },
{
}

/// A request for a port with a listener, whichever port it is, gets a new socket between the ports
/// of the frame, registered in the place of any older one, and exactly one answer, which accepts.
pub proof fn law_a_listener_is_asked(
    inner: &mut StreamMultiplexorInner,
    frame: Frame,
    action: ReaderAction,
)
    requires
        old(inner)@.well_formed(),
        call_ensures(
            StreamMultiplexorInner::framed_reader_sender,
            (inner, ReaderEvent::Received(Some(Ok(frame)))),
            action,
        ),
        frame.flag == Flag::Syn,
        old(inner)@.listeners.contains(frame.dport),
    ensures
        ({
            let pair = (frame.dport, frame.sport);
            &&& action matches ReaderAction::Deliver(delivery)
            &&& delivery.socket matches Some(id)
            &&& !old(inner)@.sockets.contains_key(id)
            &&& delivery.displaced is Some <==> old(inner)@.connections.contains_key(pair)
            &&& delivery.displaced matches Some(older) ==> older == old(inner)@.connections[pair]
            &&& delivery.actions@.len() == 1
            &&& answers(delivery.actions@[0], frame, Flag::SynAck, 0)
            &&& final(inner)@ == (InnerView {
                connections: old(inner)@.connections.insert(pair, id),
                sockets: old(inner)@.sockets.insert(
                    id,
                    MuxSocket {
                        identifier: old(inner)@.config.identifier,
                        accepting: true,
                        sport: frame.dport,
                        dport: frame.sport,
                        state: PortState::SynAck,
                        seq: 1,
                        has_write_half: false,
                        has_stream_sender: false,
                    },
                ),
                ..old(inner)@
            })
        }),
{
    let delivery = action->Deliver_0;
    assert(actions_view(delivery.actions@)[0] == delivery.actions@[0]@);
}

/// Any other frame goes to the socket of its connection, if there is one, and has the effect on it
/// that the socket's own call has: the same actions, and the same socket afterwards.
pub proof fn law_a_frame_goes_to_its_connection(
    inner: &mut StreamMultiplexorInner,
    frame: Frame,
    action: ReaderAction,
    socket: &mut MuxSocket,
    actions: Vec<Action>,
)
    requires
        old(inner)@.well_formed(),
        call_ensures(
            StreamMultiplexorInner::framed_reader_sender,
            (inner, ReaderEvent::Received(Some(Ok(frame)))),
            action,
        ),
        frame.flag != Flag::Syn || !old(inner)@.listeners.contains(frame.dport),
        old(inner)@.connections.contains_key((frame.dport, frame.sport)),
        *old(socket) == old(inner)@.sockets[old(inner)@.connections[(frame.dport, frame.sport)]],
        call_ensures(
            MuxSocket::recv_frame,
            (socket, frame, old(inner)@.listeners.contains(frame.dport)),
            actions,
        ),
    ensures
        ({
            let id = old(inner)@.connections[(frame.dport, frame.sport)];
            &&& action matches ReaderAction::Deliver(delivery)
            &&& delivery.socket == Some(id)
            &&& delivery.displaced is None
            &&& actions_view(delivery.actions@) == actions_view(actions@)
            &&& final(inner)@ == (InnerView {
                sockets: old(inner)@.sockets.insert(id, *final(socket)),
                ..old(inner)@
            })
        }),
{
}

/// A frame that belongs nowhere is refused by exactly one frame, unless it is a refusal itself, and
/// changes nothing.
pub proof fn law_a_stranger_is_refused(
    inner: &mut StreamMultiplexorInner,
    frame: Frame,
    action: ReaderAction,
)
    requires
        old(inner)@.well_formed(),
        call_ensures(
            StreamMultiplexorInner::framed_reader_sender,
            (inner, ReaderEvent::Received(Some(Ok(frame)))),
            action,
        ),
        frame.flag != Flag::Syn || !old(inner)@.listeners.contains(frame.dport),
        !old(inner)@.connections.contains_key((frame.dport, frame.sport)),
    ensures
        ({
            &&& action matches ReaderAction::Deliver(delivery)
            &&& delivery.socket is None
            &&& delivery.displaced is None
            &&& if frame.flag == Flag::Rst {
                delivery.actions@.len() == 0
            } else {
                &&& delivery.actions@.len() == 1
                &&& answers(delivery.actions@[0], frame, Flag::Rst, 0)
            }
        }),
        final(inner)@ == old(inner)@,
{
    let delivery = action->Deliver_0;
    assert(actions_view(delivery.actions@).len() == delivery.actions@.len());
    if frame.flag != Flag::Rst {
        assert(actions_view(delivery.actions@)[0] == delivery.actions@[0]@);
    }
}

/// The reader of a socket's stream gets what the socket's own call gives, with the signal of the
/// stream below for whether the multiplexor is up, and the socket is afterwards what that call
/// makes of it. Nothing else changes, but that a reader which stops frees the connection between
/// its socket's ports, whose socket is named: listeners, signals, other connections and other
/// sockets stay as they are.
pub proof fn law_a_reader_changes_its_own_connection_alone(
    inner: &mut StreamMultiplexorInner,
    id: usize,
    event: StreamEvent<'_>,
    reading: Reading,
    socket: &mut MuxSocket,
    action: StreamAction,
)
    requires
        old(inner)@.well_formed(),
        old(inner)@.sockets.contains_key(id),
        call_ensures(StreamMultiplexorInner::stream_read, (inner, id, event), reading),
        *old(socket) == old(inner)@.sockets[id],
        call_ensures(
            MuxSocket::stream_read,
            (socket, event, old(inner)@.watch_connected),
            action,
        ),
    ensures
        final(inner)@.well_formed(),
        match action {
            StreamAction::Await => reading.action is Await,
            StreamAction::Send(frame) => reading.action matches StreamAction::Send(same)
                && same@ == frame@,
            StreamAction::Finish(frame) => reading.action matches StreamAction::Finish(same)
                && same@ == frame@,
        },
        ({
            let pair = (old(socket).sport, old(socket).dport);
            let stops = action is Finish;
            &&& final(inner)@ == (InnerView {
                connections: if stops {
                    old(inner)@.connections.remove(pair)
                } else {
                    old(inner)@.connections
                },
                sockets: old(inner)@.sockets.insert(id, *final(socket)),
                ..old(inner)@
            })
            &&& reading.freed is Some <==> stops && old(inner)@.connections.contains_key(pair)
            &&& reading.freed matches Some(freed) ==> freed == old(inner)@.connections[pair]
        }),
{
    assert(old(inner)@.sockets.insert(id, old(inner)@.sockets[id]) =~= old(inner)@.sockets);
}

/// What the reader of a socket's stream has read is sent, all of it and nothing else, from the
/// socket's port to its peer's.
pub proof fn law_a_reader_sends_what_it_has_read(
    inner: &mut StreamMultiplexorInner,
    id: usize,
    data: &[u8],
    reading: Reading,
)
    requires
        old(inner)@.well_formed(),
        old(inner)@.sockets.contains_key(id),
        data@.len() > 0,
        call_ensures(
            StreamMultiplexorInner::stream_read,
            (inner, id, StreamEvent::Read(data)),
            reading,
        ),
    ensures
        ({
            let socket = old(inner)@.sockets[id];
            &&& reading.action matches StreamAction::Send(frame)
            &&& frame.sport == socket.sport
            &&& frame.dport == socket.dport
            &&& frame.flag == Flag::Unset
            &&& frame.seq == socket.seq
            &&& bytes_view(frame.data) == data@
        }),
        reading.freed is None,
        final(inner)@.listeners == old(inner)@.listeners,
        final(inner)@.connections == old(inner)@.connections,
{
    let frame = reading.action->Send_0;
    assert(frame@.data == data@ && frame@.seq == old(inner)@.sockets[id].seq);
}

/// The watch goes on as long as the stream below works and the signal can change. It frees what it
/// is told may be freed, and changes nothing else.
pub proof fn law_the_watch_frees_what_it_is_told(
    inner: &mut StreamMultiplexorInner,
    event: StateEvent,
    action: StateAction,
)
    requires
        old(inner)@.well_formed(),
        call_ensures(StreamMultiplexorInner::handle_mux_state_change, (inner, event), action),
        match event {
            StateEvent::Started => old(inner)@.watch_connected,
            StateEvent::Changed { closed } => old(inner)@.watch_connected && !closed,
            _ => true,
        },
    ensures
        final(inner)@.well_formed(),
        ({
            &&& action matches StateAction::Await(freed)
            &&& freed matches Some(id) ==> {
                &&& event matches StateEvent::MayCloseConnection { sport, dport }
                &&& old(inner)@.connections.contains_key((sport, dport))
                &&& id == old(inner)@.connections[(sport, dport)]
            }
            &&& freed is None ==> (event matches StateEvent::MayCloseConnection { sport, dport }
                ==> !old(inner)@.connections.contains_key((sport, dport)))
        }),
        final(inner)@ == (match event {
            StateEvent::MayCloseConnection { sport, dport } => InnerView {
                connections: old(inner)@.connections.remove((sport, dport)),
                ..old(inner)@
            },
            StateEvent::MayCloseListener { port } => InnerView {
                listeners: old(inner)@.listeners.remove(port),
                ..old(inner)@
            },
            _ => old(inner)@,
        }),
{
}

/// When the stream below is gone, or its signal can no longer change, the multiplexor goes down: it
/// has no ports and no connections any more, and each connection that it had is in the list of
/// farewells, once, and nothing else is. Its reader is told to stop, and whoever dialled it is told
/// that the pipe is broken; nothing else is done.
pub proof fn law_the_watch_shuts_down(
    inner: &mut StreamMultiplexorInner,
    event: StateEvent,
    action: StateAction,
    pair: (u16, u16),
    i: int,
    j: int,
)
    requires
        old(inner)@.well_formed(),
        call_ensures(StreamMultiplexorInner::handle_mux_state_change, (inner, event), action),
        match event {
            StateEvent::Started => !old(inner)@.watch_connected,
            StateEvent::Changed { closed } => !old(inner)@.watch_connected || closed,
            _ => false,
        },
    ensures
        action is Shutdown,
        final(inner)@.well_formed(),
        final(inner)@ == (InnerView {
            connected: false,
            connections: Map::empty(),
            listeners: Set::empty(),
            ..old(inner)@
        }),
        ({
            let list = action->Shutdown_0@;
            &&& old(inner)@.connections.contains_key(pair) ==> exists|k: int|
                0 <= k < list.len() && (#[trigger] list[k]).socket == old(inner)@.connections[pair]
            &&& 0 <= i < list.len() ==> {
                let socket = old(inner)@.sockets[list[i].socket];
                let actions = list[i].actions@;
                &&& exists|own: (u16, u16)| #[trigger]
                    old(inner)@.connections.contains_key(own) && old(inner)@.connections[own]
                        == list[i].socket
                &&& actions[0] is Reset
                &&& actions.len() == (if socket.has_stream_sender {
                    2int
                } else {
                    1
                })
                &&& socket.has_stream_sender ==> actions[1] == Action::Refuse(Fault::BrokenPipe)
            }
            &&& 0 <= i < j < list.len() ==> list[i].socket != list[j].socket
        }),
{
    let list = action->Shutdown_0@;
    if old(inner)@.connections.contains_key(pair) {
        assert(old(inner)@.registered(old(inner)@.connections[pair]));
    }
    if 0 <= i < list.len() {
        let actions = list[i].actions@;
        assert(old(inner)@.registered(list[i].socket));
        assert(actions_view(actions) == InnerView::farewell(old(inner)@.sockets[list[i].socket]));
        assert(actions_view(actions).len() == actions.len());
        assert(actions_view(actions)[0] == actions[0]@);
        if actions.len() > 1 {
            assert(actions_view(actions)[1] == actions[1]@);
        }
    }
}

} // verus!
