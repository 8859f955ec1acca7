//! Laws of the calls on one end of a connection, in terms of what goes in and what comes out.

use vstd::prelude::*;

use crate::action::{actions_view, Action, ActionView};
use crate::error::Fault;
use crate::frame::{Flag, Frame};
use crate::outside::bytes_view;
use crate::socket::{MuxSocket, PortState, StreamAction, StreamEvent};

verus! {

/// Actions are seen as they are, one for one.
pub proof fn law_actions_are_seen_as_they_are(actions: Seq<Action>)
    ensures
        actions_view(actions).len() == actions.len(),
        forall|i: int|
            #![trigger actions_view(actions)[i]]
            #![trigger actions[i]]
            0 <= i < actions.len() ==> match actions[i] {
                Action::Send(frame) => actions_view(actions)[i] == ActionView::Send(frame@),
                Action::Accept(port) => actions_view(actions)[i] == ActionView::Accept(port),
                Action::Connect => actions_view(actions)[i] is Connect,
                Action::Refuse(fault) => actions_view(actions)[i] == ActionView::Refuse(fault),
                Action::Write(data) => actions_view(actions)[i] == ActionView::Write(
                    bytes_view(data),
                ),
                Action::CloseWrite => actions_view(actions)[i] is CloseWrite,
                Action::Reset => actions_view(actions)[i] is Reset,
            },
{
}

/// The number behind `seq`: one more, and zero behind the highest.
pub open spec fn successor(seq: u32) -> int {
    (seq + 1) % 0x1_0000_0000
}

/// A frame without data is sent back to where `frame` came from.
pub open spec fn answers(action: Action, frame: Frame, flag: Flag, seq: u32) -> bool {
    &&& action matches Action::Send(answer)
    &&& answer.sport == frame.dport
    &&& answer.dport == frame.sport
    &&& answer.flag == flag
    &&& answer.seq == seq
    &&& bytes_view(answer.data).len() == 0
}

/// Nothing about the socket is changed but its state, its number and whether it has a stream to
/// write to.
pub open spec fn same_socket(a: MuxSocket, b: MuxSocket) -> bool {
    &&& a.identifier == b.identifier
    &&& a.accepting == b.accepting
    &&& a.sport == b.sport
    &&& a.dport == b.dport
    &&& a.has_stream_sender == b.has_stream_sender
}

/// A new socket is closed, has sent nothing, and has no stream.
pub proof fn law_a_new_socket_is_closed(
    identifier: &'static str,
    sport: u16,
    dport: u16,
    accepting: bool,
    socket: MuxSocket,
)
    requires
        call_ensures(MuxSocket::new, (identifier, sport, dport, accepting), socket),
    ensures
        socket == (MuxSocket {
            identifier,
            accepting,
            sport,
            dport,
            state: PortState::Closed,
            seq: 0,
            has_write_half: false,
            has_stream_sender: false,
        }),
        call_requires(MuxSocket::new, (identifier, sport, dport, accepting)),
{
}

/// Asking for a connection sends the request from the socket's port to its peer's, and waits to be
/// accepted; what comes of it is told if somebody wants to know.
pub proof fn law_dialling_asks_the_peer(told: &mut MuxSocket, socket: &mut MuxSocket, syn: Frame)
    requires
        call_ensures(MuxSocket::stream, (told,), ()),
        call_ensures(MuxSocket::start, (socket,), syn),
    ensures
        *final(told) == (MuxSocket { has_stream_sender: true, ..*old(told) }),
        *final(socket) == (MuxSocket { state: PortState::Ack, ..*old(socket) }),
        syn.sport == old(socket).sport,
        syn.dport == old(socket).dport,
        syn.flag == Flag::Syn,
        syn.seq == 0,
        bytes_view(syn.data).len() == 0,
{
    assert(syn@.data.len() == 0 && syn@.sport == old(socket).sport);
}

/// Frames can always be taken in, and readers can always be decided for.
pub proof fn law_socket_calls_are_admitted(
    socket: &mut MuxSocket,
    frame: Frame,
    flag: bool,
    event: StreamEvent<'_>,
)
    ensures
        call_requires(MuxSocket::recv_frame, (socket, frame, flag)),
        call_requires(MuxSocket::stream_read, (socket, event, flag)),
        call_requires(MuxSocket::stream, (socket,)),
        call_requires(MuxSocket::start, (socket,)),
{
}

/// A request is accepted by a socket that is closed, and ignored by any other.
pub proof fn law_a_request_is_accepted_when_closed(
    socket: &mut MuxSocket,
    frame: Frame,
    listening: bool,
    actions: Vec<Action>,
)
    requires
        call_ensures(MuxSocket::recv_frame, (socket, frame, listening), actions),
        frame.flag == Flag::Syn,
    ensures
        old(socket).state == PortState::Closed ==> {
            &&& actions@.len() == 1
            &&& answers(actions@[0], frame, Flag::SynAck, old(socket).seq)
            &&& same_socket(*final(socket), *old(socket))
            &&& final(socket).state == PortState::SynAck
            &&& final(socket).seq == successor(old(socket).seq)
            &&& final(socket).has_write_half == old(socket).has_write_half
        },
        old(socket).state != PortState::Closed ==> actions@.len() == 0 && *final(socket) == *old(
            socket,
        ),
{
    lemma_received(socket, frame, listening, actions);
}

/// A confirmation opens a socket that waits for one, once: it is confirmed in turn, and a stream
/// is handed out, to the listener on the frame's port if the connection was asked for here and
/// there is a listener, to whoever dialled if it was asked for from here. At any other time it is
/// ignored.
pub proof fn law_a_confirmation_opens_a_waiting_socket(
    socket: &mut MuxSocket,
    frame: Frame,
    listening: bool,
    actions: Vec<Action>,
)
    requires
        call_ensures(MuxSocket::recv_frame, (socket, frame, listening), actions),
        frame.flag == Flag::SynAck || frame.flag == Flag::Ack,
    ensures
        ({
            let waits = old(socket).state == PortState::SynAck || old(socket).state
                == PortState::Ack;
            let hands_out = if old(socket).accepting {
                listening
            } else {
                old(socket).has_stream_sender
            };
            if waits {
                &&& answers(actions@[0], frame, Flag::Ack, old(socket).seq)
                &&& actions@.len() == (if hands_out {
                    2int
                } else {
                    1
                })
                &&& hands_out && old(socket).accepting ==> actions@[1] == Action::Accept(
                    frame.dport,
                )
                &&& hands_out && !old(socket).accepting ==> actions@[1] is Connect
                &&& same_socket(*final(socket), *old(socket))
                &&& final(socket).state == PortState::Open
                &&& final(socket).seq == successor(old(socket).seq)
                &&& final(socket).has_write_half == (old(socket).has_write_half || hands_out)
            } else {
                &&& actions@.len() == 0
                &&& *final(socket) == *old(socket)
            }
        }),
{
    lemma_received(socket, frame, listening, actions);
}

/// Data is written to the stream of an open socket, all of it and nothing else, and goes nowhere
/// where there is none. It changes nothing about the socket.
pub proof fn law_data_is_written_to_an_open_stream(
    socket: &mut MuxSocket,
    frame: Frame,
    listening: bool,
    actions: Vec<Action>,
)
    requires
        call_ensures(MuxSocket::recv_frame, (socket, frame, listening), actions),
        frame.flag == Flag::Unset,
    ensures
        *final(socket) == *old(socket),
        if old(socket).state == PortState::Open && old(socket).has_write_half {
            &&& actions@.len() == 1
            &&& actions@[0] matches Action::Write(data)
            &&& bytes_view(data) == bytes_view(frame.data)
        } else {
            actions@.len() == 0
        },
{
    lemma_received(socket, frame, listening, actions);
}

/// The end of a connection closes a socket that is open, once: it is answered, and the stream is
/// broken off. At any other time it is ignored.
pub proof fn law_an_end_closes_an_open_socket(
    socket: &mut MuxSocket,
    frame: Frame,
    listening: bool,
    actions: Vec<Action>,
)
    requires
        call_ensures(MuxSocket::recv_frame, (socket, frame, listening), actions),
        frame.flag == Flag::Fin,
    ensures
        if old(socket).state == PortState::Open {
            &&& actions@.len() == 3
            &&& answers(actions@[0], frame, Flag::Fin, old(socket).seq)
            &&& actions@[1] is CloseWrite
            &&& actions@[2] is Reset
            &&& same_socket(*final(socket), *old(socket))
            &&& final(socket).state == PortState::Closed
            &&& final(socket).seq == successor(old(socket).seq)
            &&& !final(socket).has_write_half
        } else {
            &&& actions@.len() == 0
            &&& *final(socket) == *old(socket)
        },
{
    lemma_received(socket, frame, listening, actions);
}

/// A refusal closes any socket without an answer, breaks its stream off, and tells whoever dialled
/// that the address is not available, if the connection was not set up.
pub proof fn law_a_refusal_closes_any_socket(
    socket: &mut MuxSocket,
    frame: Frame,
    listening: bool,
    actions: Vec<Action>,
)
    requires
        call_ensures(MuxSocket::recv_frame, (socket, frame, listening), actions),
        frame.flag == Flag::Rst,
    ensures
        ({
            let tells = old(socket).has_stream_sender && (old(socket).state == PortState::Closed
                || old(socket).state == PortState::Ack);
            let n = actions@.len() as int;
            &&& n == (if tells {
                3int
            } else {
                2
            })
            &&& tells ==> actions@[0] == Action::Refuse(Fault::AddrNotAvailable)
            &&& actions@[n - 2] is CloseWrite
            &&& actions@[n - 1] is Reset
        }),
        same_socket(*final(socket), *old(socket)),
        final(socket).state == PortState::Closed,
        final(socket).seq == old(socket).seq,
        !final(socket).has_write_half,
{
    lemma_received(socket, frame, listening, actions);
}

/// What is called for is seen in the actions, one for one.
proof fn lemma_received(
    socket: &mut MuxSocket,
    frame: Frame,
    listening: bool,
    actions: Vec<Action>,
)
    requires
        call_ensures(MuxSocket::recv_frame, (socket, frame, listening), actions),
    ensures
        *final(socket) == old(socket).received(frame@, listening),
        actions@.len() == old(socket).actions(frame@, listening).len(),
        forall|i: int|
            0 <= i < actions@.len() ==> (#[trigger] actions@[i])@ == old(socket).actions(
                frame@,
                listening,
            )[i],
{
    let expected = old(socket).actions(frame@, listening);
    assert forall|i: int| 0 <= i < actions@.len() implies (#[trigger] actions@[i])@
        == expected[i] by {
        assert(actions_view(actions@)[i] == actions@[i]@);
    }
}

/// A reader that has read something sends it, all of it and nothing else, from the socket's port to
/// its peer's, under the next number.
pub proof fn law_what_is_read_is_sent(
    socket: &mut MuxSocket,
    data: &[u8],
    connected: bool,
    action: StreamAction,
)
    requires
        call_ensures(
            MuxSocket::stream_read,
            (socket, StreamEvent::Read(data), connected),
            action,
        ),
        data@.len() > 0,
    ensures
        ({
            &&& action matches StreamAction::Send(frame)
            &&& frame.sport == old(socket).sport
            &&& frame.dport == old(socket).dport
            &&& frame.flag == Flag::Unset
            &&& frame.seq == old(socket).seq
            &&& bytes_view(frame.data) == data@
        }),
        same_socket(*final(socket), *old(socket)),
        final(socket).state == old(socket).state,
        final(socket).seq == successor(old(socket).seq),
        final(socket).has_write_half == old(socket).has_write_half,
{
    let frame = action->Send_0;
    assert(frame@.data == data@ && frame@.seq == old(socket).seq);
}

/// A reader goes on to wait while it is not told to stop and the multiplexor is up.
pub proof fn law_a_reader_waits_while_all_is_well(
    socket: &mut MuxSocket,
    action: StreamAction,
)
    requires
        call_ensures(
            MuxSocket::stream_read,
            (socket, (StreamEvent::Woken { rst: false }), true),
            action,
        ),
    ensures
        action is Await,
        *final(socket) == *old(socket),
{
}

/// A reader stops when its stream has ended or fails, when it is told to, and when the multiplexor
/// is down: it takes its leave from the socket's port to its peer's, under the next number, and
/// lets go of the stream. The state of the socket stays.
pub proof fn law_a_reader_that_stops_takes_its_leave(
    socket: &mut MuxSocket,
    event: StreamEvent<'_>,
    connected: bool,
    action: StreamAction,
)
    requires
        call_ensures(MuxSocket::stream_read, (socket, event, connected), action),
        match event {
            StreamEvent::Woken { rst } => rst || !connected,
            StreamEvent::Read(data) => data@.len() == 0,
            StreamEvent::Failed => true,
        },
    ensures
        ({
            &&& action matches StreamAction::Finish(frame)
            &&& frame.sport == old(socket).sport
            &&& frame.dport == old(socket).dport
            &&& frame.flag == Flag::Fin
            &&& frame.seq == old(socket).seq
            &&& bytes_view(frame.data).len() == 0
        }),
        same_socket(*final(socket), *old(socket)),
        final(socket).state == old(socket).state,
        final(socket).seq == successor(old(socket).seq),
        !final(socket).has_write_half,
{
    let frame = action->Finish_0;
    assert(frame@.data.len() == 0 && frame@.seq == old(socket).seq);
}

} // verus!
