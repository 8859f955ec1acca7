//! Laws of whole conversations: what one call gives is what the next one, here or at the peer,
//! takes.

use vstd::prelude::*;

use crate::action::{actions_view, Action};
use crate::error::Fault;
use crate::frame::{Flag, Frame};
use crate::inner::{ReaderAction, ReaderEvent, Reading, StreamMultiplexorInner};
use crate::multiplexor::{Dial, StreamMultiplexor};
use crate::outside::bytes_view;
use crate::socket::{PortState, StreamEvent};

verus! {

/// `frame` is taken in, and leads to these actions for the socket `id`.
pub open spec fn takes_in(
    inner: &mut StreamMultiplexorInner,
    frame: Frame,
    id: Option<usize>,
    actions: Seq<Action>,
) -> bool {
    exists|action: ReaderAction|
        {
            &&& #[trigger] call_ensures(
                StreamMultiplexorInner::framed_reader_sender,
                (inner, ReaderEvent::Received(Some(Ok(frame)))),
                action,
            )
            &&& action is Deliver
            &&& action->Deliver_0.socket == id
            &&& action->Deliver_0.actions@ == actions
        }
}

/// Actions and what is seen of them are of the same number, one for one.
proof fn lemma_seen(actions: Seq<Action>)
    ensures
        actions_view(actions).len() == actions.len(),
        forall|i: int|
            0 <= i < actions.len() ==> (#[trigger] actions[i])@ == actions_view(actions)[i],
{
    assert forall|i: int| 0 <= i < actions.len() implies (#[trigger] actions[i])@ == actions_view(
        actions,
    )[i] by {
        assert(actions_view(actions)[i] == actions[i]@);
    }
}

/// Whoever dials a port that nobody listens on is told that the address is not available, and
/// nothing else comes of it: at the peer nothing changes, and here no signal, no listener and no
/// other connection does.
pub proof fn law_a_refused_dial_harms_nobody(
    a: &mut StreamMultiplexor,
    port: u16,
    dialled: Result<Dial, Fault>,
    b: &mut StreamMultiplexorInner,
    b_id: Option<usize>,
    refusal: Seq<Action>,
    a2: &mut StreamMultiplexorInner,
    a_id: Option<usize>,
    outcome: Seq<Action>,
    pair: (u16, u16),
)
    requires
        old(a)@.well_formed(),
        old(a)@.connected,
        call_ensures(StreamMultiplexor::connect, (a, port), dialled),
        old(b)@.well_formed(),
        !old(b)@.listeners.contains(port),
        !old(b)@.connections.contains_key((port, dialled->Ok_0.sport)),
        takes_in(b, dialled->Ok_0.syn, b_id, refusal),
        *old(a2) == final(a).inner,
        refusal.len() > 0 && refusal[0] is Send ==> takes_in(a2, refusal[0]->Send_0, a_id, outcome),
    ensures
        dialled is Ok,
        refusal.len() == 1 && refusal[0] is Send,
        final(b)@ == old(b)@,
        a_id == Some(dialled->Ok_0.socket),
        outcome[0] == Action::Refuse(Fault::AddrNotAvailable),
        outcome.len() == 3,
        outcome[1] is CloseWrite && outcome[2] is Reset,
        final(a2)@.config == old(a)@.config,
        final(a2)@.connected == old(a)@.connected,
        final(a2)@.watch_connected == old(a)@.watch_connected,
        final(a2)@.running == old(a)@.running,
        final(a2)@.listeners == old(a)@.listeners,
        old(a)@.connections.contains_key(pair) ==> {
            let id = old(a)@.connections[pair];
            &&& final(a2)@.connections.contains_key(pair)
            &&& final(a2)@.connections[pair] == id
            &&& final(a2)@.sockets[id] == old(a)@.sockets[id]
        },
{
    let dial = dialled->Ok_0;
    let syn = dial.syn;
    assert(syn@.sport == dial.sport && syn@.dport == port && syn@.flag == Flag::Syn);
    lemma_seen(refusal);
    let rst = refusal[0]->Send_0;
    assert(refusal[0]@ == actions_view(refusal)[0]);
    assert(rst@.sport == port && rst@.dport == dial.sport && rst@.flag == Flag::Rst);
    lemma_seen(outcome);
    assert(outcome[0]@ == actions_view(outcome)[0]);
    assert(outcome[1]@ == actions_view(outcome)[1]);
    assert(outcome[2]@ == actions_view(outcome)[2]);
    if old(a)@.connections.contains_key(pair) {
        assert(old(a)@.holds(pair, old(a)@.connections[pair]));
    }
}

/// Whoever dials a port that is listened on, whichever port it is, gets a stream, and the listener
/// gets the other end: the frames that the calls give, each taken in by the other side, set the
/// connection up at both ends, under the same two ports, and what is handed out is handed out
/// once.
pub proof fn law_a_dial_to_a_listener_is_accepted(
    a: &mut StreamMultiplexor,
    port: u16,
    dialled: Result<Dial, Fault>,
    b: &mut StreamMultiplexorInner,
    b_id: Option<usize>,
    accepts: Seq<Action>,
    a2: &mut StreamMultiplexorInner,
    a_id: Option<usize>,
    confirms: Seq<Action>,
    b2: &mut StreamMultiplexorInner,
    b2_id: Option<usize>,
    opens: Seq<Action>,
)
    requires
        old(a)@.well_formed(),
        old(a)@.connected,
        call_ensures(StreamMultiplexor::connect, (a, port), dialled),
        old(b)@.well_formed(),
        old(b)@.listeners.contains(port),
        takes_in(b, dialled->Ok_0.syn, b_id, accepts),
        *old(a2) == final(a).inner,
        accepts.len() > 0 && accepts[0] is Send ==> takes_in(a2, accepts[0]->Send_0, a_id, confirms),
        *old(b2) == *final(b),
        confirms.len() > 0 && confirms[0] is Send ==> takes_in(
            b2,
            confirms[0]->Send_0,
            b2_id,
            opens,
        ),
    ensures
        dialled is Ok,
        accepts.len() == 1 && accepts[0] is Send,
        a_id == Some(dialled->Ok_0.socket),
        confirms.len() == 2 && confirms[0] is Send && confirms[1] is Connect,
        b_id is Some,
        b2_id == b_id,
        opens.len() == 2 && opens[0] is Send && opens[1] == Action::Accept(port),
        ({
            let sport = dialled->Ok_0.sport;
            let here = final(a2)@.sockets[a_id->0];
            let there = final(b2)@.sockets[b_id->0];
            &&& final(a2)@.connections.contains_key((sport, port))
            &&& final(a2)@.connections[(sport, port)] == a_id->0
            &&& final(b2)@.connections.contains_key((port, sport))
            &&& final(b2)@.connections[(port, sport)] == b_id->0
            &&& here.state == PortState::Open && here.has_write_half
            &&& there.state == PortState::Open && there.has_write_half
            &&& here.sport == there.dport && here.dport == there.sport
        }),
{
    let dial = dialled->Ok_0;
    let syn = dial.syn;
    assert(syn@.sport == dial.sport && syn@.dport == port && syn@.flag == Flag::Syn);
    lemma_seen(accepts);
    assert(accepts[0]@ == actions_view(accepts)[0]);
    let syn_ack = accepts[0]->Send_0;
    assert(syn_ack@.sport == port && syn_ack@.dport == dial.sport && syn_ack@.flag == Flag::SynAck);
    lemma_seen(confirms);
    assert(confirms[0]@ == actions_view(confirms)[0]);
    assert(confirms[1]@ == actions_view(confirms)[1]);
    let ack = confirms[0]->Send_0;
    assert(ack@.sport == dial.sport && ack@.dport == port && ack@.flag == Flag::Ack);
    lemma_seen(opens);
    assert(opens[0]@ == actions_view(opens)[0]);
    assert(opens[1]@ == actions_view(opens)[1]);
}

/// What is read from a stream at one end is written to the stream at the other end: all of it,
/// nothing else, and only there.
pub proof fn law_what_is_read_here_is_written_there(
    a: &mut StreamMultiplexorInner,
    id: usize,
    data: &[u8],
    reading: Reading,
    b: &mut StreamMultiplexorInner,
    to: Option<usize>,
    actions: Seq<Action>,
)
    requires
        old(a)@.well_formed(),
        old(a)@.sockets.contains_key(id),
        data@.len() > 0,
        call_ensures(StreamMultiplexorInner::stream_read, (a, id, StreamEvent::Read(data)), reading),
        old(b)@.well_formed(),
        ({
            let pair = (old(a)@.sockets[id].dport, old(a)@.sockets[id].sport);
            let there = old(b)@.sockets[old(b)@.connections[pair]];
            &&& old(b)@.connections.contains_key(pair)
            &&& there.state == PortState::Open
            &&& there.has_write_half
        }),
        reading.action is Send ==> takes_in(b, reading.action->Send_0, to, actions),
    ensures
        reading.action is Send,
        to == Some(
            old(b)@.connections[(old(a)@.sockets[id].dport, old(a)@.sockets[id].sport)],
        ),
        actions.len() == 1,
        actions[0] is Write,
        bytes_view(actions[0]->Write_0) == data@,
        final(b)@ == old(b)@,
{
    let frame = reading.action->Send_0;
    assert(frame@.data == data@ && frame@.flag == Flag::Unset);
    lemma_seen(actions);
    assert(actions[0]@ == actions_view(actions)[0]);
    assert(final(b)@.sockets =~= old(b)@.sockets);
}

/// When a stream ends, its connection ends at both ends, and nothing else does: the ports of the
/// connection are free here, the peer breaks its stream off and tells its reader to stop, and the
/// listeners at both ends stay, so that the next one who dials is served.
pub proof fn law_an_ended_stream_leaves_the_listeners(
    a: &mut StreamMultiplexorInner,
    id: usize,
    event: StreamEvent<'_>,
    reading: Reading,
    b: &mut StreamMultiplexorInner,
    to: Option<usize>,
    actions: Seq<Action>,
    other: (u16, u16),
)
    requires
        old(a)@.well_formed(),
        old(a)@.sockets.contains_key(id),
        event matches StreamEvent::Read(data) && data@.len() == 0,
        call_ensures(StreamMultiplexorInner::stream_read, (a, id, event), reading),
        old(b)@.well_formed(),
        ({
            let pair = (old(a)@.sockets[id].dport, old(a)@.sockets[id].sport);
            &&& old(b)@.connections.contains_key(pair)
            &&& old(b)@.sockets[old(b)@.connections[pair]].state == PortState::Open
        }),
        reading.action is Finish ==> takes_in(b, reading.action->Finish_0, to, actions),
        other != (old(a)@.sockets[id].sport, old(a)@.sockets[id].dport),
    ensures
        reading.action is Finish,
        !final(a)@.connections.contains_key(
            (old(a)@.sockets[id].sport, old(a)@.sockets[id].dport),
        ),
        final(a)@.connections.contains_key(other) <==> old(a)@.connections.contains_key(other),
        final(a)@.connections[other] == old(a)@.connections[other],
        final(a)@.listeners == old(a)@.listeners,
        final(a)@.watch_connected == old(a)@.watch_connected,
        to is Some,
        actions.len() == 3,
        actions[0] is Send && actions[1] is CloseWrite && actions[2] is Reset,
        final(b)@.sockets[to->0].state == PortState::Closed,
        final(b)@.listeners == old(b)@.listeners,
        final(b)@.connections == old(b)@.connections,
        final(b)@.watch_connected == old(b)@.watch_connected,
{
    let frame = reading.action->Finish_0;
    assert(frame@.flag == Flag::Fin);
    lemma_seen(actions);
    assert(actions[0]@ == actions_view(actions)[0]);
    assert(actions[1]@ == actions_view(actions)[1]);
    assert(actions[2]@ == actions_view(actions)[2]);
}

} // verus!
