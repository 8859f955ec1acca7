//! Laws of the protocol between two multiplexors.

use vstd::prelude::*;

use crate::action::ActionView;
use crate::error::Fault;
use crate::frame::{Flag, FrameView};
use crate::inner::InnerView;
use crate::laws::wire::{decoded_all, encoded_all, law_encoded_frames_are_decoded};
use crate::socket::{next_seq, MuxSocket, PortState};

verus! {

/// A refusal is never answered, neither by a connection nor where there is none.
pub proof fn law_rst_is_not_answered(state: InnerView, frame: FrameView)
    requires
        frame.flag == Flag::Rst,
    ensures
        forall|i: int|
            0 <= i < state.actions(frame).len() ==> !(#[trigger] state.actions(frame)[i] is Send),
{
    let socket = state.recipient_socket(frame);
    let listening = state.listeners.contains(frame.dport);
    if state.lookup(frame.dport, frame.sport) is Some {
        let refusal = if (socket.state == PortState::Closed || socket.state == PortState::Ack)
            && socket.has_stream_sender {
            seq![ActionView::Refuse(Fault::AddrNotAvailable)]
        } else {
            seq![]
        };
        assert(socket.actions(frame, listening) =~= refusal + seq![
            ActionView::CloseWrite,
            ActionView::Reset,
        ]);
    }
}

/// A frame that belongs to no connection is refused, once: the refusal, where it arrives, is not
/// answered in turn.
pub proof fn law_strangers_are_refused(state: InnerView, frame: FrameView, any: usize)
    requires
        state.lookup(frame.dport, frame.sport) is None,
        !state.vends(frame),
    ensures
        state.delivered(frame, any) == state,
        frame.flag != Flag::Rst ==> state.actions(frame) == seq![
            ActionView::Send(frame.reply(Flag::Rst, 0)),
        ],
        frame.flag == Flag::Rst ==> state.actions(frame) == Seq::<ActionView>::empty(),
{
}

/// Dialling a port with a listener sets up a connection at both ends: the frames
/// go to and fro as TCP has it, whoever dialled is handed a stream, and the listener is handed
/// one. The last confirmation changes nothing.
pub proof fn law_dialling_a_listener_connects(
    a: InnerView,
    b: InnerView,
    sport: u16,
    dport: u16,
    a_id: usize,
    b_id: usize,
    any: usize,
)
    requires
        b.listeners.contains(dport),
    ensures
        ({
            let syn = FrameView::bare(sport, dport, Flag::Syn, 0);
            let syn_ack = FrameView::bare(dport, sport, Flag::SynAck, 0);
            let ack = FrameView::bare(sport, dport, Flag::Ack, 0);
            let last = FrameView::bare(dport, sport, Flag::Ack, 1);
            let a1 = a.register(a_id, MuxSocket::dialled(a.config.identifier, sport, dport));
            let b1 = b.delivered(syn, b_id);
            let a2 = a1.delivered(syn_ack, any);
            let b2 = b1.delivered(ack, any);
            &&& b.actions(syn) == seq![ActionView::Send(syn_ack)]
            &&& a1.actions(syn_ack) == seq![ActionView::Send(ack), ActionView::Connect]
            &&& b1.actions(ack) == seq![ActionView::Send(last), ActionView::Accept(dport)]
            &&& a2.actions(last) == Seq::<ActionView>::empty()
            &&& a2.delivered(last, any) == a2
            &&& a2.lookup(sport, dport) == Some(a_id)
            &&& a2.sockets[a_id].state == PortState::Open
            &&& a2.sockets[a_id].has_write_half
            &&& b2.lookup(dport, sport) == Some(b_id)
            &&& b2.sockets[b_id].state == PortState::Open
            &&& b2.sockets[b_id].has_write_half
        }),
{
    let syn = FrameView::bare(sport, dport, Flag::Syn, 0);
    let syn_ack = FrameView::bare(dport, sport, Flag::SynAck, 0);
    let ack = FrameView::bare(sport, dport, Flag::Ack, 0);
    let last = FrameView::bare(dport, sport, Flag::Ack, 1);
    let a1 = a.register(a_id, MuxSocket::dialled(a.config.identifier, sport, dport));
    let b1 = b.delivered(syn, b_id);
    let a2 = a1.delivered(syn_ack, any);
    assert(b.actions(syn) =~= seq![ActionView::Send(syn_ack)]);
    assert(a1.actions(syn_ack) =~= seq![ActionView::Send(ack), ActionView::Connect]);
    assert(b1.actions(ack) =~= seq![ActionView::Send(last), ActionView::Accept(dport)]);
    assert(a2.actions(last) =~= Seq::<ActionView>::empty());
    assert(a2.delivered(last, any) =~= a2);
}

/// Dialling a port without a listener fails: the peer refuses, and whoever dialled is told that
/// the address is not available. The peer keeps nothing of it.
pub proof fn law_dialling_nobody_is_refused(
    a: InnerView,
    b: InnerView,
    sport: u16,
    dport: u16,
    a_id: usize,
    any: usize,
)
    requires
        !b.listeners.contains(dport),
        !b.connections.contains_key((dport, sport)),
    ensures
        ({
            let syn = FrameView::bare(sport, dport, Flag::Syn, 0);
            let rst = FrameView::bare(dport, sport, Flag::Rst, 0);
            let a1 = a.register(a_id, MuxSocket::dialled(a.config.identifier, sport, dport));
            &&& b.actions(syn) == seq![ActionView::Send(rst)]
            &&& b.delivered(syn, any) == b
            &&& a1.actions(rst) == seq![
                ActionView::Refuse(Fault::AddrNotAvailable),
                ActionView::CloseWrite,
                ActionView::Reset,
            ]
            &&& a1.delivered(rst, any).sockets[a_id].state == PortState::Closed
        }),
{
    let rst = FrameView::bare(dport, sport, Flag::Rst, 0);
    let a1 = a.register(a_id, MuxSocket::dialled(a.config.identifier, sport, dport));
    assert(a1.actions(rst) =~= seq![
        ActionView::Refuse(Fault::AddrNotAvailable),
        ActionView::CloseWrite,
        ActionView::Reset,
    ]);
}

/// A socket numbers the frames that it sends one after the other, whether it answers a frame or
/// its reader sends; a frame that it does not answer takes no number.
pub proof fn law_frames_are_numbered_in_turn(socket: MuxSocket, frame: FrameView, listening: bool)
    ensures
        match socket.state.answer(frame.flag) {
            Some(flag) => {
                &&& socket.actions(frame, listening)[0] == ActionView::Send(
                    frame.reply(flag, socket.seq),
                )
                &&& socket.received(frame, listening).seq == next_seq(socket.seq)
            },
            None => {
                &&& socket.received(frame, listening).seq == socket.seq
                &&& forall|i: int|
                    0 <= i < socket.actions(frame, listening).len() ==> !(
                    #[trigger] socket.actions(frame, listening)[i] is Send)
            },
        },
        socket.data_frame(frame.data).seq == socket.seq,
        socket.counted().seq == next_seq(socket.seq),
        socket.fin_frame().seq == socket.seq,
        socket.finished().seq == next_seq(socket.seq),
{
}

/// The frames that the reader of a socket's stream sends for what it reads, chunk by chunk.
pub open spec fn sent(socket: MuxSocket, chunks: Seq<Seq<u8>>) -> Seq<FrameView>
    decreases chunks.len(),
{
    if chunks.len() == 0 {
        Seq::empty()
    } else {
        seq![socket.data_frame(chunks[0])] + sent(socket.counted(), chunks.drop_first())
    }
}

/// What a socket calls for on frames that it takes in one after the other.
pub open spec fn called_for(
    socket: MuxSocket,
    frames: Seq<FrameView>,
    listening: bool,
) -> Seq<ActionView>
    decreases frames.len(),
{
    if frames.len() == 0 {
        Seq::empty()
    } else {
        socket.actions(frames[0], listening) + called_for(
            socket.received(frames[0], listening),
            frames.drop_first(),
            listening,
        )
    }
}

/// An established connection passes data on: what is read from the stream at one end crosses the
/// stream below, and is written to the stream at the other end, all of it, in order, and nothing
/// else.
pub proof fn law_a_connection_passes_data(
    max: usize,
    from: MuxSocket,
    to: MuxSocket,
    chunks: Seq<Seq<u8>>,
    listening: bool,
)
    requires
        to.state == PortState::Open,
        to.has_write_half,
        forall|i: int| 0 <= i < chunks.len() ==> 20 + (#[trigger] chunks[i]).len() <= max,
    ensures
        decoded_all(max, encoded_all(sent(from, chunks))) == (
            sent(from, chunks),
            Seq::<u8>::empty(),
        ),
        called_for(to, sent(from, chunks), listening) == chunks.map_values(
            |chunk: Seq<u8>| ActionView::Write(chunk),
        ),
{
    lemma_sent(max, from, chunks);
    law_encoded_frames_are_decoded(max, sent(from, chunks), Seq::empty());
    assert(encoded_all(sent(from, chunks)) + Seq::<u8>::empty() =~= encoded_all(
        sent(from, chunks),
    ));
    assert(sent(from, chunks) + decoded_all(max, Seq::empty()).0 =~= sent(from, chunks));
    lemma_called_for(from, to, chunks, listening);
}

proof fn lemma_sent(max: usize, socket: MuxSocket, chunks: Seq<Seq<u8>>)
    requires
        forall|i: int| 0 <= i < chunks.len() ==> 20 + (#[trigger] chunks[i]).len() <= max,
    ensures
        sent(socket, chunks).len() == chunks.len(),
        forall|i: int|
            0 <= i < chunks.len() ==> (#[trigger] sent(socket, chunks)[i]).body_len() <= max,
    decreases chunks.len(),
{
    if chunks.len() > 0 {
        let later = chunks.drop_first();
        assert forall|i: int| 0 <= i < later.len() implies 20 + (#[trigger] later[i]).len()
            <= max by {
            assert(later[i] == chunks[i + 1]);
        }
        lemma_sent(max, socket.counted(), later);
        let all = sent(socket, chunks);
        assert forall|i: int| 0 <= i < chunks.len() implies (#[trigger] all[i]).body_len()
            <= max by {
            if i > 0 {
                assert(all[i] == sent(socket.counted(), later)[i - 1]);
            } else {
                assert(chunks[0].len() + 20 <= max);
            }
        }
    }
}

proof fn lemma_called_for(
    from: MuxSocket,
    to: MuxSocket,
    chunks: Seq<Seq<u8>>,
    listening: bool,
)
    requires
        to.state == PortState::Open,
        to.has_write_half,
    ensures
        called_for(to, sent(from, chunks), listening) == chunks.map_values(
            |chunk: Seq<u8>| ActionView::Write(chunk),
        ),
    decreases chunks.len(),
{
    let writes = chunks.map_values(|chunk: Seq<u8>| ActionView::Write(chunk));
    if chunks.len() == 0 {
        assert(writes =~= Seq::empty());
    } else {
        let frames = sent(from, chunks);
        let later = chunks.drop_first();
        lemma_called_for(from.counted(), to, later, listening);
        assert(frames.drop_first() =~= sent(from.counted(), later));
        assert(to.actions(frames[0], listening) =~= seq![ActionView::Write(chunks[0])]);
        assert(to.received(frames[0], listening) == to);
        assert(writes =~= seq![ActionView::Write(chunks[0])] + later.map_values(
            |chunk: Seq<u8>| ActionView::Write(chunk),
        ));
    }
}

/// Data for a connection that is not set up, or that has been broken off, goes nowhere.
pub proof fn law_a_closed_connection_passes_nothing(
    socket: MuxSocket,
    frame: FrameView,
    listening: bool,
)
    requires
        socket.well_formed(),
        frame.flag == Flag::Unset,
        !socket.has_write_half,
    ensures
        socket.actions(frame, listening) == Seq::<ActionView>::empty(),
        socket.received(frame, listening) == socket,
{
    assert(socket.actions(frame, listening) =~= Seq::<ActionView>::empty());
}

/// When the stream at one end of a connection ends, the other end is broken off too, and neither
/// end keeps the connection: the first end takes its leave and frees its ports, the other end
/// answers, tells its reader to stop, and the reader takes its leave and frees its ports in turn.
/// What the other end still sends is refused, and the refusals change no table.
pub proof fn law_an_ended_stream_ends_the_connection(
    a: InnerView,
    b: InnerView,
    sport: u16,
    dport: u16,
    any: usize,
)
    requires
        a.well_formed(),
        b.well_formed(),
        a.connections.contains_key((sport, dport)),
        b.connections.contains_key((dport, sport)),
        a.sockets[a.connections[(sport, dport)]].state == PortState::Open,
        b.sockets[b.connections[(dport, sport)]].state == PortState::Open,
    ensures
        ({
            let a_id = a.connections[(sport, dport)];
            let b_id = b.connections[(dport, sport)];
            let fin = a.sockets[a_id].fin_frame();
            let a1 = a.with_socket(a_id, a.sockets[a_id].finished()).unregister(sport, dport);
            let answer = fin.reply(Flag::Fin, b.sockets[b_id].seq);
            let b1 = b.delivered(fin, any);
            let farewell = b1.sockets[b_id].fin_frame();
            let b2 = b1.with_socket(b_id, b1.sockets[b_id].finished()).unregister(dport, sport);
            let rst = farewell.reply(Flag::Rst, 0);
            &&& b.actions(fin) == seq![
                ActionView::Send(answer),
                ActionView::CloseWrite,
                ActionView::Reset,
            ]
            &&& a1.lookup(sport, dport) is None
            &&& b2.lookup(dport, sport) is None
            &&& b2.sockets[b_id].state == PortState::Closed
            &&& a1.actions(answer) == seq![ActionView::Send(rst)]
            &&& a1.delivered(answer, any) == a1
            &&& a1.actions(farewell) == seq![ActionView::Send(rst)]
            &&& a1.delivered(farewell, any) == a1
            &&& b2.actions(rst) == Seq::<ActionView>::empty()
            &&& b2.delivered(rst, any) == b2
        }),
{
    let a_id = a.connections[(sport, dport)];
    let b_id = b.connections[(dport, sport)];
    assert(a.holds((sport, dport), a_id));
    assert(b.holds((dport, sport), b_id));
    let fin = a.sockets[a_id].fin_frame();
    let answer = fin.reply(Flag::Fin, b.sockets[b_id].seq);
    assert(b.actions(fin) =~= seq![
        ActionView::Send(answer),
        ActionView::CloseWrite,
        ActionView::Reset,
    ]);
}

/// A connection that is refused at one end while the other end takes it to be set up is broken off
/// there, at once.
pub proof fn law_a_refusal_breaks_a_connection_off(
    state: InnerView,
    frame: FrameView,
    any: usize,
)
    requires
        state.well_formed(),
        frame.flag == Flag::Rst,
        state.connections.contains_key((frame.dport, frame.sport)),
    ensures
        ({
            let id = state.connections[(frame.dport, frame.sport)];
            let socket = state.delivered(frame, any).sockets[id];
            let count = state.actions(frame).len();
            &&& socket.state == PortState::Closed
            &&& !socket.has_write_half
            &&& count >= 2
            &&& state.actions(frame)[count - 2] == ActionView::CloseWrite
            &&& state.actions(frame)[count - 1] == ActionView::Reset
        }),
{
}

} // verus!
