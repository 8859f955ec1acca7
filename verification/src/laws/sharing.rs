//! What a multiplexor is for: many streams share one, and do not mix.

use vstd::prelude::*;

use crate::action::ActionView;
use crate::frame::{Flag, FrameView};
use crate::inner::InnerView;
use crate::laws::protocol::sent;
use crate::laws::tables::{law_steps_keep_the_state_well_formed, Step};
use crate::laws::wire::{decoded_all, encoded_all, law_encoded_frames_are_decoded};
use crate::socket::{MuxSocket, PortState};

verus! {

/// What a reader has read at once from the stream of the socket `id`.
#[verifier::ext_equal]
pub struct Chunk {
    pub id: usize,
    pub data: Seq<u8>,
}

/// The frames that the readers of several streams queue, one after the other, for what they read.
pub open spec fn queued(state: InnerView, reads: Seq<Chunk>) -> Seq<FrameView>
    decreases reads.len(),
{
    if reads.len() == 0 {
        Seq::empty()
    } else {
        seq![state.sockets[reads[0].id].data_frame(reads[0].data)] + queued(
            state.after(Step::Send { id: reads[0].id }),
            reads.drop_first(),
        )
    }
}

/// What was read from one of the streams.
pub open spec fn read_from(reads: Seq<Chunk>, id: usize) -> Seq<Seq<u8>>
    decreases reads.len(),
{
    if reads.len() == 0 {
        Seq::empty()
    } else if reads[0].id == id {
        seq![reads[0].data] + read_from(reads.drop_first(), id)
    } else {
        read_from(reads.drop_first(), id)
    }
}

/// The data is written to a stream, chunk by chunk, and nothing else is done.
pub open spec fn writes(chunks: Seq<Seq<u8>>) -> Seq<ActionView> {
    chunks.map_values(|chunk: Seq<u8>| ActionView::Write(chunk))
}

/// The step takes in a frame for the connection between these ports.
pub open spec fn delivers_to(step: Step, pair: (u16, u16)) -> bool {
    step matches Step::Deliver { frame, .. } && (frame.dport, frame.sport) == pair
}

/// The frames for one connection among everything that happens.
pub open spec fn taken_in(steps: Seq<Step>, pair: (u16, u16)) -> Seq<FrameView>
    decreases steps.len(),
{
    if steps.len() == 0 {
        Seq::empty()
    } else if delivers_to(steps[0], pair) {
        seq![steps[0]->frame] + taken_in(steps.drop_first(), pair)
    } else {
        taken_in(steps.drop_first(), pair)
    }
}

/// What is to be done for one connection while everything happens.
pub open spec fn done_for(state: InnerView, steps: Seq<Step>, pair: (u16, u16)) -> Seq<ActionView>
    decreases steps.len(),
{
    if steps.len() == 0 {
        Seq::empty()
    } else if delivers_to(steps[0], pair) {
        state.actions(steps[0]->frame) + done_for(
            state.after(steps[0]),
            steps.drop_first(),
            pair,
        )
    } else {
        done_for(state.after(steps[0]), steps.drop_first(), pair)
    }
}

impl InnerView {
    /// The step leaves the connection between these ports in its place.
    pub open spec fn spares(self, step: Step, pair: (u16, u16)) -> bool {
        match step {
            Step::Finish { id } => (self.sockets[id].sport, self.sockets[id].dport) != pair,
            Step::FreeConnection { sport, dport } => (sport, dport) != pair,
            Step::ShutDown => false,
            _ => true,
        }
    }

    /// All of the steps leave the connection in its place.
    pub open spec fn spares_all(self, steps: Seq<Step>, pair: (u16, u16)) -> bool
        decreases steps.len(),
    {
        steps.len() > 0 ==> self.spares(steps[0], pair) && self.after(steps[0]).spares_all(
            steps.drop_first(),
            pair,
        )
    }

    /// The connection between these ports is set up, and has a stream to write to.
    pub open spec fn streams(self, pair: (u16, u16)) -> bool {
        &&& self.connections.contains_key(pair)
        &&& self.sockets[self.connections[pair]].state == PortState::Open
        &&& self.sockets[self.connections[pair]].has_write_half
    }
}

/// A stream stays as it is while other things happen, and while data comes for it.
proof fn lemma_streams_on(state: InnerView, step: Step, pair: (u16, u16))
    requires
        state.well_formed(),
        state.allows(step),
        state.spares(step, pair),
        state.streams(pair),
        delivers_to(step, pair) ==> step->frame.flag == Flag::Unset,
    ensures
        state.after(step).streams(pair),
{
    let id = state.connections[pair];
    assert(state.holds(pair, id));
    match step {
        Step::Deliver { frame, fresh } => {
            if state.connections.contains_key((frame.dport, frame.sport)) {
                assert(state.holds(
                    (frame.dport, frame.sport),
                    state.connections[(frame.dport, frame.sport)],
                ));
            }
        },
        Step::Release { id: released } => {
            assert(state.registered(id));
        },
        _ => {},
    }
}

/// Streams do not mix: whatever else happens between the frames of a connection, be it that frames
/// of other connections are taken in, that connections come and go, or that ports are bound and
/// freed, what is written to the connection's stream is what was read from the stream at its
/// other end, all of it, in order, and nothing else. This holds until the connection itself is
/// given up.
pub proof fn law_streams_do_not_mix(
    state: InnerView,
    steps: Seq<Step>,
    pair: (u16, u16),
    from: MuxSocket,
    chunks: Seq<Seq<u8>>,
)
    requires
        state.well_formed(),
        state.allows_all(steps),
        state.spares_all(steps, pair),
        state.streams(pair),
        taken_in(steps, pair) == sent(from, chunks),
    ensures
        done_for(state, steps, pair) == writes(chunks),
        state.after_all(steps).streams(pair),
    decreases steps.len(),
{
    if steps.len() == 0 {
        assert(chunks.len() == 0);
        assert(done_for(state, steps, pair) =~= writes(chunks));
    } else {
        let step = steps[0];
        let later = steps.drop_first();
        law_steps_keep_the_state_well_formed(state, step);
        if delivers_to(step, pair) {
            let frame = step->frame;
            assert(taken_in(steps, pair)[0] == frame);
            assert(chunks.len() > 0);
            assert(sent(from, chunks)[0] == from.data_frame(chunks[0]));
            assert(taken_in(later, pair) =~= taken_in(steps, pair).drop_first());
            assert(sent(from.counted(), chunks.drop_first()) =~= sent(from, chunks).drop_first());
            lemma_streams_on(state, step, pair);
            law_streams_do_not_mix(
                state.after(step),
                later,
                pair,
                from.counted(),
                chunks.drop_first(),
            );
            assert(state.actions(frame) =~= seq![ActionView::Write(chunks[0])]);
            assert(writes(chunks) =~= seq![ActionView::Write(chunks[0])] + writes(
                chunks.drop_first(),
            ));
        } else {
            lemma_streams_on(state, step, pair);
            law_streams_do_not_mix(state.after(step), later, pair, from, chunks);
        }
    }
}

/// The frames arrive one after the other, and nothing else happens.
pub open spec fn arrivals(frames: Seq<FrameView>) -> Seq<Step> {
    frames.map_values(|frame: FrameView| Step::Deliver { frame, fresh: 0 })
}

/// Data frames can always be taken in, and take no connection away.
proof fn lemma_arrivals(state: InnerView, frames: Seq<FrameView>, pair: (u16, u16))
    requires
        forall|i: int| 0 <= i < frames.len() ==> (#[trigger] frames[i]).flag == Flag::Unset,
    ensures
        state.allows_all(arrivals(frames)),
        state.spares_all(arrivals(frames), pair),
    decreases frames.len(),
{
    if frames.len() > 0 {
        let steps = arrivals(frames);
        assert(steps.drop_first() =~= arrivals(frames.drop_first()));
        assert(frames[0].flag == Flag::Unset);
        lemma_arrivals(state.after(steps[0]), frames.drop_first(), pair);
    }
}

/// Each of the queued frames is a data frame within the limit, and those of one connection are
/// what its reader has sent.
proof fn lemma_queued(
    max: usize,
    state: InnerView,
    reads: Seq<Chunk>,
    sport: u16,
    dport: u16,
)
    requires
        state.well_formed(),
        state.connections.contains_key((sport, dport)),
        forall|i: int|
            0 <= i < reads.len() ==> state.registered((#[trigger] reads[i]).id) && 20
                + reads[i].data.len() <= max,
    ensures
        forall|i: int|
            0 <= i < queued(state, reads).len() ==> {
                &&& (#[trigger] queued(state, reads)[i]).flag == Flag::Unset
                &&& queued(state, reads)[i].body_len() <= max
            },
        taken_in(arrivals(queued(state, reads)), (dport, sport)) == sent(
            state.sockets[state.connections[(sport, dport)]],
            read_from(reads, state.connections[(sport, dport)]),
        ),
    decreases reads.len(),
{
    let id = state.connections[(sport, dport)];
    let frames = queued(state, reads);
    assert(state.holds((sport, dport), id));
    if reads.len() == 0 {
        assert(arrivals(frames) =~= Seq::<Step>::empty());
    } else {
        let reader = reads[0].id;
        let later = reads.drop_first();
        let after = state.after(Step::Send { id: reader });
        assert(state.registered(reader));
        let own = choose|own: (u16, u16)| #[trigger]
            state.connections.contains_key(own) && state.connections[own] == reader;
        assert(state.holds(own, reader));
        law_steps_keep_the_state_well_formed(state, Step::Send { id: reader });
        assert forall|i: int| 0 <= i < later.len() implies after.registered(
            (#[trigger] later[i]).id,
        ) && 20 + later[i].data.len() <= max by {
            assert(later[i] == reads[i + 1]);
            assert(state.registered(reads[i + 1].id));
            let pair = choose|pair: (u16, u16)| #[trigger]
                state.connections.contains_key(pair) && state.connections[pair] == reads[i + 1].id;
            assert(after.connections.contains_key(pair));
        }
        lemma_queued(max, after, later, sport, dport);
        let rest = queued(after, later);
        assert forall|i: int| 0 <= i < frames.len() implies {
            &&& (#[trigger] frames[i]).flag == Flag::Unset
            &&& frames[i].body_len() <= max
        } by {
            if i > 0 {
                assert(frames[i] == rest[i - 1]);
            } else {
                assert(20 + reads[0].data.len() <= max);
            }
        }
        assert(arrivals(frames).drop_first() =~= arrivals(rest));
        if reader == id {
            let chunks = read_from(reads, id);
            assert(chunks.drop_first() =~= read_from(later, id));
        }
    }
}

/// Many streams share one: readers of any streams at one end, in whatever turn they read, queue
/// frames that cross the stream below whole and in order. For each connection whose other end is
/// set up, what was read from its own stream is then written to the stream at its other end, all
/// of it, in order, and nothing else.
pub proof fn law_many_streams_share_one(
    max: usize,
    a: InnerView,
    b: InnerView,
    reads: Seq<Chunk>,
    sport: u16,
    dport: u16,
)
    requires
        a.well_formed(),
        b.well_formed(),
        a.connections.contains_key((sport, dport)),
        b.streams((dport, sport)),
        forall|i: int|
            0 <= i < reads.len() ==> a.registered((#[trigger] reads[i]).id) && 20
                + reads[i].data.len() <= max,
    ensures
        decoded_all(max, encoded_all(queued(a, reads))) == (queued(a, reads), Seq::<u8>::empty()),
        done_for(b, arrivals(queued(a, reads)), (dport, sport)) == writes(
            read_from(reads, a.connections[(sport, dport)]),
        ),
{
    let frames = queued(a, reads);
    let id = a.connections[(sport, dport)];
    lemma_queued(max, a, reads, sport, dport);
    law_encoded_frames_are_decoded(max, frames, Seq::empty());
    assert(encoded_all(frames) + Seq::<u8>::empty() =~= encoded_all(frames));
    assert(frames + decoded_all(max, Seq::empty()).0 =~= frames);
    lemma_arrivals(b, frames, (dport, sport));
    law_streams_do_not_mix(
        b,
        arrivals(frames),
        (dport, sport),
        a.sockets[id],
        read_from(reads, id),
    );
}

impl InnerView {
    /// The step has nothing to do with the connection between these ports: it is about other ports,
    /// or about none.
    pub open spec fn passes_by(self, step: Step, pair: (u16, u16)) -> bool {
        match step {
            Step::Deliver { frame, .. } => (frame.dport, frame.sport) != pair,
            Step::Send { id } => (self.sockets[id].sport, self.sockets[id].dport) != pair,
            Step::Finish { id } => (self.sockets[id].sport, self.sockets[id].dport) != pair,
            Step::Bind { port } => port != pair.0,
            Step::FreeListener { port } => port != pair.0,
            Step::Dial { sport, dport, .. } => (sport, dport) != pair,
            Step::FreeConnection { sport, dport } => (sport, dport) != pair,
            Step::ShutDown => false,
            _ => true,
        }
    }

    /// Of all the steps, only frames have to do with the connection.
    pub open spec fn only_frames_for(self, steps: Seq<Step>, pair: (u16, u16)) -> bool
        decreases steps.len(),
    {
        steps.len() > 0 ==> (delivers_to(steps[0], pair) || self.passes_by(steps[0], pair))
            && self.after(steps[0]).only_frames_for(steps.drop_first(), pair)
    }

    /// As far as the connection between these ports goes, the two states are the same.
    pub open spec fn agrees(self, other: InnerView, pair: (u16, u16)) -> bool {
        &&& self.config == other.config
        &&& self.listeners.contains(pair.0) == other.listeners.contains(pair.0)
        &&& self.connections.contains_key(pair) == other.connections.contains_key(pair)
        &&& self.connections.contains_key(pair) ==> self.sockets[self.connections[pair]]
            == other.sockets[other.connections[pair]]
    }
}

/// The steps that take in a frame for the connection between these ports.
pub open spec fn own_steps(steps: Seq<Step>, pair: (u16, u16)) -> Seq<Step>
    decreases steps.len(),
{
    if steps.len() == 0 {
        Seq::empty()
    } else if delivers_to(steps[0], pair) {
        seq![steps[0]] + own_steps(steps.drop_first(), pair)
    } else {
        own_steps(steps.drop_first(), pair)
    }
}

/// A connection gets what its own frames call for, whatever they are: requests, confirmations,
/// data, ends and refusals. What is done for it while frames of any connections are taken in, and
/// while other connections and ports come and go, is what would be done if its own frames were all
/// that happened, and it is left in the same state.
pub proof fn law_a_connection_gets_what_its_own_frames_call_for(
    state: InnerView,
    steps: Seq<Step>,
    pair: (u16, u16),
)
    requires
        state.well_formed(),
        state.allows_all(steps),
        state.only_frames_for(steps, pair),
    ensures
        done_for(state, steps, pair) == done_for(state, own_steps(steps, pair), pair),
        state.after_all(steps).agrees(state.after_all(own_steps(steps, pair)), pair),
{
    lemma_alone(state, state, steps, pair);
}

proof fn lemma_alone(state: InnerView, alone: InnerView, steps: Seq<Step>, pair: (u16, u16))
    requires
        state.well_formed(),
        state.allows_all(steps),
        state.only_frames_for(steps, pair),
        state.agrees(alone, pair),
    ensures
        done_for(state, steps, pair) == done_for(alone, own_steps(steps, pair), pair),
        state.after_all(steps).agrees(alone.after_all(own_steps(steps, pair)), pair),
    decreases steps.len(),
{
    if steps.len() > 0 {
        let step = steps[0];
        let later = steps.drop_first();
        law_steps_keep_the_state_well_formed(state, step);
        if delivers_to(step, pair) {
            let own = own_steps(steps, pair);
            assert(own.drop_first() =~= own_steps(later, pair));
            assert(own[0] == step);
            assert(state.actions(step->frame) == alone.actions(step->frame));
            lemma_alone(state.after(step), alone.after(step), later, pair);
        } else {
            lemma_passed_by(state, step, pair);
            lemma_alone(state.after(step), alone, later, pair);
        }
    }
}

/// What passes a connection by leaves it as it is.
proof fn lemma_passed_by(state: InnerView, step: Step, pair: (u16, u16))
    requires
        state.well_formed(),
        state.allows(step),
        state.passes_by(step, pair),
    ensures
        state.agrees(state.after(step), pair),
{
    if state.connections.contains_key(pair) {
        let id = state.connections[pair];
        assert(state.holds(pair, id));
        match step {
            Step::Deliver { frame, .. } => {
                let other = (frame.dport, frame.sport);
                if state.connections.contains_key(other) {
                    assert(state.holds(other, state.connections[other]));
                }
            },
            Step::Release { .. } => {
                assert(state.registered(id));
            },
            _ => {},
        }
    }
}

} // verus!
