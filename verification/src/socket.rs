//! One end of one connection.

use std::fmt::{Debug, Formatter};

use vstd::prelude::*;

use crate::action::{actions_view, Action, ActionView};
use crate::error::Fault;
use crate::frame::{Flag, Frame, FrameView};

verus! {

/// How far a connection has come.
#[derive(Copy, Clone, Debug, PartialEq, Eq, Structural)]
pub enum PortState {
    /// Not set up, or over.
    Closed,
    /// This end has accepted and waits to be confirmed.
    SynAck,
    /// This end has asked and waits to be accepted.
    Ack,
    /// Set up.
    Open,
}

/// One end of one connection, between `sport` here and `dport` at the peer.
#[derive(Copy, Clone, PartialEq, Eq)]
pub struct MuxSocket {
    /// The identifier of its multiplexor.
    pub identifier: &'static str,
    /// Whether a listener here vends the connection; otherwise it was dialled from here.
    pub accepting: bool,
    pub sport: u16,
    pub dport: u16,
    pub state: PortState,
    /// The number of the next numbered frame.
    pub seq: u32,
    /// Whether there is a stream to write to.
    pub has_write_half: bool,
    /// Whether somebody has dialled and is to be told of the outcome.
    pub has_stream_sender: bool,
}

impl Debug for MuxSocket {
    fn fmt(&self, f: &mut Formatter<'_>) -> (result: std::fmt::Result) {
        f.debug_struct("MuxSocket").field("id", &self.identifier).field("sport", &self.sport).field(
            "dport",
            &self.dport,
        ).finish()
    }
}

/// Sequence numbers start over behind the highest.
pub open spec fn next_seq(seq: u32) -> u32 {
    if seq == u32::MAX {
        0
    } else {
        (seq + 1) as u32
    }
}

impl PortState {
    /// The state that a frame leads to.
    pub open spec fn after(self, flag: Flag) -> PortState {
        match (flag, self) {
            (Flag::Syn, PortState::Closed) => PortState::SynAck,
            (Flag::SynAck | Flag::Ack, PortState::SynAck | PortState::Ack) => PortState::Open,
            (Flag::Fin, PortState::Open) => PortState::Closed,
            (Flag::Rst, _) => PortState::Closed,
            _ => self,
        }
    }

    /// The flag of the frame that answers a frame, where one does.
    pub open spec fn answer(self, flag: Flag) -> Option<Flag> {
        match (flag, self) {
            (Flag::Syn, PortState::Closed) => Some(Flag::SynAck),
            (Flag::SynAck | Flag::Ack, PortState::SynAck | PortState::Ack) => Some(Flag::Ack),
            (Flag::Fin, PortState::Open) => Some(Flag::Fin),
            _ => None,
        }
    }
}

impl MuxSocket {
    /// A socket that nothing has happened to.
    pub open spec fn fresh(
        identifier: &'static str,
        sport: u16,
        dport: u16,
        accepting: bool,
    ) -> MuxSocket {
        MuxSocket {
            identifier,
            accepting,
            sport,
            dport,
            state: PortState::Closed,
            seq: 0,
            has_write_half: false,
            has_stream_sender: false,
        }
    }

    /// A stream is there to be written to only while the connection is set up.
    pub open spec fn well_formed(self) -> bool {
        self.has_write_half ==> self.state == PortState::Open
    }

    /// A frame with this flag makes the socket hand out a stream: it completes the handshake, and
    /// there is somebody to hand it to, be it a listener or whoever dialled.
    pub open spec fn hands_out(self, flag: Flag, listening: bool) -> bool {
        &&& self.state != PortState::Open
        &&& self.state.after(flag) == PortState::Open
        &&& if self.accepting {
            listening
        } else {
            self.has_stream_sender
        }
    }

    /// A frame with this flag breaks off the stream.
    pub open spec fn breaks_off(self, flag: Flag) -> bool {
        flag == Flag::Rst || (flag == Flag::Fin && self.state == PortState::Open)
    }

    /// The socket after `frame`, with `listening` for whether a listener is on the frame's port.
    pub open spec fn received(self, frame: FrameView, listening: bool) -> MuxSocket {
        MuxSocket {
            state: self.state.after(frame.flag),
            seq: if self.state.answer(frame.flag) is Some {
                next_seq(self.seq)
            } else {
                self.seq
            },
            has_write_half: if self.breaks_off(frame.flag) {
                false
            } else {
                self.has_write_half || self.hands_out(frame.flag, listening)
            },
            ..self
        }
    }

    /// What is to be done on `frame`: answer it, hand out a stream, pass data on, tell whoever
    /// dialled of a refusal, break off the stream.
    pub open spec fn actions(self, frame: FrameView, listening: bool) -> Seq<ActionView> {
        let answer = match self.state.answer(frame.flag) {
            Some(flag) => seq![ActionView::Send(frame.reply(flag, self.seq))],
            None => seq![],
        };
        let stream = if self.hands_out(frame.flag, listening) {
            if self.accepting {
                seq![ActionView::Accept(frame.dport)]
            } else {
                seq![ActionView::Connect]
            }
        } else {
            seq![]
        };
        let data = if frame.flag == Flag::Unset && self.state == PortState::Open
            && self.has_write_half {
            seq![ActionView::Write(frame.data)]
        } else {
            seq![]
        };
        let refusal = if frame.flag == Flag::Rst && (self.state == PortState::Closed || self.state
            == PortState::Ack) && self.has_stream_sender {
            seq![ActionView::Refuse(Fault::AddrNotAvailable)]
        } else {
            seq![]
        };
        let end = if self.breaks_off(frame.flag) {
            seq![ActionView::CloseWrite, ActionView::Reset]
        } else {
            seq![]
        };
        answer + stream + data + refusal + end
    }

    /// The socket after its reader has sent one more numbered frame.
    pub open spec fn counted(self) -> MuxSocket {
        MuxSocket { seq: next_seq(self.seq), ..self }
    }

    /// The data frame for `data`.
    pub open spec fn data_frame(self, data: Seq<u8>) -> FrameView {
        FrameView { sport: self.sport, dport: self.dport, flag: Flag::Unset, seq: self.seq, data }
    }

    /// The socket after its reader has stopped.
    pub open spec fn finished(self) -> MuxSocket {
        MuxSocket { has_write_half: false, ..self.counted() }
    }

    /// The frame with which the reader takes its leave.
    pub open spec fn fin_frame(self) -> FrameView {
        FrameView::bare(self.sport, self.dport, Flag::Fin, self.seq)
    }
}

/// What the reader of a stream has met.
#[derive(Debug)]
pub enum StreamEvent<'a> {
    /// It starts, goes on after a frame, or learns that a signal has changed.
    Woken { rst: bool },
    /// It has read this much; nothing means that the stream has ended.
    Read(&'a [u8]),
    /// It could not read.
    Failed,
}

/// What the reader of a stream does next.
#[derive(Debug)]
pub enum StreamAction {
    /// Wait for data, or for a signal to change.
    Await,
    /// Queue this data frame, and go on.
    Send(Frame),
    /// Let go of the half of the stream that is written to, queue this frame, and stop.
    Finish(Frame),
}

impl StreamEvent<'_> {
    /// The event ends the reader.
    pub open spec fn ends(self, connected: bool) -> bool {
        match self {
            StreamEvent::Woken { rst } => rst || !connected,
            StreamEvent::Read(data) => data@.len() == 0,
            StreamEvent::Failed => true,
        }
    }
}

impl MuxSocket {
    /// A socket for a connection that is not set up.
    pub fn new(identifier: &'static str, sport: u16, dport: u16, accepting: bool) -> (socket: Self)
        ensures
            socket == MuxSocket::fresh(identifier, sport, dport, accepting),
    {
        MuxSocket {
            identifier,
            accepting,
            sport,
            dport,
            state: PortState::Closed,
            seq: 0,
            has_write_half: false,
            has_stream_sender: false,
        }
    }

    /// Somebody is to be told of the outcome of dialling.
    pub fn stream(&mut self)
        ensures
            *final(self) == (MuxSocket { has_stream_sender: true, ..*old(self) }),
    {
        self.has_stream_sender = true;
    }

    /// Asks the peer for the connection, by the frame that is returned.
    pub fn start(&mut self) -> (syn: Frame)
        ensures
            syn@ == FrameView::bare(old(self).sport, old(self).dport, Flag::Syn, 0),
            *final(self) == (MuxSocket { state: PortState::Ack, ..*old(self) }),
    {
        self.state = PortState::Ack;
        Frame::new_init(self.sport, self.dport, Flag::Syn)
    }

    /// Takes the number for a frame.
    fn take_seq(&mut self) -> (seq: u32)
        ensures
            seq == old(self).seq,
            *final(self) == old(self).counted(),
    {
        let seq: u32 = self.seq;
        self.seq = if seq == u32::MAX {
            0
        } else {
            seq + 1
        };
        seq
    }

    /// Takes in a frame of the connection. `listening` says whether a listener is on the frame's
    /// destination port.
    pub fn recv_frame(&mut self, frame: Frame, listening: bool) -> (actions: Vec<Action>)
        ensures
            *final(self) == old(self).received(frame@, listening),
            actions_view(actions@) == old(self).actions(frame@, listening),
    {
        let ghost before = *self;
        let ghost expected = before.actions(frame@, listening);
        let state: PortState = self.state;
        let mut actions: Vec<Action> = Vec::new();
        match frame.flag {
            Flag::Syn => {
                if state == PortState::Closed {
                    let seq: u32 = self.take_seq();
                    actions.push(Action::Send(Frame::new_reply(&frame, Flag::SynAck, seq)));
                    self.state = PortState::SynAck;
                }
            },
            Flag::SynAck | Flag::Ack => {
                if state == PortState::SynAck || state == PortState::Ack {
                    let seq: u32 = self.take_seq();
                    actions.push(Action::Send(Frame::new_reply(&frame, Flag::Ack, seq)));
                    self.state = PortState::Open;
                    if self.accepting {
                        if listening {
                            self.has_write_half = true;
                            actions.push(Action::Accept(frame.dport));
                        }
                    } else if self.has_stream_sender {
                        self.has_write_half = true;
                        actions.push(Action::Connect);
                    }
                }
            },
            Flag::Unset => {
                if state == PortState::Open {
                    if self.has_write_half {
                        actions.push(Action::Write(frame.data));
                    }
                }
            },
            Flag::Fin => {
                if state == PortState::Open {
                    let seq: u32 = self.take_seq();
                    actions.push(Action::Send(Frame::new_reply(&frame, Flag::Fin, seq)));
                    self.state = PortState::Closed;
                    self.has_write_half = false;
                    actions.push(Action::CloseWrite);
                    actions.push(Action::Reset);
                }
            },
            Flag::Rst => {
                if state == PortState::Closed || state == PortState::Ack {
                    if self.has_stream_sender {
                        actions.push(Action::Refuse(Fault::AddrNotAvailable));
                    }
                }
                self.state = PortState::Closed;
                self.has_write_half = false;
                actions.push(Action::CloseWrite);
                actions.push(Action::Reset);
            },
        }
        proof {
            assert(actions_view(actions@) =~= expected);
        }
        actions
    }

    /// Decides for the reader of the socket's stream. `connected` says whether the multiplexor is
    /// up.
    pub fn stream_read(&mut self, event: StreamEvent<'_>, connected: bool) -> (action: StreamAction)
        ensures
            event.ends(connected) ==> {
                &&& action matches StreamAction::Finish(fin) && fin@ == old(self).fin_frame()
                &&& *final(self) == old(self).finished()
            },
            !event.ends(connected) ==> match event {
                StreamEvent::Read(data) => {
                    &&& action matches StreamAction::Send(frame) && frame@ == old(self).data_frame(
                        data@,
                    )
                    &&& *final(self) == old(self).counted()
                },
                _ => action is Await && *final(self) == *old(self),
            },
    {
        match event {
            StreamEvent::Woken { rst } => {
                if !rst && connected {
                    return StreamAction::Await;
                }
            },
            StreamEvent::Read(data) => {
                if data.len() != 0 {
                    let seq: u32 = self.take_seq();
                    return StreamAction::Send(Frame::new_data(self.sport, self.dport, seq, data));
                }
            },
            StreamEvent::Failed => {},
        }
        self.has_write_half = false;
        let seq: u32 = self.take_seq();
        StreamAction::Finish(Frame::new_no_data(self.sport, self.dport, Flag::Fin, seq))
    }
}

} // verus!
