//! The state that the tasks of a multiplexor share, and what each task decides on it.

use std::collections::{HashMap, HashSet};
use std::fmt::{Debug, Formatter};

use vstd::prelude::*;

use crate::action::{actions_view, Action, ActionView};
use crate::config::StreamMultiplexorConfig;
use crate::error::Fault;
use crate::frame::{Flag, Frame, FrameView};
use crate::socket::{MuxSocket, StreamAction, StreamEvent};

verus! {

broadcast use vstd::std_specs::hash::group_hash_axioms;

/// The shared state as a mathematical value. Sockets go by handles, which outlast their place in
/// the table of connections.
#[verifier::ext_equal]
pub struct InnerView {
    pub config: StreamMultiplexorConfig,
    /// Ports may be bound and dialled.
    pub connected: bool,
    /// The stream below works, as far as its reader and its writer know.
    pub watch_connected: bool,
    /// Frames are read and written.
    pub running: bool,
    /// The handle of the connection between a port here and a port at the peer.
    pub connections: Map<(u16, u16), usize>,
    /// The ports that have a listener.
    pub listeners: Set<u16>,
    /// The sockets by their handles.
    pub sockets: Map<usize, MuxSocket>,
}

impl InnerView {
    /// A multiplexor that nothing has happened to.
    pub open spec fn initial(config: StreamMultiplexorConfig, running: bool) -> InnerView {
        InnerView {
            config,
            connected: true,
            watch_connected: true,
            running,
            connections: Map::empty(),
            listeners: Set::empty(),
            sockets: Map::empty(),
        }
    }

    /// What holds of every shared state.
    pub open spec fn well_formed(self) -> bool {
        &&& forall|pair: (u16, u16)| #[trigger]
            self.connections.contains_key(pair) ==> self.holds(pair, self.connections[pair])
        &&& forall|id: usize| #[trigger]
            self.sockets.contains_key(id) ==> {
                &&& self.sockets[id].well_formed()
                &&& self.sockets[id].identifier == self.config.identifier
                &&& self.sockets[id].accepting != self.sockets[id].has_stream_sender
            }
        &&& !self.connected ==> self.connections == Map::<(u16, u16), usize>::empty()
            && self.listeners == Set::<u16>::empty()
    }

    /// `id` is the handle of a socket between these ports.
    pub open spec fn holds(self, pair: (u16, u16), id: usize) -> bool {
        &&& self.sockets.contains_key(id)
        &&& self.sockets[id].sport == pair.0
        &&& self.sockets[id].dport == pair.1
    }

    /// The handle stands in the table of connections.
    pub open spec fn registered(self, id: usize) -> bool {
        exists|pair: (u16, u16)| #[trigger]
            self.connections.contains_key(pair) && self.connections[pair] == id
    }

    /// The handle of the connection between these ports, where there is one.
    pub open spec fn lookup(self, sport: u16, dport: u16) -> Option<usize> {
        if self.connections.contains_key((sport, dport)) {
            Some(self.connections[(sport, dport)])
        } else {
            None
        }
    }

    /// With a socket under a handle and in the table of connections.
    pub open spec fn register(self, id: usize, socket: MuxSocket) -> InnerView {
        InnerView {
            connections: self.connections.insert((socket.sport, socket.dport), id),
            sockets: self.sockets.insert(id, socket),
            ..self
        }
    }

    /// With a socket under a handle.
    pub open spec fn with_socket(self, id: usize, socket: MuxSocket) -> InnerView {
        InnerView { sockets: self.sockets.insert(id, socket), ..self }
    }

    /// Without the connection between these ports.
    pub open spec fn unregister(self, sport: u16, dport: u16) -> InnerView {
        InnerView { connections: self.connections.remove((sport, dport)), ..self }
    }

    /// With the stream below known to be gone.
    pub open spec fn disconnected(self) -> InnerView {
        InnerView { watch_connected: false, ..self }
    }

    /// Out of use: no ports, and none to be had.
    pub open spec fn shut_down(self) -> InnerView {
        InnerView {
            connected: false,
            connections: Map::empty(),
            listeners: Set::empty(),
            ..self
        }
    }

    /// A frame that asks a listener for a connection.
    pub open spec fn vends(self, frame: FrameView) -> bool {
        frame.flag == Flag::Syn && self.listeners.contains(frame.dport)
    }

    /// The handle of the socket that takes in `frame`, with `fresh` for a new one.
    pub open spec fn recipient(self, frame: FrameView, fresh: usize) -> Option<usize> {
        if self.vends(frame) {
            Some(fresh)
        } else {
            self.lookup(frame.dport, frame.sport)
        }
    }

    /// The socket that takes in `frame`, before it does.
    pub open spec fn recipient_socket(self, frame: FrameView) -> MuxSocket {
        if self.vends(frame) {
            MuxSocket::fresh(self.config.identifier, frame.dport, frame.sport, true)
        } else {
            self.sockets[self.connections[(frame.dport, frame.sport)]]
        }
    }

    /// The state after `frame`. One that asks a listener for a connection gets a new socket under
    /// the handle `fresh`; others go to their connection's socket, if there is one.
    pub open spec fn delivered(self, frame: FrameView, fresh: usize) -> InnerView {
        let socket = self.recipient_socket(frame).received(
            frame,
            self.listeners.contains(frame.dport),
        );
        if self.vends(frame) {
            self.register(fresh, socket)
        } else {
            match self.lookup(frame.dport, frame.sport) {
                Some(id) => self.with_socket(id, socket),
                None => self,
            }
        }
    }

    /// What is to be done on `frame`. One that no connection takes in is answered by a refusal,
    /// unless it is one.
    pub open spec fn actions(self, frame: FrameView) -> Seq<ActionView> {
        if self.vends(frame) || self.lookup(frame.dport, frame.sport) is Some {
            self.recipient_socket(frame).actions(frame, self.listeners.contains(frame.dport))
        } else if frame.flag != Flag::Rst {
            seq![ActionView::Send(frame.reply(Flag::Rst, 0))]
        } else {
            seq![]
        }
    }

    /// What is to be done for a socket when the multiplexor goes down.
    pub open spec fn farewell(socket: MuxSocket) -> Seq<ActionView> {
        if socket.has_stream_sender {
            seq![ActionView::Reset, ActionView::Refuse(Fault::BrokenPipe)]
        } else {
            seq![ActionView::Reset]
        }
    }

    /// The list holds what is to be done for each connection, once.
    pub open spec fn farewells(self, list: Seq<Farewell>) -> bool {
        &&& forall|i: int|
            0 <= i < list.len() ==> {
                &&& self.registered((#[trigger] list[i]).socket)
                &&& actions_view(list[i].actions@) == InnerView::farewell(
                    self.sockets[list[i].socket],
                )
            }
        &&& forall|i: int, j: int|
            0 <= i < j < list.len() ==> (#[trigger] list[i]).socket != (#[trigger] list[j]).socket
        &&& forall|id: usize| #[trigger]
            self.registered(id) ==> exists|i: int|
                0 <= i < list.len() && (#[trigger] list[i]).socket == id
    }
}

/// What the task that writes to the stream below has met.
#[derive(Debug)]
pub enum WriterEvent {
    /// It starts, or learns that a signal has changed.
    Woken,
    /// It was waiting for a frame and got one, or all who could send one are gone.
    Dequeued(Option<Frame>),
    /// It has written a frame, or has failed to.
    Written(bool),
}

/// What the task that writes to the stream below does next.
#[derive(Debug)]
pub enum WriterAction {
    /// Wait until the multiplexor runs.
    AwaitRunning,
    /// Wait for a frame, or for the connection signal to change.
    AwaitFrame,
    /// Write this frame.
    Write(Frame),
    /// Stop.
    Stop,
}

/// What the task that reads from the stream below has met.
#[derive(Debug)]
pub enum ReaderEvent {
    /// It starts, goes on after a frame, or learns that a signal has changed.
    Woken,
    /// It was waiting for a frame and got one, or an error, or the end of the stream.
    Received(Option<Result<Frame, Fault>>),
}

/// What the task that reads from the stream below does next.
#[derive(Debug)]
pub enum ReaderAction {
    /// Wait until the multiplexor runs.
    AwaitRunning,
    /// Wait for a frame, or for the connection signal to change.
    AwaitFrame,
    /// Do what a frame calls for, and go on.
    Deliver(Delivery),
    /// Stop.
    Stop,
}

/// What a frame calls for.
#[derive(Debug)]
pub struct Delivery {
    /// The socket that has taken the frame in, if one has.
    pub socket: Option<usize>,
    /// The socket that had its place in the table of connections before, if another had.
    pub displaced: Option<usize>,
    pub actions: Vec<Action>,
}

/// What the task that watches over the multiplexor has met.
#[derive(Copy, Clone, Debug)]
pub enum StateEvent {
    /// It starts.
    Started,
    /// The connection signal has changed, or (`closed`) can no longer change.
    Changed { closed: bool },
    /// The connection between these ports may be freed.
    MayCloseConnection { sport: u16, dport: u16 },
    /// The listener on this port may be freed.
    MayCloseListener { port: u16 },
}

/// What the task that watches over the multiplexor does next.
#[derive(Debug)]
pub enum StateAction {
    /// Wait on; this socket, if there is one, has lost its place in the table of connections.
    Await(Option<usize>),
    /// Do this for each connection, and stop.
    Shutdown(Vec<Farewell>),
}

/// What is to be done for a socket when the multiplexor goes down.
#[derive(Debug)]
pub struct Farewell {
    pub socket: usize,
    pub actions: Vec<Action>,
}

/// The outcome of a step of a stream's reader.
#[derive(Debug)]
pub struct Reading {
    pub action: StreamAction,
    /// The socket that has lost its place in the table of connections, if one has.
    pub freed: Option<usize>,
}

impl StateEvent {
    /// The event takes the multiplexor down.
    pub open spec fn ends(self, watch_connected: bool) -> bool {
        match self {
            StateEvent::Started => !watch_connected,
            StateEvent::Changed { closed } => !watch_connected || closed,
            _ => false,
        }
    }
}

/// A pair of ports as one number.
pub open spec fn pair_key(pair: (u16, u16)) -> u32 {
    (pair.0 * 0x1_0000 + pair.1) as u32
}

/// A table that goes by such numbers, as one that goes by the pairs.
pub open spec fn by_pair(table: Map<u32, usize>) -> Map<(u16, u16), usize> {
    Map::new(
        |pair: (u16, u16)| table.contains_key(pair_key(pair)),
        |pair: (u16, u16)| table[pair_key(pair)],
    )
}

/// A row of slots as a map from the places that are taken.
pub open spec fn by_slot(slots: Seq<Option<MuxSocket>>) -> Map<usize, MuxSocket> {
    Map::new(
        |id: usize| id < slots.len() && slots[id as int] is Some,
        |id: usize| slots[id as int]->0,
    )
}

proof fn lemma_pair_key_injective(p: (u16, u16), q: (u16, u16))
    requires
        pair_key(p) == pair_key(q),
    ensures
        p == q,
{
}

proof fn lemma_by_pair_insert(table: Map<u32, usize>, pair: (u16, u16), id: usize)
    ensures
        by_pair(table.insert(pair_key(pair), id)) == by_pair(table).insert(pair, id),
{
    assert forall|q: (u16, u16)| pair_key(q) == pair_key(pair) implies q == pair by {
        lemma_pair_key_injective(q, pair);
    }
    assert(by_pair(table.insert(pair_key(pair), id)) =~= by_pair(table).insert(pair, id));
}

proof fn lemma_by_pair_remove(table: Map<u32, usize>, pair: (u16, u16))
    ensures
        by_pair(table.remove(pair_key(pair))) == by_pair(table).remove(pair),
{
    assert forall|q: (u16, u16)| pair_key(q) == pair_key(pair) implies q == pair by {
        lemma_pair_key_injective(q, pair);
    }
    assert(by_pair(table.remove(pair_key(pair))) =~= by_pair(table).remove(pair));
}

proof fn lemma_by_slot_set(slots: Seq<Option<MuxSocket>>, id: usize, socket: MuxSocket)
    requires
        id < slots.len(),
    ensures
        by_slot(slots.update(id as int, Some(socket))) == by_slot(slots).insert(id, socket),
{
    assert(by_slot(slots.update(id as int, Some(socket))) =~= by_slot(slots).insert(id, socket));
}

/// The state that the tasks of a multiplexor share.
pub struct StreamMultiplexorInner {
    config: StreamMultiplexorConfig,
    connected: bool,
    watch_connected: bool,
    running: bool,
    port_connections: HashMap<u32, usize>,
    port_listeners: HashSet<u16>,
    sockets: Vec<Option<MuxSocket>>,
}

impl Debug for StreamMultiplexorInner {
    fn fmt(&self, f: &mut Formatter<'_>) -> (result: std::fmt::Result) {
        f.debug_struct("StreamMultiplexorInner").field("id", &self.config.identifier).field(
            "connected",
            &self.connected,
        ).finish()
    }
}

impl View for StreamMultiplexorInner {
    type V = InnerView;

    closed spec fn view(&self) -> InnerView {
        InnerView {
            config: self.config,
            connected: self.connected,
            watch_connected: self.watch_connected,
            running: self.running,
            connections: by_pair(self.port_connections@),
            listeners: self.port_listeners@,
            sockets: by_slot(self.sockets@),
        }
    }
}

impl StreamMultiplexorInner {
    /// A state without ports, up, and running or not.
    pub fn new(config: StreamMultiplexorConfig, running: bool) -> (inner: Self)
        ensures
            inner@.well_formed(),
            inner@ == InnerView::initial(config, running),
    {
        let inner = StreamMultiplexorInner {
            config,
            connected: true,
            watch_connected: true,
            running,
            port_connections: HashMap::new(),
            port_listeners: HashSet::new(),
            sockets: Vec::new(),
        };
        proof {
            assert(inner@.connections =~= Map::empty());
            assert(inner@.listeners =~= Set::empty());
            assert(inner@.sockets =~= Map::empty());
        }
        inner
    }

    /// The number for a pair of ports.
    fn key(sport: u16, dport: u16) -> (key: u32)
        ensures
            key == pair_key((sport, dport)),
    {
        sport as u32 * 0x1_0000 + dport as u32
    }

    /// The configuration.
    pub fn config(&self) -> (config: StreamMultiplexorConfig)
        ensures
            config == self@.config,
    {
        self.config
    }

    /// Whether ports may be bound and dialled.
    pub fn is_connected(&self) -> (connected: bool)
        ensures
            connected == self@.connected,
    {
        self.connected
    }

    /// Whether the stream below works, as far as is known.
    pub fn is_watch_connected(&self) -> (connected: bool)
        ensures
            connected == self@.watch_connected,
    {
        self.watch_connected
    }

    /// Whether frames are read and written.
    pub fn is_running(&self) -> (running: bool)
        ensures
            running == self@.running,
    {
        self.running
    }

    /// Whether the port has a listener.
    pub fn is_listening(&self, port: u16) -> (listening: bool)
        ensures
            listening == self@.listeners.contains(port),
    {
        self.port_listeners.contains(&port)
    }

    /// The handle of the connection between these ports, where there is one.
    pub fn connection(&self, sport: u16, dport: u16) -> (id: Option<usize>)
        ensures
            id == self@.lookup(sport, dport),
    {
        match self.port_connections.get(&Self::key(sport, dport)) {
            Some(id) => Some(*id),
            None => None,
        }
    }

    /// The socket under a handle, where there is one.
    pub fn socket(&self, id: usize) -> (socket: Option<MuxSocket>)
        ensures
            socket == (if self@.sockets.contains_key(id) {
                Some(self@.sockets[id])
            } else {
                None
            }),
    {
        if id < self.sockets.len() {
            self.sockets[id]
        } else {
            None
        }
    }
}

/// What a running task waits for: leave to run, or a frame, or nothing any more.
pub enum Gate {
    NotRunning,
    Down,
    Up,
}

impl InnerView {
    /// Where a task stands that has nothing in hand.
    pub open spec fn gate(self) -> Gate {
        if !self.running {
            Gate::NotRunning
        } else if !self.watch_connected {
            Gate::Down
        } else {
            Gate::Up
        }
    }
}

impl StreamMultiplexorInner {
    /// The slot of a socket is given its new value, which is a socket between the same ports.
    fn set_socket(&mut self, id: usize, socket: MuxSocket)
        requires
            old(self)@.well_formed(),
            old(self)@.holds((socket.sport, socket.dport), id),
            socket.well_formed(),
            socket.identifier == old(self)@.config.identifier,
            socket.accepting != socket.has_stream_sender,
        ensures
            final(self)@.well_formed(),
            final(self)@ == old(self)@.with_socket(id, socket),
    {
        proof {
            lemma_by_slot_set(self.sockets@, id, socket);
        }
        self.sockets.set(id, Some(socket));
        proof {
            old(self)@.lemma_still_held(self@);
        }
    }

    /// A socket is given a handle that no other has.
    fn store_socket(&mut self, socket: MuxSocket) -> (id: usize)
        ensures
            !old(self)@.sockets.contains_key(id),
            final(self)@ == old(self)@.with_socket(id, socket),
    {
        let mut id: usize = 0;
        while id < self.sockets.len()
            invariant
                id <= self.sockets@.len(),
                *self == *old(self),
            decreases self.sockets@.len() - id,
        {
            if self.sockets[id].is_none() {
                proof {
                    lemma_by_slot_set(self.sockets@, id, socket);
                }
                self.sockets.set(id, Some(socket));
                return id;
            }
            id = id + 1;
        }
        self.sockets.push(Some(socket));
        proof {
            assert(by_slot(self.sockets@) =~= by_slot(old(self).sockets@).insert(id, socket));
        }
        id
    }

    /// A socket is given a handle, and a place in the table of connections. Another that had the
    /// place loses it, and is named.
    pub(crate) fn register(&mut self, socket: MuxSocket) -> (result: (usize, Option<usize>))
        requires
            old(self)@.well_formed(),
            old(self)@.connected,
            socket.well_formed(),
            socket.identifier == old(self)@.config.identifier,
            socket.accepting != socket.has_stream_sender,
        ensures
            final(self)@.well_formed(),
            !old(self)@.sockets.contains_key(result.0),
            final(self)@ == old(self)@.register(result.0, socket),
            result.1 == old(self)@.lookup(socket.sport, socket.dport),
    {
        let id: usize = self.store_socket(socket);
        proof {
            lemma_by_pair_insert(self.port_connections@, (socket.sport, socket.dport), id);
        }
        let displaced: Option<usize> = self.port_connections.insert(
            Self::key(socket.sport, socket.dport),
            id,
        );
        (id, displaced)
    }

    /// A socket that nothing refers to any more is let go of; one in the table of connections
    /// stays.
    pub fn release(&mut self, id: usize)
        requires
            old(self)@.well_formed(),
        ensures
            final(self)@.well_formed(),
            final(self)@ == (if old(self)@.registered(id) {
                old(self)@
            } else {
                InnerView { sockets: old(self)@.sockets.remove(id), ..old(self)@ }
            }),
    {
        match self.socket(id) {
            Some(socket) => {
                if self.connection(socket.sport, socket.dport) == Some(id) {
                    proof {
                        assert(self@.connections.contains_key((socket.sport, socket.dport)));
                    }
                    return;
                }
                proof {
                    self@.lemma_unregistered(id);
                }
                self.sockets.set(id, None);
                proof {
                    assert(by_slot(self.sockets@) =~= by_slot(old(self).sockets@).remove(id));
                    old(self)@.lemma_still_held(self@);
                }
            },
            None => {
                proof {
                    self@.lemma_unregistered(id);
                    assert(self@.sockets =~= self@.sockets.remove(id));
                }
            },
        }
    }

    /// Frames are read and written from now on.
    pub(crate) fn run(&mut self)
        requires
            old(self)@.well_formed(),
        ensures
            final(self)@.well_formed(),
            final(self)@ == (InnerView { running: true, ..old(self)@ }),
    {
        self.running = true;
    }

    /// The port has a listener from now on.
    pub(crate) fn listen(&mut self, port: u16)
        requires
            old(self)@.well_formed(),
            old(self)@.connected,
        ensures
            final(self)@.well_formed(),
            final(self)@ == (InnerView {
                listeners: old(self)@.listeners.insert(port),
                ..old(self)@
            }),
    {
        self.port_listeners.insert(port);
    }

    /// The stream below is known to be gone.
    pub fn disconnect(&mut self)
        requires
            old(self)@.well_formed(),
        ensures
            final(self)@.well_formed(),
            final(self)@ == old(self)@.disconnected(),
    {
        self.watch_connected = false;
    }

    /// Decides for the task that writes queued frames to the stream below.
    pub fn framed_writer_sender(&mut self, event: WriterEvent) -> (action: WriterAction)
        requires
            old(self)@.well_formed(),
        ensures
            final(self)@.well_formed(),
            match event {
                WriterEvent::Dequeued(Some(frame)) => {
                    &&& action matches WriterAction::Write(f) && f == frame
                    &&& final(self)@ == old(self)@
                },
                WriterEvent::Dequeued(None) | WriterEvent::Written(false) => {
                    &&& action is Stop
                    &&& final(self)@ == old(self)@.disconnected()
                },
                WriterEvent::Woken | WriterEvent::Written(true) => {
                    &&& match old(self)@.gate() {
                        Gate::NotRunning => action is AwaitRunning,
                        Gate::Down => action is Stop,
                        Gate::Up => action is AwaitFrame,
                    }
                    &&& final(self)@ == old(self)@
                },
            },
    {
        match event {
            WriterEvent::Dequeued(Some(frame)) => {
                return WriterAction::Write(frame);
            },
            WriterEvent::Dequeued(None) | WriterEvent::Written(false) => {
                self.disconnect();
                return WriterAction::Stop;
            },
            WriterEvent::Woken | WriterEvent::Written(true) => {},
        }
        if !self.running {
            WriterAction::AwaitRunning
        } else if !self.watch_connected {
            WriterAction::Stop
        } else {
            WriterAction::AwaitFrame
        }
    }

    /// Decides for the task that reads frames from the stream below.
    pub fn framed_reader_sender(&mut self, event: ReaderEvent) -> (action: ReaderAction)
        requires
            old(self)@.well_formed(),
        ensures
            final(self)@.well_formed(),
            match event {
                ReaderEvent::Received(Some(Ok(frame))) => {
                    &&& action matches ReaderAction::Deliver(delivery) && old(self)@.delivers(
                        frame@,
                        delivery,
                        final(self)@,
                    )
                },
                ReaderEvent::Received(_) => {
                    &&& action is Stop
                    &&& final(self)@ == old(self)@.disconnected()
                },
                ReaderEvent::Woken => {
                    &&& match old(self)@.gate() {
                        Gate::NotRunning => action is AwaitRunning,
                        Gate::Down => action is Stop,
                        Gate::Up => action is AwaitFrame,
                    }
                    &&& final(self)@ == old(self)@
                },
            },
    {
        match event {
            ReaderEvent::Received(Some(Ok(frame))) => ReaderAction::Deliver(self.deliver(frame)),
            ReaderEvent::Received(_) => {
                self.disconnect();
                ReaderAction::Stop
            },
            ReaderEvent::Woken => if !self.running {
                ReaderAction::AwaitRunning
            } else if !self.watch_connected {
                ReaderAction::Stop
            } else {
                ReaderAction::AwaitFrame
            },
        }
    }

    /// Takes in a frame from the peer.
    fn deliver(&mut self, frame: Frame) -> (delivery: Delivery)
        requires
            old(self)@.well_formed(),
        ensures
            final(self)@.well_formed(),
            old(self)@.delivers(frame@, delivery, final(self)@),
    {
        let ghost before = self@;
        let listening: bool = self.is_listening(frame.dport);
        if frame.flag == Flag::Syn && listening {
            let mut socket: MuxSocket = MuxSocket::new(
                self.config.identifier,
                frame.dport,
                frame.sport,
                true,
            );
            let actions: Vec<Action> = socket.recv_frame(frame, true);
            let (id, displaced) = self.register(socket);
            return Delivery { socket: Some(id), displaced, actions };
        }
        match self.connection(frame.dport, frame.sport) {
            Some(id) => {
                proof {
                    assert(self@.holds((frame.dport, frame.sport), id));
                }
                match self.socket(id) {
                    Some(mut socket) => {
                        let actions: Vec<Action> = socket.recv_frame(frame, listening);
                        self.set_socket(id, socket);
                        Delivery { socket: Some(id), displaced: None, actions }
                    },
                    None => Delivery { socket: None, displaced: None, actions: Vec::new() },
                }
            },
            None => {
                let mut actions: Vec<Action> = Vec::new();
                if frame.flag != Flag::Rst {
                    actions.push(Action::Send(Frame::new_reply(&frame, Flag::Rst, 0)));
                }
                proof {
                    assert(actions_view(actions@) =~= before.actions(frame@));
                }
                Delivery { socket: None, displaced: None, actions }
            },
        }
    }

    /// Decides for the reader of a socket's stream. When the reader stops, the connection between
    /// its ports loses its place in the table.
    pub fn stream_read(&mut self, id: usize, event: StreamEvent<'_>) -> (reading: Reading)
        requires
            old(self)@.well_formed(),
            old(self)@.sockets.contains_key(id),
        ensures
            final(self)@.well_formed(),
            old(self)@.reads(id, event, reading, final(self)@),
    {
        let ghost before = self@;
        let connected: bool = self.watch_connected;
        match self.socket(id) {
            Some(mut socket) => {
                let action: StreamAction = socket.stream_read(event, connected);
                self.set_socket(id, socket);
                proof {
                    if action is Await {
                        assert(self@.sockets =~= before.sockets);
                    }
                }
                let freed: Option<usize> = match action {
                    StreamAction::Finish(_) => self.process_may_close_connections_once(
                        socket.sport,
                        socket.dport,
                    ),
                    _ => None,
                };
                Reading { action, freed }
            },
            None => Reading { action: StreamAction::Await, freed: None },
        }
    }

    /// Frees the connection between these ports. Its socket is named.
    pub fn process_may_close_connections_once(&mut self, sport: u16, dport: u16) -> (freed: Option<
        usize,
    >)
        requires
            old(self)@.well_formed(),
        ensures
            final(self)@.well_formed(),
            final(self)@ == old(self)@.unregister(sport, dport),
            freed == old(self)@.lookup(sport, dport),
    {
        proof {
            lemma_by_pair_remove(self.port_connections@, (sport, dport));
        }
        let freed: Option<usize> = self.port_connections.remove(&Self::key(sport, dport));
        proof {
            assert(!self@.connected ==> self@.connections =~= Map::empty());
        }
        freed
    }

    /// Frees a port whose listener is gone. Connections that the listener has vended stay.
    pub fn process_may_close_listeners_once(&mut self, port: u16)
        requires
            old(self)@.well_formed(),
        ensures
            final(self)@.well_formed(),
            final(self)@ == (InnerView {
                listeners: old(self)@.listeners.remove(port),
                ..old(self)@
            }),
    {
        self.port_listeners.remove(&port);
        proof {
            assert(!self@.connected ==> self@.listeners =~= Set::empty());
        }
    }

    /// Decides for the task that watches over the multiplexor: it frees ports while the stream
    /// below works, and breaks everything off once it does not.
    pub fn handle_mux_state_change(&mut self, event: StateEvent) -> (action: StateAction)
        requires
            old(self)@.well_formed(),
        ensures
            final(self)@.well_formed(),
            event.ends(old(self)@.watch_connected) ==> {
                &&& action matches StateAction::Shutdown(list) && old(self)@.farewells(list@)
                &&& final(self)@ == old(self)@.shut_down()
            },
            !event.ends(old(self)@.watch_connected) ==> match event {
                StateEvent::MayCloseConnection { sport, dport } => {
                    &&& action == StateAction::Await(old(self)@.lookup(sport, dport))
                    &&& final(self)@ == old(self)@.unregister(sport, dport)
                },
                StateEvent::MayCloseListener { port } => {
                    &&& action == StateAction::Await(None)
                    &&& final(self)@ == (InnerView {
                        listeners: old(self)@.listeners.remove(port),
                        ..old(self)@
                    })
                },
                _ => {
                    &&& action == StateAction::Await(None)
                    &&& final(self)@ == old(self)@
                },
            },
    {
        match event {
            StateEvent::Started => {
                if self.watch_connected {
                    return StateAction::Await(None);
                }
            },
            StateEvent::Changed { closed } => {
                if self.watch_connected && !closed {
                    return StateAction::Await(None);
                }
            },
            StateEvent::MayCloseConnection { sport, dport } => {
                let freed: Option<usize> = self.process_may_close_connections_once(sport, dport);
                return StateAction::Await(freed);
            },
            StateEvent::MayCloseListener { port } => {
                self.process_may_close_listeners_once(port);
                return StateAction::Await(None);
            },
        }
        let list: Vec<Farewell> = self.say_farewell();
        self.connected = false;
        self.port_connections.clear();
        self.port_listeners.clear();
        proof {
            assert(self@.connections =~= Map::empty());
            assert(self@.listeners =~= Set::empty());
        }
        StateAction::Shutdown(list)
    }

    /// What is to be done for each connection when the multiplexor goes down.
    fn say_farewell(&self) -> (list: Vec<Farewell>)
        requires
            self@.well_formed(),
        ensures
            self@.farewells(list@),
    {
        let mut list: Vec<Farewell> = Vec::new();
        let mut id: usize = 0;
        while id < self.sockets.len()
            invariant
                self@.well_formed(),
                id <= self.sockets@.len(),
                forall|i: int|
                    0 <= i < list@.len() ==> {
                        &&& (#[trigger] list@[i]).socket < id
                        &&& self@.registered(list@[i].socket)
                        &&& actions_view(list@[i].actions@) == InnerView::farewell(
                            self@.sockets[list@[i].socket],
                        )
                    },
                forall|i: int, j: int|
                    0 <= i < j < list@.len() ==> (#[trigger] list@[i]).socket != (
                    #[trigger] list@[j]).socket,
                forall|known: usize|
                    known < id && #[trigger] self@.registered(known) ==> exists|i: int|
                        0 <= i < list@.len() && (#[trigger] list@[i]).socket == known,
            decreases self.sockets@.len() - id,
        {
            let ghost before = list@;
            match self.socket(id) {
                Some(socket) => {
                    if self.connection(socket.sport, socket.dport) == Some(id) {
                        proof {
                            assert(self@.connections.contains_key((socket.sport, socket.dport)));
                            assert(self@.registered(id));
                        }
                        let mut actions: Vec<Action> = Vec::new();
                        actions.push(Action::Reset);
                        if socket.has_stream_sender {
                            actions.push(Action::Refuse(Fault::BrokenPipe));
                        }
                        proof {
                            assert(actions_view(actions@) =~= InnerView::farewell(socket));
                        }
                        list.push(Farewell { socket: id, actions });
                        proof {
                            assert(list@[before.len() as int].socket == id);
                            assert forall|known: usize|
                                known < id + 1 && #[trigger] self@.registered(
                                    known,
                                ) implies exists|i: int|
                                0 <= i < list@.len() && (#[trigger] list@[i]).socket == known by {
                                if known < id {
                                    let i = choose|i: int|
                                        0 <= i < before.len() && (#[trigger] before[i]).socket
                                            == known;
                                    assert(list@[i].socket == known);
                                }
                            }
                        }
                    } else {
                        proof {
                            self@.lemma_unregistered(id);
                        }
                    }
                },
                None => {
                    proof {
                        self@.lemma_unregistered(id);
                    }
                },
            }
            id = id + 1;
        }
        proof {
            assert forall|known: usize| #[trigger] self@.registered(known) implies exists|i: int|
                0 <= i < list@.len() && (#[trigger] list@[i]).socket == known by {
                let pair = choose|pair: (u16, u16)| #[trigger]
                    self@.connections.contains_key(pair) && self@.connections[pair] == known;
                assert(self@.holds(pair, known));
            }
        }
        list
    }
}

impl InnerView {
    /// `frame` has led to this delivery and this state.
    pub open spec fn delivers(self, frame: FrameView, delivery: Delivery, after: InnerView) -> bool {
        let fresh = delivery.socket->0;
        &&& delivery.socket == self.recipient(frame, fresh)
        &&& self.vends(frame) ==> !self.sockets.contains_key(fresh)
        &&& delivery.displaced == (if self.vends(frame) {
            self.lookup(frame.dport, frame.sport)
        } else {
            None
        })
        &&& actions_view(delivery.actions@) == self.actions(frame)
        &&& after == self.delivered(frame, fresh)
    }

    /// An event at the reader of the socket `id` has led to this outcome and this state.
    pub open spec fn reads(
        self,
        id: usize,
        event: StreamEvent<'_>,
        reading: Reading,
        after: InnerView,
    ) -> bool {
        let socket = self.sockets[id];
        if event.ends(self.watch_connected) {
            &&& reading.action matches StreamAction::Finish(fin) && fin@ == socket.fin_frame()
            &&& reading.freed == self.lookup(socket.sport, socket.dport)
            &&& after == self.with_socket(id, socket.finished()).unregister(
                socket.sport,
                socket.dport,
            )
        } else {
            &&& reading.freed is None
            &&& match event {
                StreamEvent::Read(data) => {
                    &&& reading.action matches StreamAction::Send(frame) && frame@
                        == socket.data_frame(data@)
                    &&& after == self.with_socket(id, socket.counted())
                },
                _ => reading.action is Await && after == self,
            }
        }
    }

    /// As long as the sockets in the table of connections keep their ports, the table leads to
    /// sockets with the right ports.
    proof fn lemma_still_held(self, after: InnerView)
        requires
            self.well_formed(),
            after.connections == self.connections,
            forall|id: usize| #[trigger]
                self.registered(id) ==> after.holds(
                    (self.sockets[id].sport, self.sockets[id].dport),
                    id,
                ),
        ensures
            forall|pair: (u16, u16)| #[trigger]
                after.connections.contains_key(pair) ==> after.holds(pair, after.connections[pair]),
    {
        assert forall|pair: (u16, u16)| #[trigger]
            after.connections.contains_key(pair) implies after.holds(
            pair,
            after.connections[pair],
        ) by {
            assert(self.holds(pair, self.connections[pair]));
            assert(self.registered(self.connections[pair]));
        }
    }

    /// A handle is in the table only under its own socket's ports.
    proof fn lemma_unregistered(self, id: usize)
        requires
            self.well_formed(),
            self.sockets.contains_key(id) ==> self.lookup(
                self.sockets[id].sport,
                self.sockets[id].dport,
            ) != Some(id),
        ensures
            !self.registered(id),
    {
        if self.registered(id) {
            let pair = choose|pair: (u16, u16)| #[trigger]
                self.connections.contains_key(pair) && self.connections[pair] == id;
            assert(self.holds(pair, id));
        }
    }
}

} // verus!
