use std::collections::{HashMap, VecDeque};

use bytes::{Buf, BytesMut};
use stream_multiplexor::{
    Action, Dial, Fault, Flag, Frame, FrameDecoder, FrameEncoder, MuxListener, PortState,
    ReaderAction, ReaderEvent, StateAction, StateEvent, StreamAction, StreamEvent,
    StreamMultiplexor, StreamMultiplexorConfig, WriterAction, WriterEvent,
};

/// The stream of one connection, as its user sees it.
struct Stream {
    /// What has been written to it from the other end.
    inbox: Vec<u8>,
    write_half: bool,
    reader: bool,
    rst: bool,
}

/// A multiplexor with a driver that does everything at once.
struct Node {
    mux: StreamMultiplexor,
    encoder: FrameEncoder,
    decoder: FrameDecoder,
    queue: VecDeque<Frame>,
    outgoing: BytesMut,
    incoming: BytesMut,
    streams: HashMap<usize, Stream>,
    accepted: HashMap<u16, VecDeque<usize>>,
    outcomes: HashMap<usize, Result<(), Fault>>,
}

impl Node {
    fn over(mux: StreamMultiplexor) -> Node {
        let config = mux.inner.config();
        Node {
            mux,
            encoder: FrameEncoder::new(config),
            decoder: FrameDecoder::new(config),
            queue: VecDeque::new(),
            outgoing: BytesMut::new(),
            incoming: BytesMut::new(),
            streams: HashMap::new(),
            accepted: HashMap::new(),
            outcomes: HashMap::new(),
        }
    }

    fn new(identifier: &'static str) -> Node {
        Node::over(StreamMultiplexor::new(
            StreamMultiplexorConfig::default().with_identifier(identifier),
        ))
    }

    fn new_paused(identifier: &'static str) -> Node {
        Node::over(StreamMultiplexor::new_paused(
            StreamMultiplexorConfig::default().with_identifier(identifier),
        ))
    }

    fn connect(&mut self, port: u16) -> Result<Dial, Fault> {
        self.mux.connect(port).map(|dial| {
            self.queue.push_back(Frame::new_no_data(
                dial.syn.sport,
                dial.syn.dport,
                dial.syn.flag,
                dial.syn.seq,
            ));
            dial
        })
    }

    fn accept(&mut self, listener: &MuxListener) -> Option<usize> {
        self.accepted.get_mut(&listener.port())?.pop_front()
    }

    fn outcome(&mut self, dial: &Dial) -> Option<Result<(), Fault>> {
        self.outcomes.remove(&dial.socket)
    }

    fn open(&mut self, id: usize) {
        self.streams.insert(
            id,
            Stream {
                inbox: vec![],
                write_half: true,
                reader: true,
                rst: false,
            },
        );
    }

    fn perform(&mut self, socket: Option<usize>, actions: Vec<Action>) {
        for action in actions {
            match action {
                Action::Send(frame) => self.queue.push_back(frame),
                Action::Accept(port) => {
                    self.open(socket.unwrap());
                    self.accepted.entry(port).or_default().push_back(socket.unwrap());
                }
                Action::Connect => {
                    self.open(socket.unwrap());
                    self.outcomes.insert(socket.unwrap(), Ok(()));
                }
                Action::Refuse(fault) => {
                    self.outcomes.insert(socket.unwrap(), Err(fault));
                }
                Action::Write(data) => {
                    let stream = self.streams.get_mut(&socket.unwrap()).unwrap();
                    assert!(stream.write_half);
                    stream.inbox.extend_from_slice(&data);
                }
                Action::CloseWrite => {
                    if let Some(stream) = self.streams.get_mut(&socket.unwrap()) {
                        stream.write_half = false;
                    }
                }
                Action::Reset => {
                    if let Some(stream) = self.streams.get_mut(&socket.unwrap()) {
                        stream.rst = stream.rst || stream.reader;
                    }
                }
            }
        }
    }

    /// The stream of a connection, as its reader meets it.
    fn stream_event(&mut self, id: usize, event: StreamEvent<'_>) {
        match self.mux.inner.stream_read(id, event).action {
            StreamAction::Await => {}
            StreamAction::Send(frame) => self.queue.push_back(frame),
            StreamAction::Finish(frame) => {
                let stream = self.streams.get_mut(&id).unwrap();
                stream.reader = false;
                stream.write_half = false;
                self.queue.push_back(frame);
            }
        }
    }

    /// The user of a stream writes to it.
    fn write_all(&mut self, id: usize, data: &[u8]) -> Result<(), ()> {
        let stream = &self.streams[&id];
        if !stream.reader && !stream.write_half {
            return Err(());
        }
        self.stream_event(id, StreamEvent::Read(data));
        Ok(())
    }

    /// The user of a stream drops it.
    fn drop_stream(&mut self, id: usize) {
        self.stream_event(id, StreamEvent::Read(&[]));
    }

    fn run_readers(&mut self) {
        let mut ids: Vec<(usize, bool)> = self
            .streams
            .iter()
            .filter(|(_, stream)| stream.reader)
            .map(|(id, stream)| (*id, stream.rst))
            .collect();
        ids.sort();
        for (id, rst) in ids {
            self.stream_event(id, StreamEvent::Woken { rst });
        }
    }

    fn run_writer(&mut self) {
        let mut action = self.mux.inner.framed_writer_sender(WriterEvent::Woken);
        loop {
            action = match action {
                WriterAction::AwaitFrame if !self.queue.is_empty() => {
                    let event = WriterEvent::Dequeued(self.queue.pop_front());
                    self.mux.inner.framed_writer_sender(event)
                }
                WriterAction::Write(frame) => {
                    let written = self.encoder.encode(frame, &mut self.outgoing).is_ok();
                    self.mux.inner.framed_writer_sender(WriterEvent::Written(written))
                }
                _ => return,
            };
        }
    }

    fn run_reader(&mut self) {
        loop {
            match self.mux.inner.framed_reader_sender(ReaderEvent::Woken) {
                ReaderAction::AwaitFrame => {}
                _ => return,
            }
            assert!(self.decoder.can_hold(&self.incoming));
            let frame = match self.decoder.decode(&mut self.incoming) {
                Ok(None) => return,
                Ok(Some(frame)) => Ok(frame),
                Err(error) => Err(error.fault),
            };
            let event = ReaderEvent::Received(Some(frame));
            match self.mux.inner.framed_reader_sender(event) {
                ReaderAction::Deliver(delivery) => {
                    self.perform(delivery.socket, delivery.actions)
                }
                ReaderAction::Stop => return,
                other => panic!("{:?}", other),
            }
        }
    }

    /// The stream below comes to an end.
    fn lose_stream(&mut self) {
        assert!(matches!(
            self.mux.inner.framed_reader_sender(ReaderEvent::Received(None)),
            ReaderAction::Stop
        ));
        match self
            .mux
            .inner
            .handle_mux_state_change(StateEvent::Changed { closed: false })
        {
            StateAction::Shutdown(list) => {
                for farewell in list {
                    self.perform(Some(farewell.socket), farewell.actions);
                }
            }
            other => panic!("{:?}", other),
        }
        self.run_readers();
    }
}

/// Moves at most ten bytes.
fn carry(from: &mut Node, to: &mut Node) -> bool {
    let count = from.outgoing.len().min(10);
    to.incoming.extend_from_slice(&from.outgoing[..count]);
    from.outgoing.advance(count);
    to.run_reader();
    count > 0
}

/// Lets both ends run until nothing moves any more.
fn settle(a: &mut Node, b: &mut Node) {
    loop {
        a.run_readers();
        b.run_readers();
        a.run_writer();
        b.run_writer();
        let moved = carry(a, b);
        if !carry(b, a) && !moved && a.outgoing.is_empty() && b.outgoing.is_empty() {
            return;
        }
    }
}

/// A pair of nodes with a connection between them: the node that dialled, the other, and the
/// handles of the streams.
fn connected() -> (Node, Node, usize, usize) {
    let mut a = Node::new("sm_a");
    let mut b = Node::new("sm_b");
    let listener = b.mux.bind(22).unwrap();
    let dial = a.connect(22).unwrap();
    settle(&mut a, &mut b);
    assert_eq!(a.outcome(&dial), Some(Ok(())));
    let id = b.accept(&listener).unwrap();
    (a, b, dial.socket, id)
}

fn random_bytes(len: usize) -> Vec<u8> {
    (0..len).map(|_| rand::random::<u8>()).collect()
}

#[test]
fn connect_no_listen_fails() {
    let mut a = Node::new("sm_a");
    let mut b = Node::new("sm_b");
    let dial = a.connect(22).unwrap();
    settle(&mut a, &mut b);
    let outcome = a.outcome(&dial);
    assert_eq!(outcome, Some(Err(Fault::AddrNotAvailable)));
    assert!(matches!(Dial::outcome(outcome), Err(_)));
}

#[test]
fn connect_listen_succeeds() {
    let mut a = Node::new("sm_a");
    let mut b = Node::new("sm_b");
    let listener = b.mux.bind(22).unwrap();
    let dial = a.connect(22).unwrap();
    settle(&mut a, &mut b);
    let outcome = a.outcome(&dial);
    assert!(matches!(Dial::outcome(outcome), Ok(_)));
    let accepted = b.accept(&listener);
    assert!(listener.accept(accepted.ok_or(())).is_ok());
}

#[test]
fn dropped_connection_rsts() {
    let (mut a, mut b, a_id, b_id) = connected();
    b.drop_stream(b_id);
    settle(&mut a, &mut b);
    let res = a.write_all(a_id, &[0u8; 1024]);
    assert!(matches!(res, Err(_)));
    let sport = a.mux.inner.socket(a_id).unwrap().sport;
    assert_eq!(a.mux.inner.connection(sport, 22), None);
    assert_eq!(b.mux.inner.connection(22, sport), None);
}

#[test]
fn connected_stream_passes_data() {
    let input_bytes = random_bytes(1024 * 1024);
    let (mut a, mut b, a_id, b_id) = connected();
    let mut i = 0;
    while i < input_bytes.len() {
        let res = b.write_all(b_id, &input_bytes[i..i + 1024]);
        assert!(matches!(res, Ok(..)));
        i += 1024;
    }
    settle(&mut a, &mut b);
    assert!(input_bytes == a.streams[&a_id].inbox);
}

#[test]
fn wrapped_stream_disconnect() {
    let mut a = Node::new("sm_a");
    a.lose_stream();
    assert!(matches!(a.mux.connect(1024), Err(Fault::ConnectionReset)));
    assert!(matches!(a.mux.bind(1024), Err(Fault::ConnectionReset)));
    assert!(matches!(a.mux.bind(0), Err(Fault::ConnectionReset)));
}

#[test]
fn wrapped_stream_disconnect_listener() {
    let mut a = Node::new("sm_a");
    let listener = a.mux.bind(1024).unwrap();
    a.lose_stream();
    assert!(!a.mux.inner.is_listening(1024));
    let queued = a.accept(&listener);
    assert!(matches!(listener.accept(queued.ok_or(())), Err((Fault::Other, ()))));
}

#[test]
fn wrapped_stream_disconnect_after_bind_connect_accept() {
    let mut a = Node::new("sm_a");
    let mut b = Node::new_paused("sm_b");
    let listener22 = b.mux.bind(22).unwrap();
    let listener23 = b.mux.bind(23).unwrap();
    b.mux.start();
    assert!(a.mux.watch_connected());

    let mut text = vec![];
    for (port, listener, bytes) in [(22, &listener22, &b"Hello, "[..]), (23, &listener23, b"world!\n")] {
        let dial = a.connect(port).unwrap();
        settle(&mut a, &mut b);
        assert_eq!(a.outcome(&dial), Some(Ok(())));
        let id = b.accept(listener).unwrap();
        b.write_all(id, bytes).unwrap();
        b.drop_stream(id);
        settle(&mut a, &mut b);
        text.extend_from_slice(&a.streams[&dial.socket].inbox);
    }
    assert_eq!(text, b"Hello, world!\n");

    a.lose_stream();
    assert_eq!(a.mux.watch_connected(), false);
}

#[test]
fn wrapped_stream_disconnect_subscribe_before() {
    let mut a = Node::new("sm_a");
    assert_eq!(a.mux.watch_connected(), true);
    let listener = a.mux.bind(1024).unwrap();
    a.lose_stream();
    assert_eq!(a.mux.watch_connected(), false);
    let queued = a.accept(&listener);
    assert!(matches!(listener.accept(queued.ok_or(())), Err(..)));
}

#[test]
fn wrapped_stream_disconnect_subscribe_after() {
    let mut a = Node::new("sm_a");
    let listener = a.mux.bind(1024).unwrap();
    a.lose_stream();
    assert_eq!(a.mux.watch_connected(), false);
    let queued = a.accept(&listener);
    assert!(matches!(listener.accept(queued.ok_or(())), Err(..)));
}

#[test]
fn listen_accept_multiple() {
    let input_bytes = random_bytes(1024 * 1024);
    let mut a = Node::new("sm_a");
    let mut b = Node::new("sm_b");
    let listener = b.mux.bind(22).unwrap();
    let dial0 = a.connect(22).unwrap();
    let dial1 = a.connect(22).unwrap();
    settle(&mut a, &mut b);
    assert_eq!(a.outcome(&dial0), Some(Ok(())));
    assert_eq!(a.outcome(&dial1), Some(Ok(())));
    let conn0 = b.accept(&listener).unwrap();
    let conn1 = b.accept(&listener).unwrap();
    let mut i = 0;
    while i < input_bytes.len() {
        assert!(matches!(b.write_all(conn0, &input_bytes[i..i + 1024]), Ok(..)));
        assert!(matches!(b.write_all(conn1, &input_bytes[i..i + 1024]), Ok(..)));
        i += 1024;
    }
    settle(&mut a, &mut b);
    assert!(input_bytes == a.streams[&dial0.socket].inbox);
    assert!(input_bytes == a.streams[&dial1.socket].inbox);
}

#[test]
fn listen_multiple_accept() {
    let input_bytes = random_bytes(1024 * 1024);
    let mut a = Node::new("sm_a");
    let mut b = Node::new("sm_b");
    let listener22 = b.mux.bind(22).unwrap();
    let listener23 = b.mux.bind(23).unwrap();
    let dial0 = a.connect(22).unwrap();
    let dial1 = a.connect(23).unwrap();
    settle(&mut a, &mut b);
    let conn0 = b.accept(&listener22).unwrap();
    let conn1 = b.accept(&listener23).unwrap();
    let mut i = 0;
    while i < input_bytes.len() {
        assert!(matches!(b.write_all(conn0, &input_bytes[i..i + 1024]), Ok(..)));
        assert!(matches!(b.write_all(conn1, &input_bytes[i..i + 1024]), Ok(..)));
        i += 1024;
    }
    settle(&mut a, &mut b);
    assert!(input_bytes == a.streams[&dial0.socket].inbox);
    assert!(input_bytes == a.streams[&dial1.socket].inbox);
}

#[test]
fn test_start_paused() {
    let mut a = Node::new("sm_a");
    let mut b = Node::new_paused("sm_b");
    let listener = b.mux.bind(22).unwrap();
    let dial = a.connect(22).unwrap();
    settle(&mut a, &mut b);
    assert!(b.mux.inner.is_listening(22));
    assert!(b.accept(&listener).is_none());
    assert!(a.outcome(&dial).is_none());
    assert!(matches!(
        b.mux.inner.framed_writer_sender(WriterEvent::Woken),
        WriterAction::AwaitRunning
    ));

    b.mux.start();

    b.run_reader();
    settle(&mut a, &mut b);
    assert!(b.accept(&listener).is_some());
    assert_eq!(a.outcome(&dial), Some(Ok(())));
}

#[test]
fn data_passes_both_ways_and_in_order() {
    let (mut a, mut b, a_id, b_id) = connected();
    for i in 0..20u8 {
        a.write_all(a_id, &[i; 3]).unwrap();
        b.write_all(b_id, &[100 + i; 5]).unwrap();
    }
    settle(&mut a, &mut b);
    let there: Vec<u8> = (0..20u8).flat_map(|i| [i; 3]).collect();
    let back: Vec<u8> = (0..20u8).flat_map(|i| [100 + i; 5]).collect();
    assert_eq!(b.streams[&b_id].inbox, there);
    assert_eq!(a.streams[&a_id].inbox, back);
}

#[test]
fn bound_ports_are_in_use_until_freed() {
    let mut a = Node::new("sm_a");
    let listener = a.mux.bind(22).unwrap();
    assert_eq!(listener.port(), 22);
    assert!(matches!(a.mux.bind(22), Err(Fault::AddrInUse)));
    assert!(a.mux.bind(23).is_ok());
    assert!(matches!(
        a.mux
            .inner
            .handle_mux_state_change(StateEvent::MayCloseListener { port: 22 }),
        StateAction::Await(None)
    ));
    assert!(a.mux.bind(22).is_ok());
    assert!(matches!(a.mux.bind(23), Err(Fault::AddrInUse)));
}

#[test]
fn a_listener_leaves_its_connections_behind() {
    let (mut a, mut b, a_id, b_id) = connected();
    b.mux.inner.process_may_close_listeners_once(22);
    a.write_all(a_id, b"still here").unwrap();
    settle(&mut a, &mut b);
    assert_eq!(b.streams[&b_id].inbox, b"still here");
    let dial = a.connect(22).unwrap();
    settle(&mut a, &mut b);
    assert_eq!(a.outcome(&dial), Some(Err(Fault::AddrNotAvailable)));
}

#[test]
fn port_zero_asks_for_any_port() {
    let mut a = Node::new("sm_a");
    let mut ports = vec![];
    for _ in 0..500 {
        let port = a.mux.bind(0).unwrap().port();
        assert!(port >= 1024);
        assert!(port < u16::MAX);
        assert!(!ports.contains(&port));
        ports.push(port);
    }
    assert!(ports.iter().any(|port| *port != ports[0]));
}

#[test]
fn the_last_free_port_is_found() {
    let mut a = Node::new("sm_a");
    for port in 1024..u16::MAX {
        if port != 4711 {
            assert!(a.mux.bind(port).is_ok());
        }
    }
    assert!(a.mux.has_listen_port());
    assert!(a.mux.may_listen_on(4711));
    assert_eq!(a.mux.bind(0).unwrap().port(), 4711);
    assert!(!a.mux.has_listen_port());
    assert!(!a.mux.may_listen_on(4711));
    assert!(!a.mux.may_listen_on(80));
}

#[test]
fn dials_use_ports_of_their_own() {
    let mut a = Node::new("sm_a");
    let mut ports = vec![];
    for _ in 0..500 {
        assert!(a.mux.has_source_port(22));
        let dial = a.connect(22).unwrap();
        assert!(dial.sport >= 1024);
        assert!(dial.sport < u16::MAX);
        assert!(!ports.contains(&dial.sport));
        assert!(!a.mux.may_dial_from(dial.sport, 22));
        assert!(a.mux.may_dial_from(dial.sport, 23));
        assert!(!a.mux.may_dial_from(80, 23));
        ports.push(dial.sport);
        let syn = &dial.syn;
        assert_eq!((syn.sport, syn.dport, syn.flag, syn.seq), (dial.sport, 22, Flag::Syn, 0));
        assert_eq!(a.mux.inner.connection(dial.sport, 22), Some(dial.socket));
        let socket = a.mux.inner.socket(dial.socket).unwrap();
        assert_eq!(socket.state, PortState::Ack);
        assert!(socket.has_stream_sender);
        assert!(!socket.accepting);
    }
}

#[test]
fn strangers_are_refused_and_refusals_are_not() {
    let mut a = Node::new("sm_a");
    for flag in [Flag::Syn, Flag::SynAck, Flag::Ack, Flag::Fin, Flag::Unset] {
        let event = ReaderEvent::Received(Some(Ok(Frame::new_no_data(7, 9, flag, 3))));
        match a.mux.inner.framed_reader_sender(event) {
            ReaderAction::Deliver(delivery) => {
                assert_eq!(delivery.socket, None);
                assert_eq!(delivery.displaced, None);
                assert_eq!(delivery.actions.len(), 1);
                match &delivery.actions[0] {
                    Action::Send(f) => {
                        assert_eq!((f.sport, f.dport, f.flag, f.seq), (9, 7, Flag::Rst, 0))
                    }
                    other => panic!("{:?}", other),
                }
            }
            other => panic!("{:?}", other),
        }
    }
    let event = ReaderEvent::Received(Some(Ok(Frame::new_no_data(7, 9, Flag::Rst, 3))));
    match a.mux.inner.framed_reader_sender(event) {
        ReaderAction::Deliver(delivery) => {
            assert_eq!(delivery.socket, None);
            assert!(delivery.actions.is_empty());
        }
        other => panic!("{:?}", other),
    }
}

#[test]
fn a_second_syn_takes_the_place_of_the_first() {
    let mut a = Node::new("sm_a");
    assert!(a.mux.bind(22).is_ok());
    let mut handles = vec![];
    for _ in 0..2 {
        let event = ReaderEvent::Received(Some(Ok(Frame::new_init(2000, 22, Flag::Syn))));
        match a.mux.inner.framed_reader_sender(event) {
            ReaderAction::Deliver(delivery) => {
                assert_eq!(delivery.displaced, handles.last().copied());
                handles.push(delivery.socket.unwrap());
            }
            other => panic!("{:?}", other),
        }
    }
    assert_ne!(handles[0], handles[1]);
    assert_eq!(a.mux.inner.connection(22, 2000), Some(handles[1]));
    assert!(a.mux.inner.socket(handles[0]).is_some());
    a.mux.inner.release(handles[0]);
    assert!(a.mux.inner.socket(handles[0]).is_none());
    a.mux.inner.release(handles[1]);
    assert!(a.mux.inner.socket(handles[1]).is_some());
    assert!(a.mux.inner.socket(usize::MAX).is_none());
}

#[test]
fn a_reader_that_stops_frees_its_ports() {
    let (mut a, _, a_id, _) = connected();
    let socket = a.mux.inner.socket(a_id).unwrap();
    let reading = a.mux.inner.stream_read(a_id, StreamEvent::Failed);
    assert_eq!(reading.freed, Some(a_id));
    assert!(matches!(reading.action, StreamAction::Finish(_)));
    assert_eq!(a.mux.inner.connection(socket.sport, socket.dport), None);
    let again = a.mux.inner.stream_read(a_id, StreamEvent::Failed);
    assert_eq!(again.freed, None);
}

#[test]
fn a_connection_can_be_freed() {
    let (mut a, _, a_id, _) = connected();
    let sport = a.mux.inner.socket(a_id).unwrap().sport;
    let event = StateEvent::MayCloseConnection { sport, dport: 22 };
    match a.mux.inner.handle_mux_state_change(event) {
        StateAction::Await(freed) => assert_eq!(freed, Some(a_id)),
        other => panic!("{:?}", other),
    }
    assert_eq!(a.mux.inner.connection(sport, 22), None);
    assert_eq!(a.mux.inner.process_may_close_connections_once(sport, 22), None);
}

#[test]
fn going_down_reaches_everybody() {
    let (mut a, mut b, a_id, b_id) = connected();
    let dial = a.connect(23).unwrap();
    a.lose_stream();
    assert_eq!(a.outcome(&dial), Some(Err(Fault::BrokenPipe)));
    assert!(!a.streams[&a_id].reader);
    assert!(!a.streams[&a_id].write_half);
    assert!(!a.mux.inner.is_connected());
    b.lose_stream();
    assert!(!b.streams[&b_id].reader);
}

#[test]
fn the_watch_goes_on_while_all_is_well() {
    let mut a = Node::new("sm_a");
    for event in [StateEvent::Started, StateEvent::Changed { closed: false }] {
        assert!(matches!(
            a.mux.inner.handle_mux_state_change(event),
            StateAction::Await(None)
        ));
    }
    assert!(a.mux.inner.is_connected());
    let event = StateEvent::Changed { closed: true };
    assert!(matches!(
        a.mux.inner.handle_mux_state_change(event),
        StateAction::Shutdown(_)
    ));
    assert!(!a.mux.inner.is_connected());
}

#[test]
fn a_watch_that_starts_late_shuts_down_at_once() {
    let mut a = Node::new("sm_a");
    a.mux.inner.disconnect();
    assert!(matches!(
        a.mux.inner.handle_mux_state_change(StateEvent::Started),
        StateAction::Shutdown(_)
    ));
}

#[test]
fn a_writer_that_fails_takes_the_multiplexor_down() {
    for event in [WriterEvent::Written(false), WriterEvent::Dequeued(None)] {
        let mut a = Node::new("sm_a");
        assert!(matches!(
            a.mux.inner.framed_writer_sender(WriterEvent::Woken),
            WriterAction::AwaitFrame
        ));
        assert!(matches!(a.mux.inner.framed_writer_sender(event), WriterAction::Stop));
        assert!(!a.mux.watch_connected());
        assert!(matches!(
            a.mux.inner.framed_writer_sender(WriterEvent::Woken),
            WriterAction::Stop
        ));
        assert!(matches!(
            a.mux.inner.framed_reader_sender(ReaderEvent::Woken),
            ReaderAction::Stop
        ));
    }
}

#[test]
fn bytes_that_are_no_frame_take_the_multiplexor_down() {
    let mut a = Node::new("sm_a");
    a.incoming.extend_from_slice(&[1, 0, 0, 0, 0, 0, 0, 0, 9]);
    a.run_reader();
    assert!(!a.mux.watch_connected());
}

#[test]
fn outcomes_are_passed_on() {
    let mut a = Node::new("sm_a");
    assert_eq!(Dial::outcome(Some(Ok(5))), Ok(5));
    assert_eq!(Dial::outcome::<u8>(Some(Err(Fault::BrokenPipe))), Err(Fault::BrokenPipe));
    assert_eq!(Dial::outcome::<u8>(None), Err(Fault::Other));
    let listener = a.mux.bind(22).unwrap();
    assert_eq!(listener.accept::<u8, &str>(Ok(5)), Ok(5));
    assert_eq!(listener.accept::<u8, &str>(Err("closed")), Err((Fault::Other, "closed")));
}

#[test]
fn connections_are_accepted_once_and_in_order() {
    let mut a = Node::new("sm_a");
    let mut b = Node::new("sm_b");
    let listener22 = b.mux.bind(22).unwrap();
    let listener23 = b.mux.bind(23).unwrap();
    let mut dialled = vec![];
    for port in [22, 23, 22, 22, 23] {
        let dial = a.connect(port).unwrap();
        dialled.push((port, dial.sport));
    }
    settle(&mut a, &mut b);
    for (listener, port) in [(&listener22, 22), (&listener23, 23)] {
        for (_, sport) in dialled.iter().filter(|(dport, _)| *dport == port) {
            let id = b.accept(listener).unwrap();
            let socket = b.mux.inner.socket(id).unwrap();
            assert_eq!((socket.sport, socket.dport), (port, *sport));
        }
        assert!(b.accept(listener).is_none());
    }
}

#[test]
fn a_connection_that_ends_leaves_the_others_alone() {
    let mut a = Node::new("sm_a");
    let mut b = Node::new("sm_b");
    let listener = b.mux.bind(22).unwrap();
    let dial0 = a.connect(22).unwrap();
    let dial1 = a.connect(22).unwrap();
    settle(&mut a, &mut b);
    let conn0 = b.accept(&listener).unwrap();
    let conn1 = b.accept(&listener).unwrap();
    b.write_all(conn0, b"one").unwrap();
    b.write_all(conn1, b"two").unwrap();
    b.drop_stream(conn0);
    b.write_all(conn1, b"three").unwrap();
    settle(&mut a, &mut b);
    assert_eq!(a.streams[&dial0.socket].inbox, b"one");
    assert!(!a.streams[&dial0.socket].reader);
    assert_eq!(a.streams[&dial1.socket].inbox, b"twothree");
    assert!(a.streams[&dial1.socket].reader);
    a.write_all(dial1.socket, b"four").unwrap();
    settle(&mut a, &mut b);
    assert_eq!(b.streams[&conn1].inbox, b"four");
}

#[test]
fn debug_shows_identifiers_and_ports() {
    let mut a = Node::new("sm_a");
    let listener = a.mux.bind(22).unwrap();
    assert_eq!(format!("{:?}", listener), "MuxListener { id: \"sm_a\", port: 22 }");
    assert_eq!(
        format!("{:?}", a.mux),
        "StreamMultiplexor { id: \"sm_a\", \
         inner: StreamMultiplexorInner { id: \"sm_a\", connected: true } }"
    );
    let dial = a.connect(23).unwrap();
    let socket = a.mux.inner.socket(dial.socket).unwrap();
    assert_eq!(
        format!("{:?}", socket),
        format!("MuxSocket {{ id: \"sm_a\", sport: {}, dport: 23 }}", dial.sport)
    );
    assert_eq!(format!("{:?}", a.decoder), "FrameDecoder { id: \"sm_a\" }");
    assert_eq!(format!("{:?}", a.encoder), "FrameEncoder { id: \"sm_a\" }");
}
