use bytes::Bytes;
use stream_multiplexor::{
    Action, Flag, Frame, MuxSocket, PortState, StreamAction, StreamEvent,
};

const STATES: [PortState; 4] = [
    PortState::Closed,
    PortState::SynAck,
    PortState::Ack,
    PortState::Open,
];

fn socket(state: PortState) -> MuxSocket {
    MuxSocket {
        identifier: "sm",
        accepting: false,
        sport: 22,
        dport: 2000,
        state,
        seq: 5,
        has_write_half: false,
        has_stream_sender: false,
    }
}

/// A frame from the peer of such a socket.
fn frame(flag: Flag) -> Frame {
    Frame::new_no_data(2000, 22, flag, 77)
}

/// The actions in words.
fn words(actions: &[Action]) -> Vec<String> {
    actions
        .iter()
        .map(|action| match action {
            Action::Send(f) => format!("send {:?} {} {} {}", f.flag, f.sport, f.dport, f.seq),
            Action::Accept(port) => format!("accept {}", port),
            Action::Connect => "connect".to_string(),
            Action::Refuse(fault) => format!("refuse {:?}", fault),
            Action::Write(data) => format!("write {:?}", data.to_vec()),
            Action::CloseWrite => "close".to_string(),
            Action::Reset => "reset".to_string(),
        })
        .collect()
}

#[test]
fn new_sockets_are_closed() {
    let socket = MuxSocket::new("sm", 22, 2000, true);
    assert_eq!(socket.identifier, "sm");
    assert!(socket.accepting);
    assert_eq!((socket.sport, socket.dport, socket.seq), (22, 2000, 0));
    assert_eq!(socket.state, PortState::Closed);
    assert!(!socket.has_write_half);
    assert!(!socket.has_stream_sender);
}

#[test]
fn dialling_sends_syn() {
    let mut socket = MuxSocket::new("sm", 2000, 22, false);
    socket.stream();
    assert!(socket.has_stream_sender);
    let syn = socket.start();
    assert_eq!((syn.sport, syn.dport, syn.flag, syn.seq), (2000, 22, Flag::Syn, 0));
    assert_eq!(syn.data, Bytes::new());
    assert_eq!(socket.state, PortState::Ack);
    assert_eq!(socket.seq, 0);
}

#[test]
fn syn_is_accepted_when_closed_and_ignored_otherwise() {
    for state in STATES {
        let mut s = socket(state);
        let actions = s.recv_frame(frame(Flag::Syn), true);
        if state == PortState::Closed {
            assert_eq!(words(&actions), vec!["send SynAck 22 2000 5"]);
            assert_eq!(s.state, PortState::SynAck);
            assert_eq!(s.seq, 6);
        } else {
            assert!(actions.is_empty());
            assert_eq!(s, socket(state));
        }
    }
}

#[test]
fn confirmations_open_a_waiting_socket() {
    for flag in [Flag::SynAck, Flag::Ack] {
        for state in STATES {
            let mut s = socket(state);
            s.has_stream_sender = true;
            let before = s;
            let actions = s.recv_frame(frame(flag), false);
            if state == PortState::SynAck || state == PortState::Ack {
                assert_eq!(words(&actions), vec!["send Ack 22 2000 5", "connect"]);
                assert_eq!(s.state, PortState::Open);
                assert_eq!(s.seq, 6);
                assert!(s.has_write_half);
            } else {
                assert!(actions.is_empty());
                assert_eq!(s, before);
            }
        }
    }
}

#[test]
fn an_accepting_socket_hands_its_stream_to_the_listener() {
    let mut s = socket(PortState::SynAck);
    s.accepting = true;
    let actions = s.recv_frame(frame(Flag::Ack), true);
    assert_eq!(words(&actions), vec!["send Ack 22 2000 5", "accept 22"]);
    assert!(s.has_write_half);
}

#[test]
fn without_a_listener_an_accepting_socket_opens_without_a_stream() {
    let mut s = socket(PortState::SynAck);
    s.accepting = true;
    s.has_stream_sender = true;
    let actions = s.recv_frame(frame(Flag::Ack), false);
    assert_eq!(words(&actions), vec!["send Ack 22 2000 5"]);
    assert_eq!(s.state, PortState::Open);
    assert!(!s.has_write_half);
}

#[test]
fn data_is_written_to_an_open_stream_only() {
    for state in STATES {
        for has_write_half in [false, true] {
            let mut s = socket(state);
            s.has_write_half = has_write_half;
            let before = s;
            let actions = s.recv_frame(Frame::new_data(2000, 22, 9, &[1, 2]), true);
            if state == PortState::Open && has_write_half {
                assert_eq!(words(&actions), vec!["write [1, 2]"]);
            } else {
                assert!(actions.is_empty());
            }
            assert_eq!(s, before);
        }
    }
}

#[test]
fn fin_ends_an_open_socket() {
    for state in STATES {
        let mut s = socket(state);
        s.has_write_half = true;
        let before = s;
        let actions = s.recv_frame(frame(Flag::Fin), true);
        if state == PortState::Open {
            assert_eq!(words(&actions), vec!["send Fin 22 2000 5", "close", "reset"]);
            assert_eq!(s.state, PortState::Closed);
            assert_eq!(s.seq, 6);
            assert!(!s.has_write_half);
        } else {
            assert!(actions.is_empty());
            assert_eq!(s, before);
        }
    }
}

#[test]
fn rst_closes_and_tells_whoever_dialled() {
    for state in STATES {
        for has_stream_sender in [false, true] {
            let mut s = socket(state);
            s.has_write_half = true;
            s.has_stream_sender = has_stream_sender;
            let actions = s.recv_frame(frame(Flag::Rst), true);
            let waiting = state == PortState::Closed || state == PortState::Ack;
            if waiting && has_stream_sender {
                assert_eq!(words(&actions), vec!["refuse AddrNotAvailable", "close", "reset"]);
            } else {
                assert_eq!(words(&actions), vec!["close", "reset"]);
            }
            assert_eq!(s.state, PortState::Closed);
            assert_eq!(s.seq, 5);
            assert!(!s.has_write_half);
        }
    }
}

#[test]
fn sequence_numbers_start_over() {
    let mut s = socket(PortState::Closed);
    s.seq = u32::MAX;
    let actions = s.recv_frame(frame(Flag::Syn), true);
    assert_eq!(words(&actions), vec!["send SynAck 22 2000 4294967295"]);
    assert_eq!(s.seq, 0);
}

#[test]
fn a_reader_sends_what_it_reads() {
    let mut s = socket(PortState::Open);
    s.has_write_half = true;
    for i in 0..3u8 {
        match s.stream_read(StreamEvent::Read(&[i, i]), true) {
            StreamAction::Send(f) => {
                assert_eq!((f.sport, f.dport, f.flag), (22, 2000, Flag::Unset));
                assert_eq!(f.seq, 5 + i as u32);
                assert_eq!(f.data.to_vec(), vec![i, i]);
            }
            other => panic!("{:?}", other),
        }
    }
    assert_eq!(s.seq, 8);
    assert!(s.has_write_half);
}

#[test]
fn a_reader_waits_while_all_is_well() {
    let mut s = socket(PortState::Open);
    let before = s;
    assert!(matches!(
        s.stream_read(StreamEvent::Woken { rst: false }, true),
        StreamAction::Await
    ));
    assert_eq!(s, before);
}

#[test]
fn a_reader_takes_its_leave() {
    let ends: [(StreamEvent<'static>, bool); 5] = [
        (StreamEvent::Woken { rst: true }, true),
        (StreamEvent::Woken { rst: false }, false),
        (StreamEvent::Read(&[]), true),
        (StreamEvent::Failed, true),
        (StreamEvent::Failed, false),
    ];
    for (event, connected) in ends {
        let mut s = socket(PortState::Open);
        s.has_write_half = true;
        match s.stream_read(event, connected) {
            StreamAction::Finish(f) => {
                assert_eq!((f.sport, f.dport, f.flag, f.seq), (22, 2000, Flag::Fin, 5));
                assert_eq!(f.data, Bytes::new());
            }
            other => panic!("{:?}", other),
        }
        assert_eq!(s.seq, 6);
        assert!(!s.has_write_half);
        assert_eq!(s.state, PortState::Open);
    }
}
