use bytes::{Bytes, BytesMut};
use stream_multiplexor::{
    read_body, Fault, Flag, Frame, FrameDecoder, FrameEncoder, StreamMultiplexorConfig,
};

fn config(max_frame_size: usize) -> StreamMultiplexorConfig {
    StreamMultiplexorConfig {
        max_frame_size,
        buf_size: 16,
        identifier: "codec",
    }
}

fn encoded(frame: Frame) -> BytesMut {
    let mut encoder = FrameEncoder::new(StreamMultiplexorConfig::default());
    let mut dst = BytesMut::new();
    assert!(encoder.encode(frame, &mut dst).is_ok());
    dst
}

fn same(a: &Frame, b: &Frame) -> bool {
    a.sport == b.sport
        && a.dport == b.dport
        && a.flag == b.flag
        && a.seq == b.seq
        && a.data == b.data
}

#[test]
fn default_config() {
    let config = StreamMultiplexorConfig::default();
    assert_eq!(config.max_frame_size, 4 * 1024 * 1024);
    assert_eq!(config.buf_size, 1024 * 1024);
    assert_eq!(config.identifier, "");
}

#[test]
fn with_identifier_changes_the_identifier_alone() {
    let config = config(99).with_identifier("sm_a");
    assert_eq!(config.identifier, "sm_a");
    assert_eq!(config.max_frame_size, 99);
    assert_eq!(config.buf_size, 16);
}

#[test]
fn frames_are_made_as_asked() {
    let plain = Frame::new_no_data(1, 2, Flag::Fin, 7);
    assert_eq!((plain.sport, plain.dport, plain.flag, plain.seq), (1, 2, Flag::Fin, 7));
    assert_eq!(plain.data, Bytes::new());
    let init = Frame::new_init(1, 2, Flag::Syn);
    assert_eq!((init.sport, init.dport, init.flag, init.seq), (1, 2, Flag::Syn, 0));
    assert_eq!(init.data, Bytes::new());
    let reply = Frame::new_reply(&plain, Flag::Rst, 9);
    assert_eq!((reply.sport, reply.dport, reply.flag, reply.seq), (2, 1, Flag::Rst, 9));
    assert_eq!(reply.data, Bytes::new());
    let data = Frame::new_data(3, 4, 5, &[6, 7]);
    assert_eq!((data.sport, data.dport, data.flag, data.seq), (3, 4, Flag::Unset, 5));
    assert_eq!(data.data, Bytes::copy_from_slice(&[6, 7]));
}

#[test]
fn encoded_bytes_are_exact() {
    let frame = Frame {
        sport: 0x0102,
        dport: 0x0304,
        flag: Flag::Unset,
        seq: 0x0506_0708,
        data: Bytes::copy_from_slice(&[9, 10]),
    };
    assert_eq!(
        encoded(frame).to_vec(),
        vec![
            22, 0, 0, 0, 0, 0, 0, 0, 2, 1, 4, 3, 5, 0, 0, 0, 8, 7, 6, 5, 2, 0, 0, 0, 0, 0, 0, 0, 9,
            10
        ]
    );
}

#[test]
fn a_frame_without_data_takes_twenty_eight_bytes() {
    assert_eq!(
        encoded(Frame::new_init(1024, 22, Flag::Syn)).to_vec(),
        vec![
            20, 0, 0, 0, 0, 0, 0, 0, 0, 4, 22, 0, 0, 0, 0, 0, 0, 0, 0, 0, 0, 0, 0, 0, 0, 0, 0, 0
        ]
    );
}

#[test]
fn encoding_appends() {
    let mut encoder = FrameEncoder::new(StreamMultiplexorConfig::default());
    let mut dst = BytesMut::from(&[1u8, 2, 3][..]);
    assert!(encoder.encode(Frame::new_init(1, 2, Flag::Ack), &mut dst).is_ok());
    assert_eq!(dst.len(), 31);
    assert_eq!(&dst[..4], &[1, 2, 3, 20]);
}

#[test]
fn every_flag_survives_the_wire() {
    let flags = [
        Flag::Syn,
        Flag::SynAck,
        Flag::Ack,
        Flag::Rst,
        Flag::Fin,
        Flag::Unset,
    ];
    for (code, flag) in flags.iter().enumerate() {
        let bytes = encoded(Frame::new_no_data(5, 6, *flag, 7));
        assert_eq!(&bytes[12..16], &[code as u8, 0, 0, 0]);
        assert_eq!(flag.to_code(), code as u32);
        assert_eq!(Flag::from_code(code as u32), Some(*flag));
        let mut src = bytes;
        let mut decoder = FrameDecoder::new(StreamMultiplexorConfig::default());
        let frame = decoder.decode(&mut src).unwrap().unwrap();
        assert!(same(&frame, &Frame::new_no_data(5, 6, *flag, 7)));
        assert!(src.is_empty());
    }
    assert_eq!(Flag::from_code(6), None);
}

#[test]
fn a_frame_over_the_limit_is_not_encoded() {
    let mut encoder = FrameEncoder::new(config(22));
    let mut dst = BytesMut::from(&[1u8][..]);
    let error = encoder
        .encode(Frame::new_data(1, 2, 3, &[0; 3]), &mut dst)
        .unwrap_err();
    assert_eq!(error.fault, Fault::InvalidInput);
    assert!(error.source.is_none());
    assert_eq!(dst.to_vec(), vec![1]);
    assert!(encoder.encode(Frame::new_data(1, 2, 3, &[0; 2]), &mut dst).is_ok());
    assert_eq!(dst.len(), 31);
}

#[test]
fn a_frame_over_the_limit_is_not_decoded() {
    let mut decoder = FrameDecoder::new(config(22));
    let mut src = BytesMut::from(&[23u8, 0, 0, 0, 0, 0, 0, 0][..]);
    let error = decoder.decode(&mut src).unwrap_err();
    assert_eq!(error.fault, Fault::InvalidInput);
    assert!(error.source.is_none());
    assert_eq!(src.len(), 8);
}

#[test]
fn a_cut_frame_waits_for_the_rest() {
    let whole = encoded(Frame::new_data(1, 2, 3, &[4, 5, 6]));
    for len in 0..whole.len() {
        let mut decoder = FrameDecoder::new(StreamMultiplexorConfig::default());
        let mut src = BytesMut::from(&whole[..len]);
        assert!(decoder.decode(&mut src).unwrap().is_none());
        assert_eq!(&src[..], &whole[..len]);
        src.extend_from_slice(&whole[len..]);
        let frame = decoder.decode(&mut src).unwrap().unwrap();
        assert!(same(&frame, &Frame::new_data(1, 2, 3, &[4, 5, 6])));
        assert!(src.is_empty());
    }
}

#[test]
fn frames_are_decoded_in_order() {
    let mut encoder = FrameEncoder::new(StreamMultiplexorConfig::default());
    let mut decoder = FrameDecoder::new(StreamMultiplexorConfig::default());
    let mut bytes = BytesMut::new();
    for i in 0..5u32 {
        let frame = Frame::new_data(1, 2, i, &vec![i as u8; i as usize]);
        assert!(encoder.encode(frame, &mut bytes).is_ok());
    }
    bytes.extend_from_slice(&[1, 2, 3]);
    for i in 0..5u32 {
        let frame = decoder.decode(&mut bytes).unwrap().unwrap();
        assert!(same(&frame, &Frame::new_data(1, 2, i, &vec![i as u8; i as usize])));
    }
    assert!(decoder.decode(&mut bytes).unwrap().is_none());
    assert_eq!(&bytes[..], &[1, 2, 3]);
}

#[test]
fn a_body_that_is_too_short_is_an_error_and_is_dropped() {
    let mut decoder = FrameDecoder::new(StreamMultiplexorConfig::default());
    let mut src = BytesMut::from(&[3u8, 0, 0, 0, 0, 0, 0, 0, 1, 2, 3, 42][..]);
    let error = decoder.decode(&mut src).unwrap_err();
    assert_eq!(error.fault, Fault::InvalidData);
    assert!(error.source.is_some());
    assert_eq!(&src[..], &[42]);
}

#[test]
fn data_that_runs_over_the_body_is_an_error() {
    let mut src = encoded(Frame::new_data(1, 2, 3, &[4, 5, 6]));
    src[24] = 4;
    let mut decoder = FrameDecoder::new(StreamMultiplexorConfig::default());
    let error = decoder.decode(&mut src).unwrap_err();
    assert_eq!(error.fault, Fault::InvalidData);
    assert!(error.source.is_some());
    assert!(src.is_empty());
}

#[test]
fn a_huge_data_length_is_an_error() {
    let mut src = encoded(Frame::new_data(1, 2, 3, &[4, 5, 6]));
    for i in 20..28 {
        src[i] = 0xff;
    }
    let mut decoder = FrameDecoder::new(StreamMultiplexorConfig::default());
    assert_eq!(decoder.decode(&mut src).unwrap_err().fault, Fault::InvalidData);
}

#[test]
fn bytes_behind_the_data_are_passed_over() {
    let mut src = encoded(Frame::new_data(1, 2, 3, &[4, 5, 6]));
    src[20] = 2;
    let mut decoder = FrameDecoder::new(StreamMultiplexorConfig::default());
    let frame = decoder.decode(&mut src).unwrap().unwrap();
    assert!(same(&frame, &Frame::new_data(1, 2, 3, &[4, 5])));
    assert!(src.is_empty());
}

#[test]
fn an_unknown_flag_is_an_error() {
    let mut src = encoded(Frame::new_init(1, 2, Flag::Unset));
    src[12] = 6;
    let mut decoder = FrameDecoder::new(StreamMultiplexorConfig::default());
    let error = decoder.decode(&mut src).unwrap_err();
    assert_eq!(error.fault, Fault::InvalidData);
    assert_eq!(error.unknown_flag, Some(6));
    assert_eq!(
        error.source.unwrap().to_string(),
        "invalid value: integer `6`, expected variant index 0 <= i < 6"
    );
    assert!(src.is_empty());
}

#[test]
fn only_lengths_that_fit_into_memory_can_be_held() {
    let all_ones = BytesMut::from(&[0xffu8; 8][..]);
    assert!(!FrameDecoder::new(config(usize::MAX)).can_hold(&all_ones));
    assert!(FrameDecoder::new(config(1024)).can_hold(&all_ones));
    assert!(FrameDecoder::new(config(usize::MAX)).can_hold(&BytesMut::new()));
    let small = BytesMut::from(&[20u8, 0, 0, 0, 0, 0, 0, 0][..]);
    assert!(FrameDecoder::new(config(usize::MAX)).can_hold(&small));
}

#[test]
fn an_unknown_flag_is_to_blame_before_what_follows_it() {
    let flag_only = [8u8, 0, 0, 0, 0, 0, 0, 0, 1, 0, 2, 0, 9, 0, 0, 0];
    let mut overrun = encoded(Frame::new_init(1, 2, Flag::Unset));
    overrun[12] = 9;
    overrun[20] = 1;
    for mut src in [BytesMut::from(&flag_only[..]), overrun] {
        let mut decoder = FrameDecoder::new(StreamMultiplexorConfig::default());
        let error = decoder.decode(&mut src).unwrap_err();
        assert_eq!(error.fault, Fault::InvalidData);
        assert_eq!(error.unknown_flag, Some(9));
        assert_eq!(
            error.source.unwrap().to_string(),
            "invalid value: integer `9`, expected variant index 0 <= i < 6"
        );
        assert!(src.is_empty());
    }
    let cut_flag = [7u8, 0, 0, 0, 0, 0, 0, 0, 1, 0, 2, 0, 9, 0, 0];
    let known_flag = [8u8, 0, 0, 0, 0, 0, 0, 0, 1, 0, 2, 0, 5, 0, 0, 0];
    for bytes in [&cut_flag[..], &known_flag[..]] {
        let mut src = BytesMut::from(bytes);
        let mut decoder = FrameDecoder::new(StreamMultiplexorConfig::default());
        let error = decoder.decode(&mut src).unwrap_err();
        assert_eq!(error.fault, Fault::InvalidData);
        assert_eq!(error.unknown_flag, None);
        assert!(matches!(*error.source.unwrap(), bincode::ErrorKind::Io(_)));
    }
}

#[test]
fn debug_shows_the_length_of_the_data_alone() {
    let frame = Frame::new_data(1, 65535, 4294967295, &[7; 1200]);
    let text = "Frame { sport: 1, dport: 65535, flag: Unset, seq: 4294967295, data.len: 1200 }";
    assert_eq!(format!("{:?}", frame), text);
    assert_eq!(frame.text(), text);
    for flag in [Flag::Syn, Flag::SynAck, Flag::Ack, Flag::Rst, Flag::Fin, Flag::Unset] {
        let frame = Frame::new_no_data(0, 10, flag, 0);
        assert_eq!(frame.text(), format!("{:?}", frame));
        assert_eq!(flag.to_name(), format!("{:?}", flag));
    }
    assert_eq!(
        format!("{:#?}", Frame::new_no_data(1, 2, Flag::Fin, 3)),
        "Frame {\n    sport: 1,\n    dport: 2,\n    flag: Fin,\n    seq: 3,\n    data.len: 0,\n}"
    );
}

#[test]
fn frames_that_fit_into_memory_can_be_appended() {
    let frame = Frame::new_data(1, 2, 3, &[4, 5]);
    let dst = BytesMut::from(&[1u8, 2][..]);
    assert!(FrameEncoder::new(config(22)).can_append(&frame, &dst));
    assert!(FrameEncoder::new(config(21)).can_append(&frame, &dst));
}

#[test]
fn the_error_of_reading_the_fields_is_handed_on() {
    let known_flag = [1u8, 0, 2, 0, 5, 0, 0, 0];
    for body in [&known_flag[..], &known_flag[..7], &[]] {
        let error = read_body(body, Err(Box::new(bincode::ErrorKind::SizeLimit))).unwrap_err();
        assert_eq!(error.fault, Fault::InvalidData);
        assert_eq!(error.unknown_flag, None);
        assert!(matches!(*error.source.unwrap(), bincode::ErrorKind::SizeLimit));
    }
    let stray_flag = [1u8, 0, 2, 0, 6, 0, 0, 0];
    let error = read_body(&stray_flag, Err(Box::new(bincode::ErrorKind::SizeLimit))).unwrap_err();
    assert_eq!(error.fault, Fault::InvalidData);
    assert_eq!(error.unknown_flag, Some(6));
    assert!(matches!(*error.source.unwrap(), bincode::ErrorKind::Custom(_)));
}

#[test]
fn fields_make_a_frame() {
    let data = Bytes::copy_from_slice(&[4, 5]);
    let frame = read_body(&[], Ok((1, 2, 5, 3, data.clone()))).unwrap();
    assert!(same(&frame, &Frame::new_data(1, 2, 3, &[4, 5])));
    let error = read_body(&[], Ok((1, 2, 77, 3, data))).unwrap_err();
    assert_eq!(error.fault, Fault::InvalidData);
    assert_eq!(error.unknown_flag, Some(77));
    assert_eq!(
        error.source.unwrap().to_string(),
        "invalid value: integer `77`, expected variant index 0 <= i < 6"
    );
}
