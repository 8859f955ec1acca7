//! Laws of the calls that make, write and read frames, in terms of what goes in and what comes
//! out: fields, numbers and the bytes at their places.

use bytes::{Bytes, BytesMut};
use vstd::prelude::*;

use crate::config::StreamMultiplexorConfig;
use crate::error::{CodecError, Fault};
use crate::frame::{lemma_body_len, read_body, Flag, Frame, FrameDecoder, FrameEncoder};
use crate::outside::{buffer_view, bytes_view};
use crate::text::{decimal, decimal_text};
use crate::wire::{
    le_bytes, le_limit, le_value, lemma_le_bytes_len, lemma_le_limits, lemma_le_value_of_bytes,
    u32_from_le, u64_from_le, u64_to_le,
};

verus! {

/// The number in little-endian bytes is the sum of the bytes, each 256 times the one before it.
pub proof fn law_numbers_are_little_endian(s: Seq<u8>)
    ensures
        s.len() == 2 ==> le_value(s) == s[0] + 0x100 * s[1],
        s.len() == 4 ==> le_value(s) == s[0] + 0x100 * s[1] + 0x1_0000 * s[2] + 0x100_0000 * s[3],
        s.len() == 8 ==> le_value(s) == s[0] + 0x100 * s[1] + 0x1_0000 * s[2] + 0x100_0000 * s[3]
            + 0x1_0000_0000 * s[4] + 0x100_0000_0000 * s[5] + 0x1_0000_0000_0000 * s[6]
            + 0x100_0000_0000_0000 * s[7],
{
    reveal_with_fuel(le_value, 9);
    let t1 = s.drop_first();
    let t2 = t1.drop_first();
    let t3 = t2.drop_first();
    let t4 = t3.drop_first();
    let t5 = t4.drop_first();
    let t6 = t5.drop_first();
    let t7 = t6.drop_first();
    if s.len() == 2 {
        assert(t1[0] == s[1] && t2.len() == 0);
    } else if s.len() == 4 {
        assert(t1[0] == s[1] && t2[0] == s[2] && t3[0] == s[3] && t4.len() == 0);
    } else if s.len() == 8 {
        assert(t1[0] == s[1] && t2[0] == s[2] && t3[0] == s[3] && t4[0] == s[4]);
        assert(t5[0] == s[5] && t6[0] == s[6] && t7[0] == s[7] && t7.drop_first().len() == 0);
    }
}

/// Bytes and numbers stand for each other: a number is read back from its bytes, and bytes are
/// written again from their number.
pub proof fn law_numbers_and_bytes_stand_for_each_other(s: Seq<u8>, value: nat, width: nat)
    ensures
        le_bytes(le_value(s), s.len()) == s,
        le_bytes(value, width).len() == width,
        width == 2 && value < 0x1_0000 ==> le_value(le_bytes(value, width)) == value,
        width == 4 && value < 0x1_0000_0000 ==> le_value(le_bytes(value, width)) == value,
        width == 8 && value < 0x1_0000_0000_0000_0000 ==> le_value(le_bytes(value, width)) == value,
{
    lemma_bytes_of_value(s);
    lemma_le_limits();
    lemma_le_bytes_len(value, width);
    if value < le_limit(width) {
        lemma_le_value_of_bytes(value, width);
    }
}

proof fn lemma_bytes_of_value(s: Seq<u8>)
    ensures
        le_bytes(le_value(s), s.len()) == s,
    decreases s.len(),
{
    if s.len() > 0 {
        lemma_bytes_of_value(s.drop_first());
        let value = le_value(s);
        assert(value % 256 == s[0]);
        assert(value / 256 == le_value(s.drop_first()));
        assert(le_bytes(value, s.len()) =~= seq![s[0]] + s.drop_first());
        assert(seq![s[0]] + s.drop_first() =~= s);
    } else {
        assert(le_bytes(0, 0) =~= s);
    }
}

/// The calls that read and write numbers agree with the places of the bytes, and with each other.
pub proof fn law_number_calls(
    value: u64,
    bytes: Vec<u8>,
    eight: &[u8],
    long: u64,
    four: &[u8],
    short: u32,
)
    requires
        call_ensures(u64_to_le, (value,), bytes),
        eight@.len() == 8,
        call_ensures(u64_from_le, (eight,), long),
        four@.len() == 4,
        call_ensures(u32_from_le, (four,), short),
    ensures
        bytes@.len() == 8,
        value == bytes@[0] + 0x100 * bytes@[1] + 0x1_0000 * bytes@[2] + 0x100_0000 * bytes@[3]
            + 0x1_0000_0000 * bytes@[4] + 0x100_0000_0000 * bytes@[5] + 0x1_0000_0000_0000
            * bytes@[6] + 0x100_0000_0000_0000 * bytes@[7],
        long == eight@[0] + 0x100 * eight@[1] + 0x1_0000 * eight@[2] + 0x100_0000 * eight@[3]
            + 0x1_0000_0000 * eight@[4] + 0x100_0000_0000 * eight@[5] + 0x1_0000_0000_0000
            * eight@[6] + 0x100_0000_0000_0000 * eight@[7],
        short == four@[0] + 0x100 * four@[1] + 0x1_0000 * four@[2] + 0x100_0000 * four@[3],
        eight@ == bytes@ ==> long == value,
{
    lemma_le_bytes_len(value as nat, 8);
    lemma_le_limits();
    lemma_le_value_of_bytes(value as nat, 8);
    law_numbers_are_little_endian(bytes@);
    law_numbers_are_little_endian(eight@);
    law_numbers_are_little_endian(four@);
}

/// The number that decimal digits stand for, the most significant digit first.
pub open spec fn decimal_value(digits: Seq<char>) -> int
    decreases digits.len(),
{
    if digits.len() == 0 {
        0
    } else {
        10 * decimal_value(digits.drop_last()) + (digits.last() as int - '0' as int)
    }
}

/// A number in words is made of decimal digits that stand for it, and has no leading zero.
pub proof fn law_numbers_in_words(n: u64, text: String)
    requires
        call_ensures(decimal_text, (n,), text),
    ensures
        decimal_value(text@) == n,
        text@.len() > 0,
        forall|i: int| 0 <= i < text@.len() ==> '0' <= #[trigger] text@[i] <= '9',
        text@[0] == '0' ==> text@.len() == 1,
{
    lemma_decimal(n as nat);
}

proof fn lemma_decimal(n: nat)
    ensures
        decimal_value(decimal(n)) == n,
        decimal(n).len() > 0,
        forall|i: int|
            0 <= i < decimal(n).len() ==> '0' <= #[trigger] decimal(n)[i]
                <= '9',
        decimal(n)[0] == '0' ==> n == 0,
        n < 10 ==> decimal(n).len() == 1,
    decreases n,
{
    reveal_strlit("0123456789");
    reveal_with_fuel(decimal_value, 2);
    let digits = decimal(n);
    if n >= 10 {
        lemma_decimal(n / 10);
        assert(digits.drop_last() =~= decimal(n / 10));
        assert(digits[0] == decimal(n / 10)[0]);
    } else {
        assert(digits.drop_last() =~= Seq::empty());
    }
}

/// Flags go by the numbers from zero to five, in the order of their declaration, and by their
/// names; no other number stands for one.
pub proof fn law_flag_numbers(
    flag: Flag,
    code: u32,
    back: Option<Flag>,
    other: u32,
    found: Option<Flag>,
    name: &'static str,
)
    requires
        call_ensures(Flag::to_code, (flag,), code),
        call_ensures(Flag::from_code, (code,), back),
        call_ensures(Flag::from_code, (other,), found),
        call_ensures(Flag::to_name, (flag,), name),
    ensures
        code == flag.code(),
        back == Some(flag),
        found is None <==> other > 5,
        found matches Some(f) ==> f.code() == other,
        flag == Flag::Syn ==> code == 0 && name@ == "Syn"@,
        flag == Flag::SynAck ==> code == 1 && name@ == "SynAck"@,
        flag == Flag::Ack ==> code == 2 && name@ == "Ack"@,
        flag == Flag::Rst ==> code == 3 && name@ == "Rst"@,
        flag == Flag::Fin ==> code == 4 && name@ == "Fin"@,
        flag == Flag::Unset ==> code == 5 && name@ == "Unset"@,
{
}

/// A frame is seen as its own fields.
pub proof fn law_a_frame_is_seen_as_it_is(frame: Frame)
    ensures
        frame@.sport == frame.sport,
        frame@.dport == frame.dport,
        frame@.flag == frame.flag,
        frame@.seq == frame.seq,
        frame@.data == bytes_view(frame.data),
{
}

/// A frame without data holds what it was given, and no byte; a first frame has the number zero.
pub proof fn law_frames_without_data(
    sport: u16,
    dport: u16,
    flag: Flag,
    seq: u32,
    bare: Frame,
    first: Frame,
)
    requires
        call_ensures(Frame::new_no_data, (sport, dport, flag, seq), bare),
        call_ensures(Frame::new_init, (sport, dport, flag), first),
    ensures
        bare.sport == sport && bare.dport == dport && bare.flag == flag && bare.seq == seq,
        bytes_view(bare.data).len() == 0,
        first.sport == sport && first.dport == dport && first.flag == flag && first.seq == 0,
        bytes_view(first.data).len() == 0,
{
    assert(bare@.data.len() == 0 && bare@.sport == sport && bare@.dport == dport);
    assert(first@.data.len() == 0 && first@.sport == sport && first@.dport == dport);
}

/// A reply goes back to where a frame came from, from where the frame went; what the frame carried
/// does not go with it.
pub proof fn law_a_reply_goes_back(frame: &Frame, flag: Flag, seq: u32, reply: Frame)
    requires
        call_ensures(Frame::new_reply, (frame, flag, seq), reply),
    ensures
        reply.sport == frame.dport,
        reply.dport == frame.sport,
        reply.flag == flag,
        reply.seq == seq,
        bytes_view(reply.data).len() == 0,
{
    assert(reply@.data.len() == 0 && reply@.sport == frame.dport && reply@.dport == frame.sport);
}

/// A data frame carries all of the data.
pub proof fn law_a_data_frame_carries_its_data(
    sport: u16,
    dport: u16,
    seq: u32,
    data: &[u8],
    frame: Frame,
)
    requires
        call_ensures(Frame::new_data, (sport, dport, seq, data), frame),
    ensures
        frame.sport == sport && frame.dport == dport && frame.flag == Flag::Unset && frame.seq
            == seq,
        bytes_view(frame.data) == data@,
{
    assert(frame@.data == data@ && frame@.sport == sport && frame@.dport == dport);
}

/// A frame in words tells the names and the numbers of its fields in turn and, of its data, only
/// the length: each part is found at its place, behind the parts before it.
pub proof fn law_a_frame_in_words(
    frame: &Frame,
    text: String,
    sport: String,
    dport: String,
    flag: &'static str,
    seq: String,
    len: String,
)
    requires
        call_ensures(Frame::text, (frame,), text),
        call_ensures(decimal_text, (frame.sport as u64,), sport),
        call_ensures(decimal_text, (frame.dport as u64,), dport),
        call_ensures(Flag::to_name, (frame.flag,), flag),
        call_ensures(decimal_text, (frame.seq as u64,), seq),
        bytes_view(frame.data).len() <= u64::MAX,
        call_ensures(decimal_text, (bytes_view(frame.data).len() as u64,), len),
    ensures
        text@ == "Frame { sport: "@ + sport@ + ", dport: "@ + dport@ + ", flag: "@ + flag@
            + ", seq: "@ + seq@ + ", data.len: "@ + len@ + " }"@,
{
}

/// A codec goes by the configuration that it was made with.
pub proof fn law_a_codec_keeps_its_configuration(
    config: StreamMultiplexorConfig,
    decoder: FrameDecoder,
    encoder: FrameEncoder,
)
    requires
        call_ensures(FrameDecoder::new, (config,), decoder),
        call_ensures(FrameEncoder::new, (config,), encoder),
    ensures
        decoder.config() == config,
        encoder.config() == config,
{
}

/// A configuration that nobody has chosen allows frames of up to four mebibytes and reads of up to
/// one, and has no identifier. Another identifier changes nothing else of a configuration.
pub proof fn law_configurations(
    unchosen: StreamMultiplexorConfig,
    config: StreamMultiplexorConfig,
    identifier: &'static str,
    renamed: StreamMultiplexorConfig,
)
    requires
        call_ensures(StreamMultiplexorConfig::default, (), unchosen),
        call_ensures(StreamMultiplexorConfig::with_identifier, (config, identifier), renamed),
    ensures
        unchosen.max_frame_size == 0x40_0000,
        unchosen.buf_size == 0x10_0000,
        unchosen.identifier@.len() == 0,
        renamed == (StreamMultiplexorConfig { identifier, ..config }),
{
}

/// A frame is encoded if and only if its fields and its data are within the limit. It is then
/// found behind what was there before, byte by byte: how many bytes follow, the port that it comes
/// from, the port that it goes to, its flag, its number, how much data there is, and the data.
/// Otherwise nothing is written.
pub proof fn law_encoded_bytes_stand_at_their_places(
    encoder: &mut FrameEncoder,
    item: Frame,
    dst: &mut BytesMut,
    result: Result<(), CodecError>,
)
    requires
        call_ensures(FrameEncoder::encode, (encoder, item, dst), result),
        bytes_view(item.data).len() <= usize::MAX - 20,
    ensures
        final(encoder).config() == old(encoder).config(),
        ({
            let before = buffer_view(*old(dst));
            let after = buffer_view(*final(dst));
            let wire = after.skip(before.len() as int);
            let data = bytes_view(item.data);
            if 20 + data.len() <= old(encoder).config().max_frame_size {
                &&& result is Ok
                &&& after.len() == before.len() + 28 + data.len()
                &&& after.take(before.len() as int) == before
                &&& le_value(wire.subrange(0, 8)) == 20 + data.len()
                &&& le_value(wire.subrange(8, 10)) == item.sport
                &&& le_value(wire.subrange(10, 12)) == item.dport
                &&& le_value(wire.subrange(12, 16)) == (match item.flag {
                    Flag::Syn => 0int,
                    Flag::SynAck => 1,
                    Flag::Ack => 2,
                    Flag::Rst => 3,
                    Flag::Fin => 4,
                    Flag::Unset => 5,
                })
                &&& le_value(wire.subrange(16, 20)) == item.seq
                &&& le_value(wire.subrange(20, 28)) == data.len()
                &&& wire.skip(28) == data
            } else {
                &&& result matches Err(e)
                &&& e.fault == Fault::InvalidInput
                &&& e.unknown_flag is None
                &&& e.source is None
                &&& after == before
            }
        }),
{
    let before = buffer_view(*old(dst));
    let after = buffer_view(*final(dst));
    let wire = after.skip(before.len() as int);
    let frame = item@;
    if 20 + frame.data.len() <= old(encoder).config().max_frame_size {
        lemma_body_len(frame);
        lemma_le_limits();
        lemma_le_bytes_len(frame.body_len(), 8);
        lemma_le_bytes_len(frame.sport as nat, 2);
        lemma_le_bytes_len(frame.dport as nat, 2);
        lemma_le_bytes_len(frame.flag.code() as nat, 4);
        lemma_le_bytes_len(frame.seq as nat, 4);
        lemma_le_bytes_len(frame.data.len(), 8);
        lemma_le_value_of_bytes(frame.body_len(), 8);
        lemma_le_value_of_bytes(frame.sport as nat, 2);
        lemma_le_value_of_bytes(frame.dport as nat, 2);
        lemma_le_value_of_bytes(frame.flag.code() as nat, 4);
        lemma_le_value_of_bytes(frame.seq as nat, 4);
        lemma_le_value_of_bytes(frame.data.len(), 8);
        assert(wire =~= frame.encoded());
        assert(after.take(before.len() as int) =~= before);
        assert(wire.subrange(0, 8) =~= le_bytes(frame.body_len(), 8));
        assert(wire.subrange(8, 10) =~= le_bytes(frame.sport as nat, 2));
        assert(wire.subrange(10, 12) =~= le_bytes(frame.dport as nat, 2));
        assert(wire.subrange(12, 16) =~= le_bytes(frame.flag.code() as nat, 4));
        assert(wire.subrange(16, 20) =~= le_bytes(frame.seq as nat, 4));
        assert(wire.subrange(20, 28) =~= le_bytes(frame.data.len(), 8));
        assert(wire.skip(28) =~= frame.data);
    }
}

/// An announced length as the machine counts it: the number itself, wherever a `usize` can hold it.
pub open spec fn length(announced: nat) -> int {
    ((announced as u64) as usize) as int
}

/// Lengths that can be counted are counted right.
pub proof fn law_lengths_are_what_they_say(announced: nat)
    requires
        announced <= usize::MAX,
    ensures
        length(announced) == announced,
{
}

/// What decoding gives is what the bytes at their places say. Nothing comes, and nothing is taken,
/// while the announced length or any announced byte is missing; a length over the limit is refused
/// as soon as it is there, and nothing is taken; otherwise exactly the announced bytes are taken.
/// They are a frame if and only if all the fields are there, the number of the flag stands for one
/// and the data does not run over, and the frame then holds the numbers and the data at their
/// places. A number that stands for no flag is named.
pub proof fn law_decoded_frames_are_what_the_bytes_say(
    decoder: &mut FrameDecoder,
    src: &mut BytesMut,
    result: Result<Option<Frame>, CodecError>,
)
    requires
        call_ensures(FrameDecoder::decode, (decoder, src), result),
    ensures
        final(decoder).config() == old(decoder).config(),
        ({
            let max = old(decoder).config().max_frame_size;
            let s = buffer_view(*old(src));
            let rest = buffer_view(*final(src));
            let size = length(le_value(s.subrange(0, 8)));
            let flag = le_value(s.subrange(12, 16));
            let len = le_value(s.subrange(20, 28));
            if s.len() >= 8 && size > max {
                &&& result matches Err(e)
                &&& e.fault == Fault::InvalidInput
                &&& e.unknown_flag is None
                &&& e.source is None
                &&& rest == s
            } else if s.len() < 8 || s.len() < 8 + size {
                &&& result matches Ok(None)
                &&& rest == s
            } else if size >= 20 && len <= size - 20 && flag <= 5 {
                &&& result matches Ok(Some(frame))
                &&& frame.sport == le_value(s.subrange(8, 10))
                &&& frame.dport == le_value(s.subrange(10, 12))
                &&& flag == 0 <==> frame.flag == Flag::Syn
                &&& flag == 1 <==> frame.flag == Flag::SynAck
                &&& flag == 2 <==> frame.flag == Flag::Ack
                &&& flag == 3 <==> frame.flag == Flag::Rst
                &&& flag == 4 <==> frame.flag == Flag::Fin
                &&& flag == 5 <==> frame.flag == Flag::Unset
                &&& frame.seq == le_value(s.subrange(16, 20))
                &&& bytes_view(frame.data) == s.subrange(28, 28 + len as int)
                &&& rest == s.skip(8 + size)
            } else {
                &&& result matches Err(e)
                &&& e.fault == Fault::InvalidData
                &&& size >= 8 && flag > 5 ==> e.unknown_flag == Some(flag as u32)
                &&& size < 8 || flag <= 5 ==> e.unknown_flag is None
                &&& e.source is Some
                &&& rest == s.skip(8 + size)
            }
        }),
{
    let max = old(decoder).config().max_frame_size;
    let s = buffer_view(*old(src));
    let size = length(le_value(s.subrange(0, 8)));
    if s.len() >= 8 && size <= max && s.len() >= 8 + size {
        let body = s.subrange(8, 8 + size);
        if size >= 8 {
            assert(body.subrange(4, 8) =~= s.subrange(12, 16));
            law_numbers_are_little_endian(s.subrange(12, 16));
        }
        if size >= 20 {
            assert(body.subrange(0, 2) =~= s.subrange(8, 10));
            assert(body.subrange(2, 4) =~= s.subrange(10, 12));
            assert(body.subrange(8, 12) =~= s.subrange(16, 20));
            assert(body.subrange(12, 20) =~= s.subrange(20, 28));
            law_numbers_are_little_endian(s.subrange(8, 10));
            law_numbers_are_little_endian(s.subrange(10, 12));
            law_numbers_are_little_endian(s.subrange(16, 20));
            let len = le_value(s.subrange(20, 28));
            if len <= size - 20 {
                assert(body.subrange(20, 20 + len as int) =~= s.subrange(28, 28 + len as int));
            }
        }
    }
}

/// What one end encodes, the other end decodes: the same ports, flag, number and data, and what
/// stands behind the frame is left for the next call.
pub proof fn law_what_is_encoded_is_decoded(
    encoder: &mut FrameEncoder,
    item: Frame,
    dst: &mut BytesMut,
    encoded: Result<(), CodecError>,
    decoder: &mut FrameDecoder,
    src: &mut BytesMut,
    decoded: Result<Option<Frame>, CodecError>,
    behind: Seq<u8>,
)
    requires
        call_ensures(FrameEncoder::encode, (encoder, item, dst), encoded),
        encoded is Ok,
        bytes_view(item.data).len() <= usize::MAX - 20,
        old(encoder).config().max_frame_size <= old(decoder).config().max_frame_size,
        buffer_view(*old(src)) == buffer_view(*final(dst)).skip(
            buffer_view(*old(dst)).len() as int,
        ) + behind,
        call_ensures(FrameDecoder::decode, (decoder, src), decoded),
    ensures
        ({
            &&& decoded matches Ok(Some(frame))
            &&& frame.sport == item.sport
            &&& frame.dport == item.dport
            &&& frame.flag == item.flag
            &&& frame.seq == item.seq
            &&& bytes_view(frame.data) == bytes_view(item.data)
            &&& buffer_view(*final(src)) == behind
        }),
{
    law_encoded_bytes_stand_at_their_places(encoder, item, dst, encoded);
    let wire = buffer_view(*final(dst)).skip(buffer_view(*old(dst)).len() as int);
    let s = buffer_view(*old(src));
    assert(s.subrange(0, 8) =~= wire.subrange(0, 8));
    assert(s.subrange(8, 10) =~= wire.subrange(8, 10));
    assert(s.subrange(10, 12) =~= wire.subrange(10, 12));
    assert(s.subrange(12, 16) =~= wire.subrange(12, 16));
    assert(s.subrange(16, 20) =~= wire.subrange(16, 20));
    assert(s.subrange(20, 28) =~= wire.subrange(20, 28));
    assert(s.subrange(28, wire.len() as int) =~= wire.skip(28));
    assert(s.skip(wire.len() as int) =~= behind);
    law_decoded_frames_are_what_the_bytes_say(decoder, src, decoded);
}

/// Decoding and encoding can be called wherever what is announced or to be written can be held in
/// memory, and the calls that tell so are right.
pub proof fn law_codec_calls_are_admitted(
    decoder: &mut FrameDecoder,
    src: &mut BytesMut,
    holds: bool,
    encoder: &mut FrameEncoder,
    item: Frame,
    dst: &mut BytesMut,
    can: bool,
)
    requires
        call_ensures(FrameDecoder::can_hold, (&*decoder, &*src), holds),
        call_ensures(FrameEncoder::can_append, (&*encoder, &item, &*dst), can),
    ensures
        ({
            let s = buffer_view(*old(src));
            let max = old(decoder).config().max_frame_size;
            let size = length(le_value(s.subrange(0, 8)));
            holds <==> s.len() < 8 || size > max || 8 + size <= isize::MAX
        }),
        holds ==> call_requires(FrameDecoder::decode, (decoder, src)),
        ({
            let size = 20 + bytes_view(item.data).len();
            let max = old(encoder).config().max_frame_size;
            can <==> size <= isize::MAX && (size > max || buffer_view(*old(dst)).len() + 8 + size
                <= isize::MAX)
        }),
        can ==> call_requires(FrameEncoder::encode, (encoder, item, dst)),
{
}

/// Everything else about frames can be called with anything.
pub proof fn law_frame_calls_are_admitted(
    frame: &Frame,
    flag: Flag,
    sport: u16,
    dport: u16,
    seq: u32,
    data: &[u8],
    number: u64,
    config: StreamMultiplexorConfig,
    decoder: &FrameDecoder,
    src: &BytesMut,
    encoder: &FrameEncoder,
    fields: Result<(u16, u16, u32, u32, Bytes), Box<bincode::ErrorKind>>,
)
    ensures
        call_requires(Frame::new_no_data, (sport, dport, flag, seq)),
        call_requires(Frame::new_init, (sport, dport, flag)),
        call_requires(Frame::new_reply, (frame, flag, seq)),
        call_requires(Frame::new_data, (sport, dport, seq, data)),
        call_requires(Frame::text, (frame,)),
        call_requires(Flag::to_code, (flag,)),
        call_requires(Flag::from_code, (seq,)),
        call_requires(Flag::to_name, (flag,)),
        call_requires(decimal_text, (number,)),
        call_requires(u64_to_le, (number,)),
        data@.len() == 8 ==> call_requires(u64_from_le, (data,)),
        data@.len() == 4 ==> call_requires(u32_from_le, (data,)),
        call_requires(FrameDecoder::new, (config,)),
        call_requires(FrameDecoder::can_hold, (decoder, src)),
        call_requires(FrameEncoder::new, (config,)),
        call_requires(FrameEncoder::can_append, (encoder, frame, src)),
        call_requires(read_body, (data, fields)),
{
}

/// Fields that were read make the frame that they name, and an error of reading them is handed on,
/// unless a number that stands for no flag came before it in the body.
pub proof fn law_fields_make_their_frame(
    body: &[u8],
    fields: Result<(u16, u16, u32, u32, Bytes), Box<bincode::ErrorKind>>,
    result: Result<Frame, CodecError>,
)
    requires
        call_ensures(read_body, (body, fields), result),
    ensures
        fields matches Ok((sport, dport, code, seq, data)) ==> {
            &&& code <= 5 <==> result is Ok
            &&& result matches Ok(frame) ==> {
                &&& frame.sport == sport
                &&& frame.dport == dport
                &&& frame.flag.code() == code
                &&& frame.seq == seq
                &&& frame.data == data
            }
            &&& result matches Err(e) ==> e.fault == Fault::InvalidData && e.unknown_flag == Some(
                code,
            ) && e.source is Some
        },
        fields matches Err(error) ==> {
            let flag = body@[4] + 0x100 * body@[5] + 0x1_0000 * body@[6] + 0x100_0000 * body@[7];
            &&& result matches Err(e)
            &&& e.fault == Fault::InvalidData
            &&& e.source is Some
            &&& if body@.len() >= 8 && flag > 5 {
                e.unknown_flag == Some(flag as u32)
            } else {
                e.unknown_flag is None && e.source == Some(error)
            }
        },
{
    law_numbers_are_little_endian(body@.subrange(4, 8));
}

} // verus!
