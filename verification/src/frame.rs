//! Frames, the unit of the protocol, and their form on the wire: a frame is a length in eight
//! little-endian bytes, and that many bytes of packed fields.

use std::fmt::{Debug, Formatter};

use bytes::{Bytes, BytesMut};
use vstd::prelude::*;
use vstd::slice::{slice_subrange, slice_to_vec};

use crate::config::StreamMultiplexorConfig;
use crate::error::{CodecError, Fault};
use crate::outside::{
    bincode_deserialize, bincode_serialize, buffer_advance, buffer_slice, buffer_view, bytes_view,
    invalid_number, packed, unpacked,
};
use crate::text::{decimal, decimal_text};
use crate::wire::{le_bytes, le_value, lemma_le_bytes_len, u32_from_le, u64_from_le, u64_to_le};

verus! {

/// What a frame is for.
#[derive(Copy, Clone, Debug, PartialEq, Eq, Structural)]
pub enum Flag {
    /// Asks for a connection.
    Syn,
    /// Accepts one.
    SynAck,
    /// Confirms it.
    Ack,
    /// Refuses or breaks a connection.
    Rst,
    /// Ends a connection.
    Fin,
    /// Carries data.
    Unset,
}

impl Flag {
    /// The number that stands for the flag on the wire.
    pub open spec fn code(self) -> u32 {
        match self {
            Flag::Syn => 0,
            Flag::SynAck => 1,
            Flag::Ack => 2,
            Flag::Rst => 3,
            Flag::Fin => 4,
            Flag::Unset => 5,
        }
    }

    /// The flag that a number on the wire stands for.
    pub open spec fn of_code(code: u32) -> Option<Flag> {
        if code == 0 {
            Some(Flag::Syn)
        } else if code == 1 {
            Some(Flag::SynAck)
        } else if code == 2 {
            Some(Flag::Ack)
        } else if code == 3 {
            Some(Flag::Rst)
        } else if code == 4 {
            Some(Flag::Fin)
        } else if code == 5 {
            Some(Flag::Unset)
        } else {
            None
        }
    }

    /// The name of the flag.
    pub open spec fn name(self) -> Seq<char> {
        match self {
            Flag::Syn => "Syn"@,
            Flag::SynAck => "SynAck"@,
            Flag::Ack => "Ack"@,
            Flag::Rst => "Rst"@,
            Flag::Fin => "Fin"@,
            Flag::Unset => "Unset"@,
        }
    }

    /// Gives the flag its name.
    pub fn to_name(self) -> (name: &'static str)
        ensures
            name@ == self.name(),
    {
        match self {
            Flag::Syn => "Syn",
            Flag::SynAck => "SynAck",
            Flag::Ack => "Ack",
            Flag::Rst => "Rst",
            Flag::Fin => "Fin",
            Flag::Unset => "Unset",
        }
    }

    /// Gives the flag its number.
    pub fn to_code(self) -> (code: u32)
        ensures
            code == self.code(),
    {
        match self {
            Flag::Syn => 0,
            Flag::SynAck => 1,
            Flag::Ack => 2,
            Flag::Rst => 3,
            Flag::Fin => 4,
            Flag::Unset => 5,
        }
    }

    /// Gives a number its flag.
    pub fn from_code(code: u32) -> (flag: Option<Flag>)
        ensures
            flag == Flag::of_code(code),
    {
        match code {
            0 => Some(Flag::Syn),
            1 => Some(Flag::SynAck),
            2 => Some(Flag::Ack),
            3 => Some(Flag::Rst),
            4 => Some(Flag::Fin),
            5 => Some(Flag::Unset),
            _ => None,
        }
    }
}

/// A message between two multiplexors. `sport` is a port of the sender, `dport` one of the
/// receiver.
pub struct Frame {
    pub sport: u16,
    pub dport: u16,
    pub flag: Flag,
    pub seq: u32,
    pub data: Bytes,
}

impl Debug for Frame {
    fn fmt(&self, f: &mut Formatter<'_>) -> (result: std::fmt::Result) {
        f.debug_struct("Frame").field("sport", &self.sport).field("dport", &self.dport).field(
            "flag",
            &self.flag,
        ).field("seq", &self.seq).field("data.len", &self.data.len()).finish()
    }
}

/// A frame as a mathematical value.
#[verifier::ext_equal]
pub struct FrameView {
    pub sport: u16,
    pub dport: u16,
    pub flag: Flag,
    pub seq: u32,
    pub data: Seq<u8>,
}

impl View for Frame {
    type V = FrameView;

    open spec fn view(&self) -> FrameView {
        FrameView {
            sport: self.sport,
            dport: self.dport,
            flag: self.flag,
            seq: self.seq,
            data: bytes_view(self.data),
        }
    }
}

impl FrameView {
    /// A frame that carries no data.
    pub open spec fn bare(sport: u16, dport: u16, flag: Flag, seq: u32) -> FrameView {
        FrameView { sport, dport, flag, seq, data: Seq::empty() }
    }

    /// A bare frame back to where this one came from.
    pub open spec fn reply(self, flag: Flag, seq: u32) -> FrameView {
        FrameView::bare(self.dport, self.sport, flag, seq)
    }

    /// The frame in words: its fields, and of its data the length.
    pub open spec fn text(self) -> Seq<char> {
        "Frame { sport: "@ + decimal(self.sport as nat) + ", dport: "@ + decimal(self.dport as nat)
            + ", flag: "@ + self.flag.name() + ", seq: "@ + decimal(self.seq as nat)
            + ", data.len: "@ + decimal(self.data.len()) + " }"@
    }

    /// The packed fields of the frame.
    pub open spec fn body(self) -> Seq<u8> {
        packed(self.sport, self.dport, self.flag.code(), self.seq, self.data)
    }

    /// How many bytes the packed fields take.
    pub open spec fn body_len(self) -> nat {
        20 + self.data.len()
    }

    /// The frame on the wire.
    pub open spec fn encoded(self) -> Seq<u8> {
        le_bytes(self.body_len(), 8) + self.body()
    }
}

impl Frame {
    /// A frame without data.
    pub fn new_no_data(sport: u16, dport: u16, flag: Flag, seq: u32) -> (frame: Self)
        ensures
            frame@ == FrameView::bare(sport, dport, flag, seq),
    {
        Frame { sport, dport, flag, seq, data: Bytes::new() }
    }

    /// The first frame of a conversation: no data, sequence number zero.
    pub fn new_init(sport: u16, dport: u16, flag: Flag) -> (frame: Self)
        ensures
            frame@ == FrameView::bare(sport, dport, flag, 0),
    {
        Frame { sport, dport, flag, seq: 0, data: Bytes::new() }
    }

    /// A frame without data back to the sender of `frame`.
    pub fn new_reply(frame: &Frame, flag: Flag, seq: u32) -> (reply: Self)
        ensures
            reply@ == frame@.reply(flag, seq),
    {
        Frame { sport: frame.dport, dport: frame.sport, flag, seq, data: Bytes::new() }
    }

    /// A frame that carries a copy of `data`.
    pub fn new_data(sport: u16, dport: u16, seq: u32, data: &[u8]) -> (frame: Self)
        ensures
            frame@ == (FrameView { sport, dport, flag: Flag::Unset, seq, data: data@ }),
    {
        Frame { sport, dport, flag: Flag::Unset, seq, data: Bytes::copy_from_slice(data) }
    }
}

impl Frame {
    /// The frame in words, as `Debug` puts it on one line: its fields, and of its data the length.
    pub fn text(&self) -> (text: String)
        ensures
            text@ == self@.text(),
    {
        let mut text: String = String::new();
        text.append("Frame { sport: ");
        text.append(decimal_text(self.sport as u64).as_str());
        text.append(", dport: ");
        text.append(decimal_text(self.dport as u64).as_str());
        text.append(", flag: ");
        text.append(self.flag.to_name());
        text.append(", seq: ");
        text.append(decimal_text(self.seq as u64).as_str());
        text.append(", data.len: ");
        text.append(decimal_text(self.data.len() as u64).as_str());
        text.append(" }");
        proof {
            assert(text@ =~= self@.text());
        }
        text
    }
}

/// The number in the place of the flag, where the front of `body` holds one that stands for none.
pub open spec fn unknown_flag(body: Seq<u8>) -> Option<u32> {
    let code = le_value(body.subrange(4, 8)) as u32;
    if body.len() >= 8 && Flag::of_code(code) is None {
        Some(code)
    } else {
        None
    }
}

/// The frame whose packed fields `body` starts with, if it does.
pub open spec fn parsed(body: Seq<u8>) -> Option<FrameView> {
    match unpacked(body) {
        Some((sport, dport, code, seq, data)) => match Flag::of_code(code) {
            Some(flag) => Some(FrameView { sport, dport, flag, seq, data }),
            None => None,
        },
        None => None,
    }
}

/// The length that the first eight bytes of `s` announce.
pub open spec fn announced(s: Seq<u8>) -> usize {
    (le_value(s.subrange(0, 8)) as u64) as usize
}

/// The error for a number that stands for no flag.
fn stray_flag(code: u32) -> (error: CodecError)
    ensures
        error.fault == Fault::InvalidData,
        error.unknown_flag == Some(code),
        error.source is Some,
{
    CodecError {
        fault: Fault::InvalidData,
        unknown_flag: Some(code),
        source: Some(invalid_number(code as u64, "variant index 0 <= i < 6")),
    }
}

/// Makes a frame of the fields that were read from `body`. A number that stands for no flag is to
/// blame before anything that comes behind it in the body; otherwise the error of reading the
/// fields is handed on.
pub fn read_body(
    body: &[u8],
    fields: Result<(u16, u16, u32, u32, Bytes), Box<bincode::ErrorKind>>,
) -> (result: Result<Frame, CodecError>)
    ensures
        match fields {
            Ok((sport, dport, code, seq, data)) => match Flag::of_code(code) {
                Some(flag) => result == Ok::<Frame, CodecError>(
                    Frame { sport, dport, flag, seq, data },
                ),
                None => {
                    &&& result matches Err(e)
                    &&& e.fault == Fault::InvalidData
                    &&& e.unknown_flag == Some(code)
                    &&& e.source is Some
                },
            },
            Err(error) => match unknown_flag(body@) {
                Some(code) => {
                    &&& result matches Err(e)
                    &&& e.fault == Fault::InvalidData
                    &&& e.unknown_flag == Some(code)
                    &&& e.source is Some
                },
                None => result == Err::<Frame, CodecError>(
                    CodecError {
                        fault: Fault::InvalidData,
                        unknown_flag: None,
                        source: Some(error),
                    },
                ),
            },
        },
{
    match fields {
        Ok((sport, dport, code, seq, data)) => match Flag::from_code(code) {
            Some(flag) => Ok(Frame { sport, dport, flag, seq, data }),
            None => Err(stray_flag(code)),
        },
        Err(error) => {
            if body.len() >= 8 {
                let code: u32 = u32_from_le(slice_subrange(body, 4, 8));
                if Flag::from_code(code).is_none() {
                    return Err(stray_flag(code));
                }
            }
            Err(CodecError { fault: Fault::InvalidData, unknown_flag: None, source: Some(error) })
        },
    }
}

/// What the front of a byte stream comes to, with `max` bytes as the limit for a frame.
pub enum Decoded {
    /// The frame has not arrived in full.
    Partial,
    /// A longer frame is announced than the limit allows.
    TooLong,
    /// As many bytes have arrived as were announced, and they hold no frame: `flag` is a number
    /// that stands for no flag, or else they end too early.
    Garbled { flag: Option<u32>, rest: Seq<u8> },
    /// A frame has arrived.
    Whole { frame: FrameView, rest: Seq<u8> },
}

/// Reads the front of a byte stream.
pub open spec fn decoded(max: usize, s: Seq<u8>) -> Decoded {
    if s.len() < 8 {
        Decoded::Partial
    } else if announced(s) > max {
        Decoded::TooLong
    } else if s.len() < 8 + announced(s) {
        Decoded::Partial
    } else {
        let body = s.subrange(8, 8 + announced(s));
        let rest = s.skip(8 + announced(s));
        match parsed(body) {
            Some(frame) => Decoded::Whole { frame, rest },
            None => Decoded::Garbled { flag: unknown_flag(body), rest },
        }
    }
}

/// No frame within the limit is announced that the address space could not hold.
pub open spec fn addressable(max: usize, s: Seq<u8>) -> bool {
    s.len() >= 8 && announced(s) <= max ==> 8 + announced(s) <= isize::MAX
}

/// The packed fields of the frame can be held in memory and, if they are within the limit, so can
/// the frame behind `taken` other bytes.
pub open spec fn appendable(max: usize, frame: FrameView, taken: nat) -> bool {
    &&& frame.body_len() <= isize::MAX
    &&& frame.body_len() <= max ==> taken + 8 + frame.body_len() <= isize::MAX
}

/// Takes frames from the front of a byte stream.
pub struct FrameDecoder {
    config: StreamMultiplexorConfig,
}

impl Debug for FrameDecoder {
    fn fmt(&self, f: &mut Formatter<'_>) -> (result: std::fmt::Result) {
        f.debug_struct("FrameDecoder").field("id", &self.config.identifier).finish()
    }
}

impl FrameDecoder {
    /// The configuration that the decoder was made with.
    pub closed spec fn config(&self) -> StreamMultiplexorConfig {
        self.config
    }

    /// A decoder with the limits of `config`.
    pub fn new(config: StreamMultiplexorConfig) -> (decoder: Self)
        ensures
            decoder.config() == config,
    {
        FrameDecoder { config }
    }

    /// Whether the frame that `src` announces, if it is within the limit, could be held in memory.
    pub fn can_hold(&self, src: &BytesMut) -> (holds: bool)
        ensures
            holds == addressable(self.config().max_frame_size, buffer_view(*src)),
    {
        if src.len() < 8 {
            return true;
        }
        let length: u64 = u64_from_le(slice_subrange(buffer_slice(src), 0, 8));
        length as usize > self.config.max_frame_size || length as usize <= isize::MAX as usize - 8
    }

    /// Takes the next frame from `src`, if all of it is there. A frame over the limit is an error
    /// and stays in `src`; bytes that hold no frame are an error and are dropped.
    pub fn decode(&mut self, src: &mut BytesMut) -> (result: Result<Option<Frame>, CodecError>)
        requires
            addressable(old(self).config().max_frame_size, buffer_view(*old(src))),
        ensures
            final(self).config() == old(self).config(),
            match decoded(old(self).config().max_frame_size, buffer_view(*old(src))) {
                Decoded::Partial => {
                    &&& result matches Ok(None)
                    &&& buffer_view(*final(src)) == buffer_view(*old(src))
                },
                Decoded::TooLong => {
                    &&& result matches Err(e) && e.fault == Fault::InvalidInput
                        && e.unknown_flag is None && e.source is None
                    &&& buffer_view(*final(src)) == buffer_view(*old(src))
                },
                Decoded::Garbled { flag, rest } => {
                    &&& result matches Err(e) && e.fault == Fault::InvalidData && e.unknown_flag
                        == flag && e.source is Some
                    &&& buffer_view(*final(src)) == rest
                },
                Decoded::Whole { frame, rest } => {
                    &&& result matches Ok(Some(f)) && f@ == frame
                    &&& buffer_view(*final(src)) == rest
                },
            },
    {
        if src.len() < 8 {
            return Ok(None);
        }
        let ghost s = buffer_view(*src);
        let length: u64 = u64_from_le(slice_subrange(buffer_slice(src), 0, 8));
        if length as usize > self.config.max_frame_size {
            return Err(CodecError::too_long());
        }
        let size: usize = length as usize;
        if src.len() < 8 + size {
            let missing: usize = 8 + size - src.len();
            src.reserve(missing);
            return Ok(None);
        }
        buffer_advance(src, 8);
        let data: Vec<u8> = slice_to_vec(slice_subrange(buffer_slice(src), 0, size));
        buffer_advance(src, size);
        proof {
            assert(data@ =~= s.subrange(8, 8 + size as int));
            assert(buffer_view(*src) =~= s.skip(8 + size as int));
        }
        match read_body(data.as_slice(), bincode_deserialize(data.as_slice())) {
            Ok(frame) => Ok(Some(frame)),
            Err(error) => Err(error),
        }
    }
}

/// Appends frames to a byte stream.
pub struct FrameEncoder {
    config: StreamMultiplexorConfig,
}

impl Debug for FrameEncoder {
    fn fmt(&self, f: &mut Formatter<'_>) -> (result: std::fmt::Result) {
        f.debug_struct("FrameEncoder").field("id", &self.config.identifier).finish()
    }
}

impl FrameEncoder {
    /// The configuration that the encoder was made with.
    pub closed spec fn config(&self) -> StreamMultiplexorConfig {
        self.config
    }

    /// An encoder with the limits of `config`.
    pub fn new(config: StreamMultiplexorConfig) -> (encoder: Self)
        ensures
            encoder.config() == config,
    {
        FrameEncoder { config }
    }

    /// Whether the packed fields of `item`, and what `dst` is to hold with them, could be held in
    /// memory.
    pub fn can_append(&self, item: &Frame, dst: &BytesMut) -> (can: bool)
        ensures
            can == appendable(self.config().max_frame_size, item@, buffer_view(*dst).len()),
    {
        let limit: usize = isize::MAX as usize;
        let len: usize = item.data.len();
        if len > limit - 20 {
            return false;
        }
        20 + len > self.config.max_frame_size || (dst.len() <= limit && 8 <= limit - dst.len()
            && 20 + len <= limit - dst.len() - 8)
    }

    /// Appends `item` to `dst`. A frame over the limit is an error and leaves `dst` as it was.
    pub fn encode(&mut self, item: Frame, dst: &mut BytesMut) -> (result: Result<(), CodecError>)
        requires
            appendable(old(self).config().max_frame_size, item@, buffer_view(*old(dst)).len()),
        ensures
            final(self).config() == old(self).config(),
            result is Ok <==> item@.body_len() <= old(self).config().max_frame_size,
            result is Ok ==> buffer_view(*final(dst)) == buffer_view(*old(dst)) + item@.encoded(),
            result matches Err(e) ==> {
                &&& e.fault == Fault::InvalidInput
                &&& e.unknown_flag is None
                &&& e.source is None
                &&& buffer_view(*final(dst)) == buffer_view(*old(dst))
            },
    {
        match bincode_serialize(item.sport, item.dport, item.flag.to_code(), item.seq, &item.data) {
            Ok(encoded) => {
                proof {
                    lemma_body_len(item@);
                }
                let len: usize = encoded.len();
                if len > self.config.max_frame_size {
                    return Err(CodecError::too_long());
                }
                proof {
                    lemma_le_bytes_len(len as nat, 8);
                }
                dst.reserve(8 + len);
                let prefix: Vec<u8> = u64_to_le(len as u64);
                dst.extend_from_slice(prefix.as_slice());
                dst.extend_from_slice(encoded.as_slice());
                proof {
                    assert(buffer_view(*dst) =~= buffer_view(*old(dst)) + item@.encoded());
                }
                Ok(())
            },
            Err(e) => Err(
                CodecError { fault: Fault::InvalidInput, unknown_flag: None, source: Some(e) },
            ),
        }
    }
}

/// The packed fields take as many bytes as is said of them.
pub proof fn lemma_body_len(frame: FrameView)
    ensures
        frame.body().len() == frame.body_len(),
{
    lemma_le_bytes_len(frame.sport as nat, 2);
    lemma_le_bytes_len(frame.dport as nat, 2);
    lemma_le_bytes_len(frame.flag.code() as nat, 4);
    lemma_le_bytes_len(frame.seq as nat, 4);
    lemma_le_bytes_len(frame.data.len(), 8);
}

} // verus!
