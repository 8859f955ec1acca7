//! Laws of the wire format.

use vstd::prelude::*;

use crate::config::StreamMultiplexorConfig;
use crate::frame::{announced, decoded, lemma_body_len, Decoded, Flag, FrameView};
use crate::outside::{packed, unpacked};
use crate::socket::MuxSocket;
use crate::wire::{
    le_bytes, le_limit, le_value, lemma_le_bytes_len, lemma_le_limits, lemma_le_value_of_bytes,
};

verus! {

/// Flags and their numbers on the wire stand for each other.
pub proof fn law_flag_codes(flag: Flag, code: u32)
    ensures
        Flag::of_code(flag.code()) == Some(flag),
        Flag::of_code(code) == Some(flag) ==> code == flag.code(),
        Flag::of_code(code) is None <==> code > 5,
{
}

/// A number of this width is read back from where it was written.
proof fn lemma_field(s: Seq<u8>, from: int, value: nat, width: nat)
    requires
        0 <= from,
        from + width <= s.len(),
        value < le_limit(width),
        s.subrange(from, from + width) == le_bytes(value, width),
    ensures
        le_value(s.subrange(from, from + width)) == value,
{
    lemma_le_value_of_bytes(value, width);
}

/// Packed fields are read back, whatever stands behind them.
pub proof fn law_packed_fields_are_read_back(
    a: u16,
    b: u16,
    c: u32,
    d: u32,
    data: Seq<u8>,
    behind: Seq<u8>,
)
    requires
        data.len() <= u64::MAX,
    ensures
        unpacked(packed(a, b, c, d, data) + behind) == Some((a, b, c, d, data)),
{
    let s = packed(a, b, c, d, data) + behind;
    lemma_le_limits();
    lemma_le_bytes_len(a as nat, 2);
    lemma_le_bytes_len(b as nat, 2);
    lemma_le_bytes_len(c as nat, 4);
    lemma_le_bytes_len(d as nat, 4);
    lemma_le_bytes_len(data.len(), 8);
    assert(s.subrange(0, 2) =~= le_bytes(a as nat, 2));
    assert(s.subrange(2, 4) =~= le_bytes(b as nat, 2));
    assert(s.subrange(4, 8) =~= le_bytes(c as nat, 4));
    assert(s.subrange(8, 12) =~= le_bytes(d as nat, 4));
    assert(s.subrange(12, 20) =~= le_bytes(data.len(), 8));
    lemma_field(s, 0, a as nat, 2);
    lemma_field(s, 2, b as nat, 2);
    lemma_field(s, 4, c as nat, 4);
    lemma_field(s, 8, d as nat, 4);
    lemma_field(s, 12, data.len(), 8);
    assert(s.subrange(20, 20 + data.len() as int) =~= data);
}

/// The eight bytes in front of a frame announce how long it is.
proof fn lemma_announced(frame: FrameView, s: Seq<u8>)
    requires
        frame.body_len() <= usize::MAX,
        s.len() >= 8,
        s.subrange(0, 8) == le_bytes(frame.body_len(), 8),
    ensures
        announced(s) == frame.body_len(),
{
    lemma_le_limits();
    lemma_le_value_of_bytes(frame.body_len(), 8);
}

/// A frame that was written within the limit is read back as it was, and nothing behind it is
/// touched.
pub proof fn law_encoded_frame_is_decoded(max: usize, frame: FrameView, behind: Seq<u8>)
    requires
        frame.body_len() <= max,
    ensures
        decoded(max, frame.encoded() + behind) == (Decoded::Whole { frame, rest: behind }),
{
    let s = frame.encoded() + behind;
    lemma_body_len(frame);
    lemma_le_bytes_len(frame.body_len(), 8);
    assert(s.subrange(0, 8) =~= le_bytes(frame.body_len(), 8));
    lemma_announced(frame, s);
    let size = frame.body_len() as int;
    assert(s.subrange(8, 8 + size) =~= frame.body() + Seq::<u8>::empty());
    law_packed_fields_are_read_back(
        frame.sport,
        frame.dport,
        frame.flag.code(),
        frame.seq,
        frame.data,
        Seq::empty(),
    );
    law_flag_codes(frame.flag, frame.flag.code());
    assert(s.skip(8 + size) =~= behind);
}

/// As long as a byte of a frame is missing, the reader waits.
pub proof fn law_cut_frame_is_partial(max: usize, frame: FrameView, len: int)
    requires
        frame.body_len() <= max,
        0 <= len < frame.encoded().len(),
    ensures
        decoded(max, frame.encoded().take(len)) is Partial,
{
    let s = frame.encoded().take(len);
    lemma_body_len(frame);
    lemma_le_bytes_len(frame.body_len(), 8);
    if len >= 8 {
        assert(s.subrange(0, 8) =~= le_bytes(frame.body_len(), 8));
        lemma_announced(frame, s);
    }
}

/// A frame over the limit is turned away as soon as its length has arrived.
pub proof fn law_long_frame_is_turned_away(max: usize, frame: FrameView, behind: Seq<u8>)
    requires
        max < frame.body_len() <= usize::MAX,
    ensures
        decoded(max, frame.encoded().take(8) + behind) is TooLong,
{
    let s = frame.encoded().take(8) + behind;
    lemma_body_len(frame);
    lemma_le_bytes_len(frame.body_len(), 8);
    assert(s.subrange(0, 8) =~= le_bytes(frame.body_len(), 8));
    lemma_announced(frame, s);
}

/// What has arrived in full does not change by what arrives after it.
pub proof fn law_decoding_looks_no_further(max: usize, s: Seq<u8>, behind: Seq<u8>)
    ensures
        match decoded(max, s) {
            Decoded::Partial => true,
            Decoded::TooLong => decoded(max, s + behind) is TooLong,
            Decoded::Garbled { flag, rest } => decoded(max, s + behind) == (Decoded::Garbled {
                flag,
                rest: rest + behind,
            }),
            Decoded::Whole { frame, rest } => decoded(max, s + behind) == (Decoded::Whole {
                frame,
                rest: rest + behind,
            }),
        },
{
    if s.len() >= 8 {
        let t = s + behind;
        assert(t.subrange(0, 8) =~= s.subrange(0, 8));
        let size = announced(s) as int;
        if size <= max && s.len() >= 8 + size {
            assert(t.subrange(8, 8 + size) =~= s.subrange(8, 8 + size));
            assert(t.skip(8 + size) =~= s.skip(8 + size) + behind);
        }
    }
}

/// Frames on the wire, one behind the other.
pub open spec fn encoded_all(frames: Seq<FrameView>) -> Seq<u8>
    decreases frames.len(),
{
    if frames.len() == 0 {
        Seq::empty()
    } else {
        frames[0].encoded() + encoded_all(frames.drop_first())
    }
}

/// The frames that a reader takes from the front of a byte stream one after the other, and what is
/// then left.
pub open spec fn decoded_all(max: usize, s: Seq<u8>) -> (Seq<FrameView>, Seq<u8>)
    decreases s.len(),
{
    match decoded(max, s) {
        Decoded::Whole { frame, rest } => {
            let (frames, left) = decoded_all(max, rest);
            (seq![frame] + frames, left)
        },
        _ => (Seq::empty(), s),
    }
}

/// Frames that were written one behind the other are read back in that order, and nothing else is.
pub proof fn law_encoded_frames_are_decoded(max: usize, frames: Seq<FrameView>, behind: Seq<u8>)
    requires
        forall|i: int| 0 <= i < frames.len() ==> (#[trigger] frames[i]).body_len() <= max,
    ensures
        decoded_all(max, encoded_all(frames) + behind) == (
            frames + decoded_all(max, behind).0,
            decoded_all(max, behind).1,
        ),
    decreases frames.len(),
{
    if frames.len() == 0 {
        assert(encoded_all(frames) + behind =~= behind);
        assert(frames + decoded_all(max, behind).0 =~= decoded_all(max, behind).0);
    } else {
        let later = frames.drop_first();
        let s = encoded_all(frames) + behind;
        assert(s =~= frames[0].encoded() + (encoded_all(later) + behind));
        law_encoded_frame_is_decoded(max, frames[0], encoded_all(later) + behind);
        law_encoded_frames_are_decoded(max, later, behind);
        assert(seq![frames[0]] + (later + decoded_all(max, behind).0) =~= frames + decoded_all(
            max,
            behind,
        ).0);
    }
}

/// It makes no difference where the stream below cuts the bytes: what is read from a first part,
/// and then from what was left of it with a second part behind, is what is read from both at once.
pub proof fn law_cuts_make_no_difference(max: usize, first: Seq<u8>, second: Seq<u8>)
    ensures
        decoded_all(max, first + second) == (
            decoded_all(max, first).0 + decoded_all(max, decoded_all(max, first).1 + second).0,
            decoded_all(max, decoded_all(max, first).1 + second).1,
        ),
    decreases first.len(),
{
    let (frames, left) = decoded_all(max, first);
    match decoded(max, first) {
        Decoded::Whole { frame, rest } => {
            law_decoding_looks_no_further(max, first, second);
            law_cuts_make_no_difference(max, rest, second);
            let (later, rest_left) = decoded_all(max, rest);
            assert(seq![frame] + (later + decoded_all(max, rest_left + second).0) =~= frames
                + decoded_all(max, left + second).0);
        },
        _ => {
            assert(frames + decoded_all(max, left + second).0 =~= decoded_all(
                max,
                left + second,
            ).0);
        },
    }
}

/// Where a read and the fields around it fit into a frame, everything that is read from a stream
/// can be sent.
pub proof fn law_reads_fit(config: StreamMultiplexorConfig, socket: MuxSocket, data: Seq<u8>)
    requires
        config.buf_size + 20 <= config.max_frame_size,
        data.len() <= config.buf_size,
    ensures
        socket.data_frame(data).body_len() <= config.max_frame_size,
{
}

} // verus!
