//! What the library takes from other crates, and what it believes of it.

use std::fmt::{Debug, DebugStruct, Formatter};

use bytes::{Buf, Bytes, BytesMut};
use rand::Rng;
use vstd::prelude::*;

use crate::wire::{le_bytes, le_value};

verus! {

/// A shared, immutable byte string of the `bytes` crate.
#[verifier::external_type_specification]
#[verifier::external_body]
pub struct ExBytes(bytes::Bytes);

/// A growable byte buffer of the `bytes` crate.
#[verifier::external_type_specification]
#[verifier::external_body]
pub struct ExBytesMut(bytes::BytesMut);

/// What the `bincode` crate reports of bytes that it could not read or write.
#[verifier::external_type_specification]
#[verifier::external_body]
pub struct ExBincodeErrorKind(bincode::ErrorKind);

/// Where formatted text goes.
#[verifier::external_type_specification]
#[verifier::external_body]
pub struct ExFormatter<'a>(std::fmt::Formatter<'a>);

/// What came of formatting, where it failed.
#[verifier::external_type_specification]
#[verifier::external_body]
pub struct ExFormatError(std::fmt::Error);

/// The text of a struct while its fields are being added.
#[verifier::external_type_specification]
#[verifier::external_body]
pub struct ExDebugStruct<'a, 'b>(std::fmt::DebugStruct<'a, 'b>) where 'b: 'a;

/// The bytes that a `Bytes` holds.
pub uninterp spec fn bytes_view(bytes: Bytes) -> Seq<u8>;

/// The bytes that a `BytesMut` holds, not counting spare room.
pub uninterp spec fn buffer_view(buffer: BytesMut) -> Seq<u8>;

/// `Bytes::new` makes an empty byte string.
pub assume_specification[ bytes::Bytes::new ]() -> (bytes: Bytes)
    ensures
        bytes_view(bytes) == Seq::<u8>::empty(),
;

/// `Bytes::copy_from_slice` makes a byte string with the slice's bytes.
pub assume_specification[ bytes::Bytes::copy_from_slice ](data: &[u8]) -> (bytes: Bytes)
    ensures
        bytes_view(bytes) == data@,
;

/// `Bytes::len` counts the bytes in the byte string.
pub assume_specification[ bytes::Bytes::len ](bytes: &Bytes) -> (len: usize)
    ensures
        len == bytes_view(*bytes).len(),
;

/// `BytesMut::len` counts the bytes in the buffer.
pub assume_specification[ bytes::BytesMut::len ](buffer: &BytesMut) -> (len: usize)
    ensures
        len == buffer_view(*buffer).len(),
;

/// `BytesMut::reserve` makes room behind the bytes and leaves them as they are. It panics where
/// the room cannot be addressed. Room that the buffer still keeps in front of its bytes counts
/// towards that, and goes unsaid here, as does memory that runs out.
pub assume_specification[ bytes::BytesMut::reserve ](buffer: &mut BytesMut, additional: usize)
    requires
        buffer_view(*old(buffer)).len() + additional <= isize::MAX,
    ensures
        buffer_view(*final(buffer)) == buffer_view(*old(buffer)),
;

/// `BytesMut::extend_from_slice` appends the slice. It makes room as `reserve` does, and panics
/// where that does.
pub assume_specification[ bytes::BytesMut::extend_from_slice ](buffer: &mut BytesMut, extend: &[u8])
    requires
        buffer_view(*old(buffer)).len() + extend@.len() <= isize::MAX,
    ensures
        buffer_view(*final(buffer)) == buffer_view(*old(buffer)) + extend@,
;

/// `BytesMut`'s `Buf::advance` drops `count` bytes from the front. It panics where there are fewer.
#[verifier::external_body]
pub(crate) fn buffer_advance(buffer: &mut BytesMut, count: usize)
    requires
        count <= buffer_view(*old(buffer)).len(),
    ensures
        buffer_view(*final(buffer)) == buffer_view(*old(buffer)).skip(count as int),
{
    buffer.advance(count)
}

/// `BytesMut`'s `AsRef<[u8]>` lends the bytes in the buffer.
#[verifier::external_body]
pub(crate) fn buffer_slice(buffer: &BytesMut) -> (slice: &[u8])
    ensures
        slice@ == buffer_view(*buffer),
{
    buffer.as_ref()
}

/// How `bincode`'s default functions write two `u16`, two `u32` and a byte string: each number
/// little-endian in its full width, then the length of the byte string as a `u64` and its bytes,
/// with nothing in between.
pub open spec fn packed(a: u16, b: u16, c: u32, d: u32, data: Seq<u8>) -> Seq<u8> {
    le_bytes(a as nat, 2) + le_bytes(b as nat, 2) + le_bytes(c as nat, 4) + le_bytes(d as nat, 4)
        + le_bytes(data.len(), 8) + data
}

/// How `bincode`'s default functions read the same five values back: numbers from their places,
/// then as many bytes as the length says. Bytes behind the last value are passed over; missing
/// bytes are an error.
pub open spec fn unpacked(s: Seq<u8>) -> Option<(u16, u16, u32, u32, Seq<u8>)> {
    let len = le_value(s.subrange(12, 20));
    if s.len() >= 20 && len <= s.len() - 20 {
        Some(
            (
                le_value(s.subrange(0, 2)) as u16,
                le_value(s.subrange(2, 4)) as u16,
                le_value(s.subrange(4, 8)) as u32,
                le_value(s.subrange(8, 12)) as u32,
                s.subrange(20, 20 + len as int),
            ),
        )
    } else {
        None
    }
}

/// `bincode::serialize` on a tuple of two `u16`, two `u32` and a `Bytes`: it succeeds and gives
/// the packed bytes. It panics where these are more than can be addressed.
#[verifier::external_body]
pub(crate) fn bincode_serialize(a: u16, b: u16, c: u32, d: u32, data: &Bytes) -> (result: Result<
    Vec<u8>,
    Box<bincode::ErrorKind>,
>)
    requires
        20 + bytes_view(*data).len() <= isize::MAX,
    ensures
        result is Ok,
        result->Ok_0@ == packed(a, b, c, d, bytes_view(*data)),
{
    bincode::serialize(&(a, b, c, d, data))
}

/// `bincode::deserialize` into a tuple of two `u16`, two `u32` and a `Bytes`: it gives what the
/// bytes hold, and an error exactly where they end too early.
#[verifier::external_body]
pub(crate) fn bincode_deserialize(packet: &[u8]) -> (result: Result<
    (u16, u16, u32, u32, Bytes),
    Box<bincode::ErrorKind>,
>)
    ensures
        match result {
            Ok((a, b, c, d, data)) => unpacked(packet@) == Some((a, b, c, d, bytes_view(data))),
            Err(_) => unpacked(packet@) is None,
        },
{
    bincode::deserialize(packet)
}

/// `serde::de::Error::invalid_value`, for the errors of `bincode`: the error for a number that was
/// read where something else was expected. It carries a message, of which nothing is claimed.
#[verifier::external_body]
pub(crate) fn invalid_number(number: u64, expected: &str) -> (error: Box<bincode::ErrorKind>) {
    serde::de::Error::invalid_value(serde::de::Unexpected::Unsigned(number), &expected)
}

/// `gen_range` of `rand`'s thread-local generator, on the numbers from `low` up to and without
/// `high`. Which of them comes is chance. It panics where there is none.
#[verifier::external_body]
pub(crate) fn random_between(low: u16, high: u16) -> (number: u16)
    requires
        low < high,
    ensures
        low <= number < high,
{
    rand::thread_rng().gen_range(low..high)
}

/// `Formatter::debug_struct` starts the text of a struct. How the text comes out is up to the
/// formatter's options; nothing is claimed of it.
pub assume_specification<'a, 'b>[ std::fmt::Formatter::<'a>::debug_struct ](
    f: &'b mut Formatter<'a>,
    name: &str,
) -> (builder: DebugStruct<'b, 'a>)
;

/// `DebugStruct::field` adds a field and its value. Nothing is claimed of the text.
pub assume_specification<'a, 'b: 'a, 'c>[ std::fmt::DebugStruct::<'a, 'b>::field ](
    builder: &'c mut DebugStruct<'a, 'b>,
    name: &str,
    value: &dyn Debug,
) -> (same: &'c mut DebugStruct<'a, 'b>)
;

/// `DebugStruct::finish` ends the text, and tells whether all of it could be written.
pub assume_specification<'a, 'b: 'a>[ std::fmt::DebugStruct::<'a, 'b>::finish ](
    builder: &mut DebugStruct<'a, 'b>,
) -> (result: std::fmt::Result)
;

} // verus!
