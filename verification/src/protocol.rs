//! Length estimation for the Binary protocol: pure functions giving the
//! exact number of wire bytes each element occupies, so that encoders can
//! size their buffers before writing.  Each count is stated against the
//! writer's byte-level specification.

use vstd::prelude::*;

use crate::binary::spec_msg_begin_bytes;
use crate::thrift::TListIdentifier;
use crate::thrift::TMapIdentifier;
use crate::thrift::TMessageIdentifier;
use crate::thrift::TSetIdentifier;
use crate::thrift::TStructIdentifier;
use crate::thrift::TType;

verus! {

/// Bytes of a message header: version word, length-prefixed name,
/// sequence number.
pub fn message_begin_len(identifier: &TMessageIdentifier) -> (r: usize)
    requires
        identifier.name@.len() + 12 <= usize::MAX,
    ensures
        r == 12 + identifier.name@.len(),
        r == spec_msg_begin_bytes(
            identifier.name@,
            identifier.message_type,
            identifier.sequence_number,
        ).len(),
{
    12 + identifier.name.len()
}

/// A message end emits nothing.
pub fn message_end_len() -> (r: usize)
    ensures
        r == 0,
{
    0
}

/// A struct begin emits nothing in the Binary protocol.
pub fn struct_begin_len(_identifier: &TStructIdentifier) -> (r: usize)
    ensures
        r == 0,
{
    0
}

/// A struct end emits nothing.
pub fn struct_end_len() -> (r: usize)
    ensures
        r == 0,
{
    0
}

/// A field header is one type tag and a 16-bit id.
pub fn field_begin_len(_field_type: TType, _id: Option<i16>) -> (r: usize)
    ensures
        r == 3,
{
    3
}

/// A field end emits nothing.
pub fn field_end_len() -> (r: usize)
    ensures
        r == 0,
{
    0
}

/// The stop tag is a single byte.
pub fn field_stop_len() -> (r: usize)
    ensures
        r == 1,
{
    1
}

/// A bool is one byte.
pub fn bool_len(_b: bool) -> (r: usize)
    ensures
        r == 1,
{
    1
}

/// A byte string is its 32-bit length prefix plus its bytes.
pub fn bytes_len(b: &Vec<u8>) -> (r: usize)
    requires
        b@.len() + 4 <= usize::MAX,
    ensures
        r == 4 + b@.len(),
{
    4 + b.len()
}

/// Same count for a byte string handed over as an owned vector.
pub fn bytes_vec_len(b: &Vec<u8>) -> (r: usize)
    requires
        b@.len() + 4 <= usize::MAX,
    ensures
        r == 4 + b@.len(),
{
    4 + b.len()
}

/// A raw byte is one byte.
pub fn byte_len(_b: u8) -> (r: usize)
    ensures
        r == 1,
{
    1
}

/// A UUID is sixteen raw bytes.
pub fn uuid_len(_u: &Vec<u8>) -> (r: usize)
    ensures
        r == 16,
{
    16
}

/// An 8-bit integer is one byte.
pub fn i8_len(_i: i8) -> (r: usize)
    ensures
        r == 1,
{
    1
}

/// A 16-bit integer is two bytes.
pub fn i16_len(_i: i16) -> (r: usize)
    ensures
        r == 2,
{
    2
}

/// A 32-bit integer is four bytes.
pub fn i32_len(_i: i32) -> (r: usize)
    ensures
        r == 4,
{
    4
}

/// A 64-bit integer is eight bytes.
pub fn i64_len(_i: i64) -> (r: usize)
    ensures
        r == 8,
{
    8
}

/// A double, carried as its raw bits, is eight bytes.
pub fn double_bits_len(_d: u64) -> (r: usize)
    ensures
        r == 8,
{
    8
}

/// A string is its 32-bit length prefix plus its UTF-8 bytes.
pub fn string_len(s: &str) -> (r: usize)
    requires
        vstd::utf8::encode_utf8(s@).len() + 4 <= usize::MAX,
    ensures
        r == 4 + vstd::utf8::encode_utf8(s@).len(),
{
    4 + s.len()
}

/// A list header is one type tag and a 32-bit count.
pub fn list_begin_len(_identifier: TListIdentifier) -> (r: usize)
    ensures
        r == 5,
{
    5
}

/// A list end emits nothing: the count is backpatched into the header.
pub fn list_end_len() -> (r: usize)
    ensures
        r == 0,
{
    0
}

/// A set header shares the list layout.
pub fn set_begin_len(_identifier: TSetIdentifier) -> (r: usize)
    ensures
        r == 5,
{
    5
}

/// A set end emits nothing.
pub fn set_end_len() -> (r: usize)
    ensures
        r == 0,
{
    0
}

/// A map header is two type tags and a 32-bit count.
pub fn map_begin_len(_identifier: TMapIdentifier) -> (r: usize)
    ensures
        r == 6,
{
    6
}

/// A map end emits nothing.
pub fn map_end_len() -> (r: usize)
    ensures
        r == 0,
{
    0
}

} // verus!
