//! The two MessagePack frames that the daemon's answers are made of, a
//! 32-bit signed integer and a string, and the calls into `rmp` that decode
//! them.

use vstd::prelude::*;
use vstd::utf8::*;
use rmp::decode::{Bytes, DecodeStringError, ValueReadError};

verus! {

/// Marker byte of a 32-bit signed integer frame.
pub const INT32_MARKER: u8 = 0xd2;

/// Marker byte that MessagePack reserves and never uses for data.
pub const RESERVED_MARKER: u8 = 0xc1;

/// First marker byte of a short string, whose length is in the marker's
/// low five bits.
pub const FIXSTR_FIRST: u8 = 0xa0;

/// Last marker byte of a short string.
pub const FIXSTR_LAST: u8 = 0xbf;

/// Marker byte of a string whose length follows in one byte.
pub const STR8_MARKER: u8 = 0xd9;

/// Marker byte of a string whose length follows in two bytes.
pub const STR16_MARKER: u8 = 0xda;

/// Marker byte of a string whose length follows in four bytes.
pub const STR32_MARKER: u8 = 0xdb;

/// Why `rmp` could not decode a frame.
#[derive(Clone, Copy, Debug, PartialEq, Eq, Structural)]
pub enum ReadFault {
    /// No byte was left for the marker.
    MarkerRead,
    /// The bytes after the marker ended too early.
    DataRead,
    /// The marker byte, given here, opens a frame of another type.
    TypeMismatch(u8),
    /// The string's length, given here, exceeds the buffer.
    BufferSizeTooSmall(u32),
    /// The string's bytes are not UTF-8.
    InvalidUtf8,
}

/// The unsigned number that four bytes hold, most significant byte first.
pub open spec fn be_u32(b: Seq<u8>) -> int
    recommends
        b.len() == 4,
{
    b[0] as int * 0x100_0000 + b[1] as int * 0x1_0000 + b[2] as int * 0x100 + b[3] as int
}

/// The two's complement number that four bytes hold, most significant byte
/// first.
pub open spec fn be_i32(b: Seq<u8>) -> i32
    recommends
        b.len() == 4,
{
    if be_u32(b) < 0x8000_0000 {
        be_u32(b) as i32
    } else {
        (be_u32(b) - 0x1_0000_0000) as i32
    }
}

/// What decoding a 32-bit signed integer from the front of `input` gives.
/// A successful decode uses five bytes.
pub open spec fn decode_i32(input: Seq<u8>) -> Result<i32, ReadFault> {
    if input.len() == 0 {
        Err(ReadFault::MarkerRead)
    } else if input[0] != INT32_MARKER {
        Err(ReadFault::TypeMismatch(input[0]))
    } else if input.len() < 5 {
        Err(ReadFault::DataRead)
    } else {
        Ok(be_i32(input.subrange(1, 5)))
    }
}

/// The length of the string header at the front of `input` and the length
/// of the text that follows it.
pub open spec fn str_header(input: Seq<u8>) -> Result<(int, int), ReadFault> {
    if input.len() == 0 {
        Err(ReadFault::MarkerRead)
    } else if FIXSTR_FIRST <= input[0] <= FIXSTR_LAST {
        Ok((1, input[0] - FIXSTR_FIRST))
    } else if input[0] == STR8_MARKER {
        if input.len() < 2 {
            Err(ReadFault::DataRead)
        } else {
            Ok((2, input[1] as int))
        }
    } else if input[0] == STR16_MARKER {
        if input.len() < 3 {
            Err(ReadFault::DataRead)
        } else {
            Ok((3, input[1] as int * 0x100 + input[2] as int))
        }
    } else if input[0] == STR32_MARKER {
        if input.len() < 5 {
            Err(ReadFault::DataRead)
        } else {
            Ok((5, be_u32(input.subrange(1, 5))))
        }
    } else {
        Err(ReadFault::TypeMismatch(input[0]))
    }
}

/// The bytes of the text of the string frame at the front of `input`.
pub open spec fn str_payload(input: Seq<u8>) -> Seq<u8>
    recommends
        str_header(input) is Ok,
{
    let (header, len) = str_header(input).unwrap();
    input.subrange(header, header + len)
}

/// What decoding a string from the front of `input` into a buffer of
/// `capacity` bytes gives. The length is held against the buffer before the
/// text is read.
pub open spec fn decode_str(input: Seq<u8>, capacity: int) -> Result<Seq<char>, ReadFault> {
    match str_header(input) {
        Err(fault) => Err(fault),
        Ok((header, len)) => {
            if capacity < len {
                Err(ReadFault::BufferSizeTooSmall(len as u32))
            } else if input.len() < header + len {
                Err(ReadFault::DataRead)
            } else if !valid_utf8(str_payload(input)) {
                Err(ReadFault::InvalidUtf8)
            } else {
                Ok(decode_utf8(str_payload(input)))
            }
        },
    }
}

/// Calls `rmp::decode::read_i32` on an in-memory reader over `input`.
///
/// Believed of it: it fails with a marker fault on empty input, with a type
/// mismatch that carries the first byte unless that byte is the 32-bit
/// integer marker, with a data fault when fewer than four bytes follow the
/// marker, and otherwise returns those four bytes read as a big-endian two's
/// complement number.
#[verifier::external_body]
pub(crate) fn rmp_read_i32(input: &[u8]) -> (r: Result<i32, ReadFault>)
    ensures
        r == decode_i32(input@),
{
    let mut rd = Bytes::new(input);
    match rmp::decode::read_i32(&mut rd) {
        Ok(value) => Ok(value),
        Err(ValueReadError::InvalidMarkerRead(_)) => Err(ReadFault::MarkerRead),
        Err(ValueReadError::InvalidDataRead(_)) => Err(ReadFault::DataRead),
        Err(ValueReadError::TypeMismatch(marker)) => Err(ReadFault::TypeMismatch(marker.to_u8())),
    }
}

/// Calls `rmp::decode::read_str` on an in-memory reader over `input`, with
/// `buffer` as the place the text is copied to.
///
/// Believed of it: it reads the marker and the length that the marker calls
/// for, refuses a length above the buffer's, copies that many bytes to the
/// front of the buffer and returns them as text if they are UTF-8. A marker
/// that opens no string comes back in the type mismatch. The buffer keeps
/// its length.
#[verifier::external_body]
pub(crate) fn rmp_read_str(input: &[u8], buffer: &mut Vec<u8>) -> (r: Result<String, ReadFault>)
    ensures
        final(buffer)@.len() == old(buffer)@.len(),
        match r {
            Ok(text) => {
                &&& decode_str(input@, old(buffer)@.len() as int) == Ok::<Seq<char>, ReadFault>(text@)
                &&& final(buffer)@ == str_payload(input@) + old(buffer)@.skip(
                    str_payload(input@).len() as int,
                )
            },
            Err(fault) => decode_str(input@, old(buffer)@.len() as int) == Err::<
                Seq<char>,
                ReadFault,
            >(fault),
        },
{
    let mut rd = Bytes::new(input);
    match rmp::decode::read_str(&mut rd, buffer.as_mut_slice()) {
        Ok(text) => Ok(text.to_owned()),
        Err(DecodeStringError::InvalidMarkerRead(_)) => Err(ReadFault::MarkerRead),
        Err(DecodeStringError::InvalidDataRead(_)) => Err(ReadFault::DataRead),
        Err(DecodeStringError::TypeMismatch(marker)) => Err(ReadFault::TypeMismatch(marker.to_u8())),
        Err(DecodeStringError::BufferSizeTooSmall(len)) => Err(ReadFault::BufferSizeTooSmall(len)),
        Err(DecodeStringError::InvalidUtf8(_, _)) => Err(ReadFault::InvalidUtf8),
    }
}

} // verus!
