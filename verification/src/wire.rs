//! The wire decoder: one answer of the daemon, read frame by frame.

use vstd::prelude::*;
use vstd::slice::slice_subrange;
use vstd::utf8::*;
use crate::msgpack::{
    decode_i32, decode_str, rmp_read_i32, rmp_read_str, str_header, str_payload, ReadFault,
    FIXSTR_FIRST, FIXSTR_LAST, RESERVED_MARKER, STR16_MARKER, STR32_MARKER, STR8_MARKER,
};

verus! {

/// Why a frame could not be decoded.
#[derive(Clone, Copy, Debug, PartialEq, Eq, Structural)]
pub enum WireError {
    /// The answer ends before the frame does.
    TruncatedStream,
    /// An integer was asked for and the next frame is of another type.
    TypeMismatch,
    /// The text is longer than the buffer it is decoded into.
    StringTooLarge,
    /// Any other fault: a frame that is neither text nor the end of the
    /// message where text was asked for, or text that is not UTF-8.
    DecodeError,
}

/// What asking for the next text frame gives.
#[derive(Debug, PartialEq, Eq)]
pub enum StrOutcome {
    /// The text of the frame.
    Text(String),
    /// The reserved marker stood in the frame's place: the daemon has no
    /// more records to send.
    EndOfMessage,
    /// The frame could not be decoded.
    Failed(WireError),
}

/// `StrOutcome` with the text as a sequence of characters.
pub enum StrStep {
    Text(Seq<char>),
    EndOfMessage,
    Failed(WireError),
}

impl View for StrOutcome {
    type V = StrStep;

    open spec fn view(&self) -> StrStep {
        match self {
            StrOutcome::Text(text) => StrStep::Text(text@),
            StrOutcome::EndOfMessage => StrStep::EndOfMessage,
            StrOutcome::Failed(e) => StrStep::Failed(*e),
        }
    }
}

/// The integer at the front of `input`, or why there is none.
pub open spec fn next_i32(input: Seq<u8>) -> Result<i32, WireError> {
    match decode_i32(input) {
        Ok(value) => Ok(value),
        Err(ReadFault::TypeMismatch(_)) => Err(WireError::TypeMismatch),
        Err(ReadFault::MarkerRead) | Err(ReadFault::DataRead) => Err(WireError::TruncatedStream),
        Err(_) => Err(WireError::DecodeError),
    }
}

/// The text at the front of `input`, decoded into a buffer of `capacity`
/// bytes, the end of the message, or why there is neither.
pub open spec fn next_str(input: Seq<u8>, capacity: int) -> StrStep {
    match decode_str(input, capacity) {
        Ok(text) => StrStep::Text(text),
        Err(ReadFault::TypeMismatch(marker)) => if marker == RESERVED_MARKER {
            StrStep::EndOfMessage
        } else {
            StrStep::Failed(WireError::DecodeError)
        },
        Err(ReadFault::MarkerRead) | Err(ReadFault::DataRead) => StrStep::Failed(
            WireError::TruncatedStream,
        ),
        Err(ReadFault::BufferSizeTooSmall(_)) => StrStep::Failed(WireError::StringTooLarge),
        Err(ReadFault::InvalidUtf8) => StrStep::Failed(WireError::DecodeError),
    }
}

/// How many bytes of `input` asking for the next text frame uses up: the
/// whole frame, the one byte of the reserved marker, or nothing on failure.
pub open spec fn str_step_len(input: Seq<u8>, capacity: int) -> int {
    match next_str(input, capacity) {
        StrStep::Text(_) => str_header(input).unwrap().0 + str_header(input).unwrap().1,
        StrStep::EndOfMessage => 1,
        StrStep::Failed(_) => 0,
    }
}

/// An integer that was read, or that failed for another reason than the
/// end of the bytes, reads the same when more bytes follow.
pub proof fn lemma_next_i32_settled(input: Seq<u8>, more: Seq<u8>)
    requires
        next_i32(input) != Err::<i32, WireError>(WireError::TruncatedStream),
    ensures
        next_i32(input + more) == next_i32(input),
        next_i32(input) is Ok ==> (input + more).skip(5) == input.skip(5) + more,
{
    assert((input + more)[0] == input[0]);
    if next_i32(input) is Ok {
        assert((input + more).subrange(1, 5) =~= input.subrange(1, 5));
    }
}

/// A text frame that was read, the end of the message, or a failure for
/// another reason than the end of the bytes, reads the same when more
/// bytes follow.
pub proof fn lemma_next_str_settled(input: Seq<u8>, more: Seq<u8>, capacity: int)
    requires
        next_str(input, capacity) != StrStep::Failed(WireError::TruncatedStream),
    ensures
        next_str(input + more, capacity) == next_str(input, capacity),
        str_step_len(input + more, capacity) == str_step_len(input, capacity),
        (input + more).skip(str_step_len(input, capacity)) == input.skip(
            str_step_len(input, capacity),
        ) + more,
{
    let longer = input + more;
    assert(str_header(longer) == str_header(input)) by {
        assert(longer[0] == input[0]);
        if input[0] == STR32_MARKER {
            assert(longer.subrange(1, 5) =~= input.subrange(1, 5));
        }
    }
    if str_header(input) is Ok && str_header(input).unwrap().1 <= capacity {
        assert(str_payload(longer) =~= str_payload(input));
    }
    assert(longer.skip(str_step_len(input, capacity)) =~= input.skip(str_step_len(input, capacity))
        + more);
}

/// The length of the header that a string marker opens.
fn str_header_len(marker: u8) -> (n: usize)
    ensures
        FIXSTR_FIRST <= marker <= FIXSTR_LAST ==> n == 1,
        marker == STR8_MARKER ==> n == 2,
        marker == STR16_MARKER ==> n == 3,
        marker == STR32_MARKER ==> n == 5,
{
    if marker == STR8_MARKER {
        2
    } else if marker == STR16_MARKER {
        3
    } else if marker == STR32_MARKER {
        5
    } else {
        1
    }
}

/// A handle on one answer of the daemon, positioned at the frame that is
/// read next. Its view is the bytes not yet read.
pub struct FtlConnection<'a> {
    data: &'a [u8],
    pos: usize,
}

impl<'a> View for FtlConnection<'a> {
    type V = Seq<u8>;

    closed spec fn view(&self) -> Seq<u8> {
        self.data@.skip(self.pos as int)
    }
}

impl<'a> FtlConnection<'a> {
    #[verifier::type_invariant]
    spec fn positioned(&self) -> bool {
        self.pos <= self.data@.len()
    }

    /// A handle at the start of `response`.
    pub fn new(response: &'a [u8]) -> (con: Self)
        ensures
            con@ == response@,
    {
        FtlConnection { data: response, pos: 0 }
    }

    /// The number of bytes not yet read.
    pub fn remaining(&self) -> (n: usize)
        ensures
            n == self@.len(),
    {
        proof {
            use_type_invariant(self);
        }
        self.data.len() - self.pos
    }

    /// Reads a 32-bit signed integer, which uses up five bytes. On failure
    /// the handle stays where it was.
    pub fn read_i32(&mut self) -> (r: Result<i32, WireError>)
        ensures
            r == next_i32(old(self)@),
            r is Ok ==> final(self)@ == old(self)@.skip(5),
            r is Err ==> final(self)@ == old(self)@,
    {
        proof {
            use_type_invariant(&*self);
        }
        let input = slice_subrange(self.data, self.pos, self.data.len());
        match rmp_read_i32(input) {
            Ok(value) => {
                self.pos = self.pos + 5;
                Ok(value)
            },
            Err(ReadFault::TypeMismatch(_)) => Err(WireError::TypeMismatch),
            Err(ReadFault::MarkerRead) | Err(ReadFault::DataRead) => Err(
                WireError::TruncatedStream,
            ),
            Err(_) => Err(WireError::DecodeError),
        }
    }

    /// Reads the next text frame into `buffer`, or finds the end of the
    /// message, which uses up the reserved marker. On failure the handle
    /// stays where it was. The buffer keeps its length; after text was read
    /// its front holds the text's bytes and the rest is as it was.
    pub fn read_str(&mut self, buffer: &mut Vec<u8>) -> (out: StrOutcome)
        ensures
            out@ == next_str(old(self)@, old(buffer)@.len() as int),
            final(self)@ == old(self)@.skip(str_step_len(old(self)@, old(buffer)@.len() as int)),
            out is Failed ==> final(self)@ == old(self)@,
            final(buffer)@.len() == old(buffer)@.len(),
            out is Text ==> final(buffer)@ == str_payload(old(self)@) + old(buffer)@.skip(
                str_payload(old(self)@).len() as int,
            ),
    {
        proof {
            use_type_invariant(&*self);
        }
        let input = slice_subrange(self.data, self.pos, self.data.len());
        match rmp_read_str(input, buffer) {
            Ok(text) => {
                proof {
                    decode_utf8_encode_utf8(str_payload(input@));
                }
                let header: usize = str_header_len(input[0]);
                let len: usize = text.as_str().len();
                self.pos = self.pos + header + len;
                assert(self@ =~= old(self)@.skip(header + len));
                StrOutcome::Text(text)
            },
            Err(ReadFault::TypeMismatch(marker)) => {
                if marker == RESERVED_MARKER {
                    self.pos = self.pos + 1;
                    StrOutcome::EndOfMessage
                } else {
                    StrOutcome::Failed(WireError::DecodeError)
                }
            },
            Err(ReadFault::MarkerRead) | Err(ReadFault::DataRead) => StrOutcome::Failed(
                WireError::TruncatedStream,
            ),
            Err(ReadFault::BufferSizeTooSmall(_)) => StrOutcome::Failed(WireError::StringTooLarge),
            Err(ReadFault::InvalidUtf8) => StrOutcome::Failed(WireError::DecodeError),
        }
    }
}

} // verus!
