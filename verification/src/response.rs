//! One answer of the daemon: the total, then records up to the end of the
//! message.

use vstd::prelude::*;
use crate::result_set::{mapping_of, outcome_view, ResultSet, ResultSetView};
use crate::wire::{
    lemma_next_i32_settled, lemma_next_str_settled, next_i32, next_str, str_step_len,
    FtlConnection, StrOutcome, StrStep, WireError,
};

verus! {

/// The size of the buffer that each label is decoded into.
pub const STRING_BUFFER_LEN: usize = 4096;

/// The records at the front of `input`, up to the end of the message. Each
/// record is a label and the integer that follows it; a label without its
/// integer is a failure, and so is everything but the reserved marker where
/// a label is due.
#[verifier::opaque]
pub open spec fn records_of(input: Seq<u8>, capacity: int) -> Result<
    Seq<(Seq<char>, i32)>,
    WireError,
>
    decreases input.len(),
{
    match next_str(input, capacity) {
        StrStep::EndOfMessage => Ok(Seq::empty()),
        StrStep::Failed(e) => Err(e),
        StrStep::Text(label) => {
            let after_label = input.skip(str_step_len(input, capacity));
            match next_i32(after_label) {
                Err(e) => Err(e),
                Ok(count) => match records_of(after_label.skip(5), capacity) {
                    Err(e) => Err(e),
                    Ok(rest) => Ok(seq![(label, count)] + rest),
                },
            }
        },
    }
}

/// What an answer of the daemon holds: the total, which comes first, and
/// the mapping that the records after it build. Labels are decoded into a
/// buffer of `capacity` bytes.
pub open spec fn response_of(input: Seq<u8>, capacity: int) -> Result<ResultSetView, WireError> {
    match next_i32(input) {
        Err(e) => Err(e),
        Ok(total) => match records_of(input.skip(5), capacity) {
            Err(e) => Err(e),
            Ok(records) => Ok(ResultSetView { total, mapping: mapping_of(records) }),
        },
    }
}

/// Reads one answer to its end: the total, then records until the end of
/// the message. Any failure on the way gives up the whole answer.
pub fn read_response(con: FtlConnection<'_>) -> (r: Result<ResultSet, WireError>)
    ensures
        outcome_view(r) == response_of(con@, STRING_BUFFER_LEN as int),
{
    let ghost input = con@;
    let mut handle = con;
    let total: i32 = match handle.read_i32() {
        Ok(total) => total,
        Err(e) => {
            return Err(e);
        },
    };
    let mut buffer: Vec<u8> = vec![0u8; STRING_BUFFER_LEN];
    let mut result = ResultSet::new(total);
    let ghost start = handle@;
    let ghost capacity = STRING_BUFFER_LEN as int;
    let ghost mut seen: Seq<(Seq<char>, i32)> = Seq::empty();
    assert(seen + Seq::<(Seq<char>, i32)>::empty() =~= Seq::<(Seq<char>, i32)>::empty());
    loop
        invariant
            buffer@.len() == STRING_BUFFER_LEN,
            capacity == STRING_BUFFER_LEN as int,
            input == con@,
            next_i32(input) == Ok::<i32, WireError>(total),
            start == input.skip(5),
            result@.total == total,
            result@.mapping == mapping_of(seen),
            records_of(start, capacity) == match records_of(handle@, capacity) {
                Ok(rest) => Ok::<Seq<(Seq<char>, i32)>, WireError>(seen + rest),
                Err(e) => Err(e),
            },
        decreases handle@.len(),
    {
        proof {
            reveal(records_of);
        }
        match handle.read_str(&mut buffer) {
            StrOutcome::EndOfMessage => {
                assert(seen + Seq::<(Seq<char>, i32)>::empty() =~= seen);
                return Ok(result);
            },
            StrOutcome::Failed(e) => {
                return Err(e);
            },
            StrOutcome::Text(label) => {
                match handle.read_i32() {
                    Err(e) => {
                        return Err(e);
                    },
                    Ok(count) => {
                        proof {
                            let record = (label@, count);
                            assert(seen.push(record).drop_last() =~= seen);
                            match records_of(handle@, capacity) {
                                Ok(rest) => {
                                    assert(seen + (seq![record] + rest) =~= seen.push(record)
                                        + rest);
                                },
                                Err(_) => {},
                            }
                            seen = seen.push(record);
                        }
                        result.insert(label, count);
                    },
                }
            },
        }
    }
}

/// Whether the bytes received so far end before the answer does. Only then
/// can reading on change what the answer decodes to: see
/// `lemma_response_settled`.
pub fn needs_more(received: &[u8]) -> (more: bool)
    ensures
        more <==> response_of(received@, STRING_BUFFER_LEN as int) == Err::<
            ResultSetView,
            WireError,
        >(WireError::TruncatedStream),
{
    match read_response(FtlConnection::new(received)) {
        Err(WireError::TruncatedStream) => true,
        _ => false,
    }
}

/// The total of an answer is the integer that the answer begins with,
/// whatever records follow it.
pub proof fn lemma_total_comes_first(input: Seq<u8>, capacity: int)
    ensures
        match response_of(input, capacity) {
            Ok(result) => next_i32(input) == Ok::<i32, WireError>(result.total),
            Err(_) => true,
        },
{
}

/// Records that were read to the end of the message, or that failed for
/// another reason than the end of the bytes, read the same when more bytes
/// follow.
pub proof fn lemma_records_settled(input: Seq<u8>, more: Seq<u8>, capacity: int)
    requires
        records_of(input, capacity) != Err::<Seq<(Seq<char>, i32)>, WireError>(
            WireError::TruncatedStream,
        ),
    ensures
        records_of(input + more, capacity) == records_of(input, capacity),
    decreases input.len(),
{
    reveal(records_of);
    lemma_next_str_settled(input, more, capacity);
    if next_str(input, capacity) is Text {
        let after_label = input.skip(str_step_len(input, capacity));
        lemma_next_i32_settled(after_label, more);
        if next_i32(after_label) is Ok {
            lemma_records_settled(after_label.skip(5), more, capacity);
        }
    }
}

/// Once an answer is whole, or has failed for another reason than its end,
/// the bytes that come after change nothing: only an answer that ends too
/// early is worth reading on for.
pub proof fn lemma_response_settled(input: Seq<u8>, more: Seq<u8>, capacity: int)
    requires
        response_of(input, capacity) != Err::<ResultSetView, WireError>(
            WireError::TruncatedStream,
        ),
    ensures
        response_of(input + more, capacity) == response_of(input, capacity),
{
    lemma_next_i32_settled(input, more);
    if next_i32(input) is Ok {
        lemma_records_settled(input.skip(5), more, capacity);
    }
}

} // verus!
