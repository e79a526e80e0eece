//! An answer as the daemon writes it, frame by frame, and the proof that
//! reading it gives back what was written.

use vstd::prelude::*;
use vstd::utf8::*;
use crate::msgpack::{
    be_i32, be_u32, decode_str, str_header, str_payload, ReadFault, FIXSTR_FIRST, INT32_MARKER,
    RESERVED_MARKER, STR16_MARKER, STR32_MARKER, STR8_MARKER,
};
use crate::response::{records_of, response_of};
use crate::result_set::{
    has_label, lemma_mapping_keys, lemma_mapping_last_wins, mapping_of, ResultSetView,
};
use crate::wire::{next_i32, next_str, str_step_len, StrStep, WireError};

verus! {

/// The four bytes of a number below 2^32, most significant byte first.
pub open spec fn be_bytes(n: int) -> Seq<u8>
    recommends
        0 <= n < 0x1_0000_0000,
{
    seq![
        (n / 0x100_0000) as u8,
        ((n / 0x1_0000) % 0x100) as u8,
        ((n / 0x100) % 0x100) as u8,
        (n % 0x100) as u8,
    ]
}

/// The frame of a 32-bit signed integer: the marker and the number in two's
/// complement.
pub open spec fn i32_frame(value: i32) -> Seq<u8> {
    seq![INT32_MARKER] + be_bytes(
        if value < 0 {
            value + 0x1_0000_0000
        } else {
            value as int
        },
    )
}

/// The forms a string header comes in: the length in the marker itself,
/// or in one, two or four bytes after it.
pub enum StrForm {
    Fix,
    Len8,
    Len16,
    Len32,
}

impl StrForm {
    /// Whether a header of this form can hold `len`.
    pub open spec fn holds(self, len: int) -> bool {
        match self {
            StrForm::Fix => 0 <= len < 32,
            StrForm::Len8 => 0 <= len < 0x100,
            StrForm::Len16 => 0 <= len < 0x1_0000,
            StrForm::Len32 => 0 <= len < 0x1_0000_0000,
        }
    }
}

/// The header of a string of `len` bytes in the given form.
pub open spec fn str_frame_header(form: StrForm, len: int) -> Seq<u8>
    recommends
        form.holds(len),
{
    match form {
        StrForm::Fix => seq![(FIXSTR_FIRST + len) as u8],
        StrForm::Len8 => seq![STR8_MARKER, len as u8],
        StrForm::Len16 => seq![STR16_MARKER, (len / 0x100) as u8, (len % 0x100) as u8],
        StrForm::Len32 => seq![STR32_MARKER] + be_bytes(len),
    }
}

/// The frame of a text: the header and the text in UTF-8.
pub open spec fn str_frame(form: StrForm, text: Seq<char>) -> Seq<u8> {
    str_frame_header(form, encode_utf8(text).len() as int) + encode_utf8(text)
}

/// The frames of a list of records: for each its label, with a header of
/// the form listed for it, then its count.
pub open spec fn record_frames(records: Seq<(Seq<char>, i32)>, forms: Seq<StrForm>) -> Seq<u8>
    recommends
        forms.len() == records.len(),
    decreases records.len(),
{
    if records.len() == 0 {
        Seq::empty()
    } else {
        str_frame(forms[0], records[0].0) + i32_frame(records[0].1) + record_frames(
            records.drop_first(),
            forms.drop_first(),
        )
    }
}

/// A whole answer: the total, the records and the reserved marker that
/// ends the message.
pub open spec fn response_frames(total: i32, records: Seq<(Seq<char>, i32)>, forms: Seq<StrForm>)
    -> Seq<u8> {
    i32_frame(total) + record_frames(records, forms) + seq![RESERVED_MARKER]
}

/// There is a form for each record, it holds the length of the label in
/// UTF-8, and that length is within `capacity`.
pub open spec fn labels_fit(records: Seq<(Seq<char>, i32)>, forms: Seq<StrForm>, capacity: int)
    -> bool {
    &&& forms.len() == records.len()
    &&& forall|i: int|
        0 <= i < records.len() ==> {
            &&& (#[trigger] forms[i]).holds(encode_utf8(records[i].0).len() as int)
            &&& encode_utf8(records[i].0).len() <= capacity
        }
}

/// Four bytes written for a number hold that number.
pub proof fn lemma_be_bytes_hold(n: int)
    requires
        0 <= n < 0x1_0000_0000,
    ensures
        be_bytes(n).len() == 4,
        be_u32(be_bytes(n)) == n,
{
    let x = n as u32;
    assert(x == (x / 0x100_0000) * 0x100_0000 + ((x / 0x1_0000) % 0x100) * 0x1_0000 + ((x / 0x100)
        % 0x100) * 0x100 + x % 0x100 && x / 0x100_0000 < 0x100) by (bit_vector);
}

/// An integer frame, whatever follows it, reads as the integer written and
/// uses up the frame.
pub proof fn lemma_i32_frame_reads(value: i32, rest: Seq<u8>)
    ensures
        i32_frame(value).len() == 5,
        next_i32(i32_frame(value) + rest) == Ok::<i32, WireError>(value),
        (i32_frame(value) + rest).skip(5) == rest,
{
    let n = if value < 0 {
        value + 0x1_0000_0000
    } else {
        value as int
    };
    let input = i32_frame(value) + rest;
    lemma_be_bytes_hold(n);
    assert(input.subrange(1, 5) =~= be_bytes(n));
    assert(be_i32(be_bytes(n)) == value);
    assert(input.skip(5) =~= rest);
}

/// A string frame, whatever its form and whatever follows it, reads as the
/// text written and uses up the frame, if the text fits the buffer.
pub proof fn lemma_str_frame_reads(form: StrForm, text: Seq<char>, rest: Seq<u8>, capacity: int)
    requires
        form.holds(encode_utf8(text).len() as int),
        encode_utf8(text).len() <= capacity,
    ensures
        next_str(str_frame(form, text) + rest, capacity) == StrStep::Text(text),
        str_step_len(str_frame(form, text) + rest, capacity) == str_frame(form, text).len(),
        (str_frame(form, text) + rest).skip(str_frame(form, text).len() as int) == rest,
{
    let payload = encode_utf8(text);
    let len = payload.len() as int;
    let header = str_frame_header(form, len);
    let input = str_frame(form, text) + rest;
    if form is Len32 {
        lemma_be_bytes_hold(len);
        assert(input.subrange(1, 5) =~= be_bytes(len));
    }
    assert(str_header(input) == Ok::<(int, int), ReadFault>((header.len() as int, len)));
    assert(str_payload(input) =~= payload);
    encode_utf8_valid_utf8(text);
    encode_utf8_decode_utf8(text);
    assert(decode_str(input, capacity) == Ok::<Seq<char>, ReadFault>(text));
    assert(input.skip(str_frame(form, text).len() as int) =~= rest);
}

/// One record written in front of `tail` is read back before what `tail`
/// holds.
pub proof fn lemma_record_frame_reads(
    form: StrForm,
    label: Seq<char>,
    count: i32,
    tail: Seq<u8>,
    capacity: int,
)
    requires
        form.holds(encode_utf8(label).len() as int),
        encode_utf8(label).len() <= capacity,
    ensures
        records_of(str_frame(form, label) + i32_frame(count) + tail, capacity) == match records_of(
            tail,
            capacity,
        ) {
            Ok(rest) => Ok::<Seq<(Seq<char>, i32)>, WireError>(seq![(label, count)] + rest),
            Err(e) => Err(e),
        },
{
    let input = str_frame(form, label) + i32_frame(count) + tail;
    let after_label = i32_frame(count) + tail;
    assert(input =~= str_frame(form, label) + after_label);
    lemma_str_frame_reads(form, label, after_label, capacity);
    lemma_i32_frame_reads(count, tail);
    reveal(records_of);
}

/// Records written in front of `tail` are read back before what `tail`
/// holds: the list goes on with the records of `tail`, and fails where
/// `tail` fails.
pub proof fn lemma_record_frames_read(
    records: Seq<(Seq<char>, i32)>,
    forms: Seq<StrForm>,
    tail: Seq<u8>,
    capacity: int,
)
    requires
        labels_fit(records, forms, capacity),
    ensures
        records_of(record_frames(records, forms) + tail, capacity) == match records_of(
            tail,
            capacity,
        ) {
            Ok(rest) => Ok::<Seq<(Seq<char>, i32)>, WireError>(records + rest),
            Err(e) => Err(e),
        },
    decreases records.len(),
{
    if records.len() == 0 {
        assert(record_frames(records, forms) + tail =~= tail);
        if let Ok(rest) = records_of(tail, capacity) {
            assert(records + rest =~= rest);
        }
    } else {
        let (label, count) = records[0];
        let others = records.drop_first();
        let other_forms = forms.drop_first();
        let after = record_frames(others, other_forms) + tail;
        assert(record_frames(records, forms) + tail =~= str_frame(forms[0], label) + i32_frame(
            count,
        ) + after);
        lemma_record_frame_reads(forms[0], label, count, after, capacity);
        assert(labels_fit(others, other_forms, capacity)) by {
            assert forall|i: int| 0 <= i < others.len() implies {
                &&& (#[trigger] other_forms[i]).holds(encode_utf8(others[i].0).len() as int)
                &&& encode_utf8(others[i].0).len() <= capacity
            } by {
                assert(other_forms[i] == forms[i + 1]);
                assert(others[i] == records[i + 1]);
            }
        }
        lemma_record_frames_read(others, other_forms, tail, capacity);
        if let Ok(rest) = records_of(tail, capacity) {
            assert(seq![(label, count)] + (others + rest) =~= records + rest);
        }
    }
}

/// Reading an answer that ends with the reserved marker gives the total
/// that was written first and the mapping of the records written after it:
/// exactly their labels, each with the count of the last record that
/// carries it. What follows the marker is not read.
pub proof fn theorem_response_reads_back(
    total: i32,
    records: Seq<(Seq<char>, i32)>,
    forms: Seq<StrForm>,
    rest: Seq<u8>,
    capacity: int,
)
    requires
        labels_fit(records, forms, capacity),
    ensures
        response_of(response_frames(total, records, forms) + rest, capacity) == Ok::<
            ResultSetView,
            WireError,
        >(ResultSetView { total, mapping: mapping_of(records) }),
        forall|label: Seq<char>|
            mapping_of(records).contains_key(label) <==> has_label(records, label),
        forall|i: int|
            0 <= i < records.len() && (forall|j: int|
                i < j < records.len() ==> (#[trigger] records[j]).0 != records[i].0)
                ==> mapping_of(records)[(#[trigger] records[i]).0] == records[i].1,
{
    let tail = seq![RESERVED_MARKER] + rest;
    let input = response_frames(total, records, forms) + rest;
    assert(input =~= i32_frame(total) + (record_frames(records, forms) + tail));
    lemma_i32_frame_reads(total, record_frames(records, forms) + tail);
    assert(records_of(tail, capacity) == Ok::<Seq<(Seq<char>, i32)>, WireError>(Seq::empty())) by {
        reveal(records_of);
        assert(tail[0] == RESERVED_MARKER);
    }
    lemma_record_frames_read(records, forms, tail, capacity);
    assert(records + Seq::<(Seq<char>, i32)>::empty() =~= records);
    assert forall|label: Seq<char>|
        mapping_of(records).contains_key(label) <==> has_label(records, label) by {
        lemma_mapping_keys(records, label);
    }
    assert forall|i: int|
        0 <= i < records.len() && (forall|j: int|
            i < j < records.len() ==> (#[trigger] records[j]).0 != records[i].0) implies mapping_of(
        records,
    )[(#[trigger] records[i]).0] == records[i].1 by {
        lemma_mapping_last_wins(records, i);
    }
}

/// An answer in which the reserved marker follows the total at once holds
/// that total and an empty mapping.
pub proof fn lemma_empty_list_reads(total: i32, rest: Seq<u8>, capacity: int)
    ensures
        response_of(i32_frame(total) + seq![RESERVED_MARKER] + rest, capacity) == Ok::<
            ResultSetView,
            WireError,
        >(ResultSetView { total, mapping: Map::empty() }),
{
    let records = Seq::<(Seq<char>, i32)>::empty();
    let forms = Seq::<StrForm>::empty();
    assert(record_frames(records, forms) =~= Seq::<u8>::empty());
    assert(response_frames(total, records, forms) + rest =~= i32_frame(total)
        + seq![RESERVED_MARKER] + rest);
    theorem_response_reads_back(total, records, forms, rest, capacity);
}

/// Where the records are followed by anything that does not read as
/// records up to the end of the message, a frame that fails in the
/// marker's place or a label without its count, the whole answer fails
/// with what failed there: the records read before it are given up.
pub proof fn lemma_failure_gives_up_the_answer(
    total: i32,
    records: Seq<(Seq<char>, i32)>,
    forms: Seq<StrForm>,
    tail: Seq<u8>,
    capacity: int,
)
    requires
        labels_fit(records, forms, capacity),
        records_of(tail, capacity) is Err,
    ensures
        response_of(i32_frame(total) + record_frames(records, forms) + tail, capacity) == Err::<
            ResultSetView,
            WireError,
        >(records_of(tail, capacity)->Err_0),
{
    let input = i32_frame(total) + record_frames(records, forms) + tail;
    assert(input =~= i32_frame(total) + (record_frames(records, forms) + tail));
    lemma_i32_frame_reads(total, record_frames(records, forms) + tail);
    lemma_record_frames_read(records, forms, tail, capacity);
}

} // verus!
