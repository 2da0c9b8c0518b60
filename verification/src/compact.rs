//! The compact encoding: a flat byte string for moving a value across the
//! sandbox boundary.
//!
//! Every integer is little-endian. A byte string is written as its length
//! in eight bytes, then its bytes as they are. A text is written as the
//! byte string of its UTF-8 form. A header field is its name as text, then
//! its value as a byte string. A response is its status in two bytes, the
//! number of header fields in eight bytes, each header field in order, and
//! the body as a byte string. Nothing may follow the value.

use vstd::prelude::*;
use vstd::bytes::*;
use vstd::slice::{slice_subrange, slice_to_vec};
use vstd::utf8::*;
use crate::header::{Header, HeaderView};
use crate::response::{fields_view, FieldView, Response, ResponseView};

verus! {

/// Why a byte string is not the compact encoding of a value.
#[derive(Clone, Copy, Debug, PartialEq, Eq, Structural)]
pub enum DecodeError {
    /// The input ends before the value is complete.
    UnexpectedEnd,
    /// A name is not valid UTF-8.
    InvalidText,
    /// Bytes are left over after the value.
    TrailingBytes,
}

/// What a read gives: the item read and the position after it.
pub type Taken<T> = Result<(T, int), DecodeError>;

/// The largest length that the encoding can write.
pub open spec fn max_length() -> nat {
    0xffff_ffff_ffff_ffff
}

/// A length, as written.
pub open spec fn put_length(length: nat) -> Seq<u8> {
    spec_u64_to_le_bytes(length as u64)
}

/// A byte string, as written.
pub open spec fn put_bytes(bytes: Seq<u8>) -> Seq<u8> {
    put_length(bytes.len()) + bytes
}

/// A text, as written.
pub open spec fn put_text(text: Seq<char>) -> Seq<u8> {
    put_bytes(encode_utf8(text))
}

/// A header field, as written.
pub open spec fn put_field(field: FieldView) -> Seq<u8> {
    put_text(field.0) + put_bytes(field.1)
}

/// Whether the lengths of a header field can be written.
pub open spec fn field_fits(field: FieldView) -> bool {
    encode_utf8(field.0).len() <= max_length() && field.1.len() <= max_length()
}

/// The compact encoding of a header.
pub open spec fn encode_header(header: HeaderView) -> Seq<u8> {
    put_field((header.name, header.value))
}

/// Whether `input` holds `written` from position `at` on.
pub open spec fn holds_at(input: Seq<u8>, at: int, written: Seq<u8>) -> bool {
    0 <= at && at + written.len() <= input.len() && input.subrange(at, at + written.len())
        == written
}

/// Reads a length at `at`.
pub open spec fn take_length(input: Seq<u8>, at: int) -> Taken<nat> {
    if 0 <= at && at + 8 <= input.len() {
        Ok((spec_u64_from_le_bytes(input.subrange(at, at + 8)) as nat, at + 8))
    } else {
        Err(DecodeError::UnexpectedEnd)
    }
}

/// Reads a byte string at `at`.
pub open spec fn take_bytes(input: Seq<u8>, at: int) -> Taken<Seq<u8>> {
    match take_length(input, at) {
        Err(error) => Err(error),
        Ok((length, start)) => if start + length <= input.len() {
            Ok((input.subrange(start, start + length), start + length))
        } else {
            Err(DecodeError::UnexpectedEnd)
        },
    }
}

/// Reads a text at `at`.
pub open spec fn take_text(input: Seq<u8>, at: int) -> Taken<Seq<char>> {
    match take_bytes(input, at) {
        Err(error) => Err(error),
        Ok((bytes, end)) => if valid_utf8(bytes) {
            Ok((decode_utf8(bytes), end))
        } else {
            Err(DecodeError::InvalidText)
        },
    }
}

/// Reads a header field at `at`.
pub open spec fn take_field(input: Seq<u8>, at: int) -> Taken<FieldView> {
    match take_text(input, at) {
        Err(error) => Err(error),
        Ok((name, middle)) => match take_bytes(input, middle) {
            Err(error) => Err(error),
            Ok((value, end)) => Ok(((name, value), end)),
        },
    }
}

/// The header that `input` is the compact encoding of, or why it is none.
pub open spec fn parse_header(input: Seq<u8>) -> Result<HeaderView, DecodeError> {
    match take_field(input, 0) {
        Err(error) => Err(error),
        Ok((field, end)) => if end == input.len() {
            Ok(HeaderView { name: field.0, value: field.1 })
        } else {
            Err(DecodeError::TrailingBytes)
        },
    }
}

/// The header fields of a list, as written one after another.
pub open spec fn put_fields(fields: Seq<FieldView>) -> Seq<u8>
    decreases fields.len(),
{
    if fields.len() == 0 {
        Seq::empty()
    } else {
        put_field(fields[0]) + put_fields(fields.drop_first())
    }
}

/// Whether the lengths of a list of header fields can be written.
pub open spec fn fields_fit(fields: Seq<FieldView>) -> bool {
    fields.len() <= max_length() && forall|i: int|
        0 <= i < fields.len() ==> field_fits(#[trigger] fields[i])
}

/// Whether the lengths of a response can be written.
pub open spec fn response_fits(response: ResponseView) -> bool {
    fields_fit(response.headers) && response.body.len() <= max_length()
}

/// The compact encoding of a response.
pub open spec fn encode_response(response: ResponseView) -> Seq<u8> {
    spec_u16_to_le_bytes(response.status) + put_length(response.headers.len()) + put_fields(
        response.headers,
    ) + put_bytes(response.body)
}

/// The header fields `read` so far, followed by what the `rest` of the
/// read gives.
pub open spec fn read_then(read: Seq<FieldView>, rest: Taken<Seq<FieldView>>) -> Taken<
    Seq<FieldView>,
> {
    match rest {
        Err(error) => Err(error),
        Ok((fields, end)) => Ok((read + fields, end)),
    }
}

/// Reads `count` header fields at `at`.
pub open spec fn take_fields(input: Seq<u8>, at: int, count: nat) -> Taken<Seq<FieldView>>
    decreases count,
{
    if count == 0 {
        Ok((Seq::empty(), at))
    } else {
        match take_field(input, at) {
            Err(error) => Err(error),
            Ok((field, next)) => read_then(seq![field], take_fields(input, next, (count - 1) as nat)),
        }
    }
}

/// The response that `input` is the compact encoding of, or why it is none.
pub open spec fn parse_response(input: Seq<u8>) -> Result<ResponseView, DecodeError> {
    if input.len() < 2 {
        Err(DecodeError::UnexpectedEnd)
    } else {
        match take_length(input, 2) {
            Err(error) => Err(error),
            Ok((count, start)) => match take_fields(input, start, count) {
                Err(error) => Err(error),
                Ok((headers, middle)) => match take_bytes(input, middle) {
                    Err(error) => Err(error),
                    Ok((body, end)) => if end == input.len() {
                        Ok(
                            ResponseView {
                                status: spec_u16_from_le_bytes(input.subrange(0, 2)),
                                headers,
                                body,
                            },
                        )
                    } else {
                        Err(DecodeError::TrailingBytes)
                    },
                },
            },
        }
    }
}

/// A length that was written is read back, and the read ends after it.
pub proof fn lemma_take_length_reads_put_length(input: Seq<u8>, at: int, length: nat)
    requires
        length <= max_length(),
        holds_at(input, at, put_length(length)),
    ensures
        put_length(length).len() == 8,
        take_length(input, at) == Ok::<(nat, int), DecodeError>((length, at + 8)),
{
    lemma_auto_spec_u64_to_from_le_bytes();
}

/// A length that was read is what is written at that place.
pub proof fn lemma_take_length_is_exact(input: Seq<u8>, at: int)
    requires
        take_length(input, at) is Ok,
    ensures
        take_length(input, at)->Ok_0.0 <= max_length(),
        take_length(input, at)->Ok_0.1 == at + 8,
        holds_at(input, at, put_length(take_length(input, at)->Ok_0.0)),
{
    lemma_auto_spec_u64_to_from_le_bytes();
    let prefix = input.subrange(at, at + 8);
    assert(spec_u64_to_le_bytes(spec_u64_from_le_bytes(prefix)) == prefix);
}

/// A byte string that was written is read back, and the read ends after it.
pub proof fn lemma_take_bytes_reads_put_bytes(input: Seq<u8>, at: int, bytes: Seq<u8>)
    requires
        bytes.len() <= max_length(),
        holds_at(input, at, put_bytes(bytes)),
    ensures
        put_bytes(bytes).len() == 8 + bytes.len(),
        take_bytes(input, at) == Ok::<(Seq<u8>, int), DecodeError>(
            (bytes, at + 8 + bytes.len()),
        ),
{
    lemma_auto_spec_u64_to_from_le_bytes();
    let written = put_bytes(bytes);
    assert(input.subrange(at, at + 8) =~= put_length(bytes.len())) by {
        assert(input.subrange(at, at + 8) =~= input.subrange(at, at + written.len()).subrange(
            0,
            8,
        ));
        assert(written.subrange(0, 8) =~= put_length(bytes.len()));
    }
    lemma_take_length_reads_put_length(input, at, bytes.len());
    assert(input.subrange(at + 8, at + 8 + bytes.len()) =~= bytes) by {
        assert(input.subrange(at + 8, at + 8 + bytes.len()) =~= input.subrange(
            at,
            at + written.len(),
        ).subrange(8, 8 + bytes.len() as int));
        assert(written.subrange(8, 8 + bytes.len() as int) =~= bytes);
    }
}

/// A byte string that was read is what is written at that place.
pub proof fn lemma_take_bytes_is_exact(input: Seq<u8>, at: int)
    requires
        take_bytes(input, at) is Ok,
    ensures
        take_bytes(input, at)->Ok_0.0.len() <= max_length(),
        take_bytes(input, at)->Ok_0.1 == at + put_bytes(take_bytes(input, at)->Ok_0.0).len(),
        holds_at(input, at, put_bytes(take_bytes(input, at)->Ok_0.0)),
{
    lemma_auto_spec_u64_to_from_le_bytes();
    lemma_take_length_is_exact(input, at);
    let (bytes, end) = take_bytes(input, at)->Ok_0;
    assert(input.subrange(at, at + 8 + bytes.len()) =~= put_length(bytes.len()) + bytes) by {
        assert(input.subrange(at, at + 8) == put_length(bytes.len()));
    }
}

/// A text that was written is read back, and the read ends after it.
pub proof fn lemma_take_text_reads_put_text(input: Seq<u8>, at: int, text: Seq<char>)
    requires
        encode_utf8(text).len() <= max_length(),
        holds_at(input, at, put_text(text)),
    ensures
        take_text(input, at) == Ok::<(Seq<char>, int), DecodeError>(
            (text, at + put_text(text).len()),
        ),
{
    lemma_take_bytes_reads_put_bytes(input, at, encode_utf8(text));
    encode_utf8_valid_utf8(text);
    encode_utf8_decode_utf8(text);
}

/// A text that was read is what is written at that place.
pub proof fn lemma_take_text_is_exact(input: Seq<u8>, at: int)
    requires
        take_text(input, at) is Ok,
    ensures
        encode_utf8(take_text(input, at)->Ok_0.0).len() <= max_length(),
        take_text(input, at)->Ok_0.1 == at + put_text(take_text(input, at)->Ok_0.0).len(),
        holds_at(input, at, put_text(take_text(input, at)->Ok_0.0)),
{
    lemma_take_bytes_is_exact(input, at);
    decode_utf8_encode_utf8(take_bytes(input, at)->Ok_0.0);
}

/// A header field that was written is read back, and the read ends after it.
pub proof fn lemma_take_field_reads_put_field(input: Seq<u8>, at: int, field: FieldView)
    requires
        field_fits(field),
        holds_at(input, at, put_field(field)),
    ensures
        take_field(input, at) == Ok::<(FieldView, int), DecodeError>(
            (field, at + put_field(field).len()),
        ),
{
    let name = put_text(field.0);
    let value = put_bytes(field.1);
    let whole = input.subrange(at, at + put_field(field).len());
    assert(input.subrange(at, at + name.len()) =~= whole.subrange(0, name.len() as int));
    assert((name + value).subrange(0, name.len() as int) =~= name);
    lemma_take_text_reads_put_text(input, at, field.0);
    let middle = at + name.len();
    assert(input.subrange(middle, middle + value.len()) =~= whole.subrange(
        name.len() as int,
        (name.len() + value.len()) as int,
    ));
    assert((name + value).subrange(name.len() as int, (name.len() + value.len()) as int) =~= value);
    lemma_take_bytes_reads_put_bytes(input, middle, field.1);
}

/// A header field that was read is what is written at that place.
pub proof fn lemma_take_field_is_exact(input: Seq<u8>, at: int)
    requires
        take_field(input, at) is Ok,
    ensures
        field_fits(take_field(input, at)->Ok_0.0),
        take_field(input, at)->Ok_0.1 == at + put_field(take_field(input, at)->Ok_0.0).len(),
        holds_at(input, at, put_field(take_field(input, at)->Ok_0.0)),
{
    lemma_take_text_is_exact(input, at);
    let (name, middle) = take_text(input, at)->Ok_0;
    lemma_take_bytes_is_exact(input, middle);
    let (value, end) = take_bytes(input, middle)->Ok_0;
    assert(input.subrange(at, end) =~= input.subrange(at, middle) + input.subrange(middle, end));
}

/// Decoding inverts encoding: the compact encoding of a header is read
/// back as that header, whatever bytes its value holds.
pub proof fn lemma_header_compact_round_trip(header: HeaderView)
    requires
        field_fits((header.name, header.value)),
    ensures
        parse_header(encode_header(header)) == Ok::<HeaderView, DecodeError>(header),
{
    let input = encode_header(header);
    assert(input.subrange(0, input.len() as int) =~= input);
    lemma_take_field_reads_put_field(input, 0, (header.name, header.value));
}

/// Only encodings are decoded: bytes that are read as a header are the
/// compact encoding of that header.
pub proof fn lemma_header_compact_is_exact(input: Seq<u8>)
    requires
        parse_header(input) is Ok,
    ensures
        encode_header(parse_header(input)->Ok_0) == input,
        field_fits((parse_header(input)->Ok_0.name, parse_header(input)->Ok_0.value)),
{
    lemma_take_field_is_exact(input, 0);
    assert(input.subrange(0, input.len() as int) =~= input);
}

/// Writing one more header field appends it to what was written.
pub proof fn lemma_put_fields_push(fields: Seq<FieldView>, field: FieldView)
    ensures
        put_fields(fields.push(field)) == put_fields(fields) + put_field(field),
    decreases fields.len(),
{
    if fields.len() == 0 {
        assert(fields.push(field).drop_first() =~= Seq::<FieldView>::empty());
        assert(put_fields(fields.push(field).drop_first()) =~= Seq::<u8>::empty());
        assert(put_fields(fields.push(field)) =~= put_fields(fields) + put_field(field));
    } else {
        assert(fields.push(field).drop_first() =~= fields.drop_first().push(field));
        lemma_put_fields_push(fields.drop_first(), field);
        assert(put_fields(fields.push(field)) =~= put_fields(fields) + put_field(field));
    }
}

/// Reading after a read that was itself continued is one continued read.
pub proof fn lemma_read_then_joins(
    read: Seq<FieldView>,
    field: FieldView,
    rest: Taken<Seq<FieldView>>,
)
    ensures
        read_then(read, read_then(seq![field], rest)) == read_then(read.push(field), rest),
{
    if let Ok((fields, end)) = rest {
        assert(read + (seq![field] + fields) =~= read.push(field) + fields);
    }
}

/// Header fields that were written are read back in the same order, and
/// the read ends after them.
pub proof fn lemma_take_fields_reads_put_fields(input: Seq<u8>, at: int, fields: Seq<FieldView>)
    requires
        forall|i: int| 0 <= i < fields.len() ==> field_fits(#[trigger] fields[i]),
        holds_at(input, at, put_fields(fields)),
    ensures
        take_fields(input, at, fields.len()) == Ok::<(Seq<FieldView>, int), DecodeError>(
            (fields, at + put_fields(fields).len()),
        ),
    decreases fields.len(),
{
    if fields.len() == 0 {
        assert(fields =~= Seq::<FieldView>::empty());
    } else {
        let first = put_field(fields[0]);
        let others = put_fields(fields.drop_first());
        let whole = input.subrange(at, at + put_fields(fields).len());
        assert(input.subrange(at, at + first.len()) =~= whole.subrange(0, first.len() as int));
        assert((first + others).subrange(0, first.len() as int) =~= first);
        lemma_take_field_reads_put_field(input, at, fields[0]);
        let next = at + first.len();
        assert(input.subrange(next, next + others.len()) =~= whole.subrange(
            first.len() as int,
            (first.len() + others.len()) as int,
        ));
        assert((first + others).subrange(first.len() as int, (first.len() + others.len()) as int)
            =~= others);
        assert forall|i: int| 0 <= i < fields.drop_first().len() implies field_fits(
            #[trigger] fields.drop_first()[i],
        ) by {
            assert(fields.drop_first()[i] == fields[i + 1]);
        }
        lemma_take_fields_reads_put_fields(input, next, fields.drop_first());
        assert(seq![fields[0]] + fields.drop_first() =~= fields);
    }
}

/// Header fields that were read are what is written at that place.
pub proof fn lemma_take_fields_is_exact(input: Seq<u8>, at: int, count: nat)
    requires
        0 <= at <= input.len(),
        take_fields(input, at, count) is Ok,
    ensures
        take_fields(input, at, count)->Ok_0.0.len() == count,
        forall|i: int|
            0 <= i < count ==> field_fits(#[trigger] take_fields(input, at, count)->Ok_0.0[i]),
        take_fields(input, at, count)->Ok_0.1 == at + put_fields(
            take_fields(input, at, count)->Ok_0.0,
        ).len(),
        holds_at(input, at, put_fields(take_fields(input, at, count)->Ok_0.0)),
    decreases count,
{
    if count == 0 {
        assert(input.subrange(at, at) =~= Seq::<u8>::empty());
    } else {
        lemma_take_field_is_exact(input, at);
        let (field, next) = take_field(input, at)->Ok_0;
        let rest = take_fields(input, next, (count - 1) as nat);
        lemma_take_fields_is_exact(input, next, (count - 1) as nat);
        let (others, end) = rest->Ok_0;
        let fields = seq![field] + others;
        assert(fields.drop_first() =~= others);
        assert(fields[0] == field);
        assert(input.subrange(at, end) =~= input.subrange(at, next) + input.subrange(next, end));
        assert forall|i: int| 0 <= i < count implies field_fits(#[trigger] fields[i]) by {
            if i > 0 {
                assert(fields[i] == others[i - 1]);
            }
        }
    }
}

/// Decoding inverts encoding: the compact encoding of a response is read
/// back as that response, with every header in its place and every byte
/// of every value and of the body as it was.
pub proof fn lemma_response_compact_round_trip(response: ResponseView)
    requires
        response_fits(response),
    ensures
        parse_response(encode_response(response)) == Ok::<ResponseView, DecodeError>(response),
{
    lemma_auto_spec_u16_to_from_le_bytes();
    lemma_auto_spec_u64_to_from_le_bytes();
    let status = spec_u16_to_le_bytes(response.status);
    let count = put_length(response.headers.len());
    let headers = put_fields(response.headers);
    let body = put_bytes(response.body);
    let input = encode_response(response);
    assert(input.subrange(0, 2) =~= status);
    assert(input.subrange(2, 10) =~= count);
    lemma_take_length_reads_put_length(input, 2, response.headers.len());
    assert(input.subrange(10, 10 + headers.len() as int) =~= headers);
    lemma_take_fields_reads_put_fields(input, 10, response.headers);
    let middle: int = 10 + headers.len() as int;
    assert(input.subrange(middle, middle + body.len()) =~= body);
    lemma_take_bytes_reads_put_bytes(input, middle, response.body);
}

/// Only encodings are decoded: bytes that are read as a response are the
/// compact encoding of that response.
pub proof fn lemma_response_compact_is_exact(input: Seq<u8>)
    requires
        parse_response(input) is Ok,
    ensures
        encode_response(parse_response(input)->Ok_0) == input,
        response_fits(parse_response(input)->Ok_0),
{
    lemma_auto_spec_u16_to_from_le_bytes();
    lemma_take_length_is_exact(input, 2);
    let (count, start) = take_length(input, 2)->Ok_0;
    lemma_take_fields_is_exact(input, start, count);
    let (headers, middle) = take_fields(input, start, count)->Ok_0;
    lemma_take_bytes_is_exact(input, middle);
    let (body, end) = take_bytes(input, middle)->Ok_0;
    let status = input.subrange(0, 2);
    assert(spec_u16_to_le_bytes(spec_u16_from_le_bytes(status)) == status);
    assert(put_length(count).len() == 8) by {
        lemma_auto_spec_u64_to_from_le_bytes();
    }
    assert(input.subrange(2, 10) == put_length(count));
    assert(input.subrange(10, middle) == put_fields(headers));
    assert(input.subrange(middle, end) == put_bytes(body));
    assert(input =~= input.subrange(0, 2) + input.subrange(2, 10) + input.subrange(10, middle)
        + input.subrange(middle, end));
}

/// Appends a length to `out`.
fn write_length(out: &mut Vec<u8>, length: usize)
    ensures
        final(out)@ == old(out)@ + put_length(length as nat),
{
    let mut written = u64_to_le_bytes(length as u64);
    out.append(&mut written);
}

/// Appends a byte string to `out`.
fn write_bytes(out: &mut Vec<u8>, bytes: &[u8])
    ensures
        final(out)@ == old(out)@ + put_bytes(bytes@),
        bytes@.len() <= max_length(),
{
    write_length(out, bytes.len());
    let mut i: usize = 0;
    while i < bytes.len()
        invariant
            i <= bytes.len(),
            out@ == old(out)@ + put_length(bytes@.len()) + bytes@.subrange(0, i as int),
        decreases bytes.len() - i,
    {
        out.push(bytes[i]);
        i += 1;
        assert(bytes@.subrange(0, i as int) =~= bytes@.subrange(0, i - 1).push(bytes@[i - 1]));
    }
    assert(bytes@.subrange(0, i as int) =~= bytes@);
    assert(out@ =~= old(out)@ + put_bytes(bytes@));
}

/// Appends a text to `out`.
fn write_text(out: &mut Vec<u8>, text: &str)
    ensures
        final(out)@ == old(out)@ + put_text(text@),
        encode_utf8(text@).len() <= max_length(),
{
    write_bytes(out, text.as_bytes());
}

/// Appends a header field to `out`.
fn write_field(out: &mut Vec<u8>, name: &str, value: &[u8])
    ensures
        final(out)@ == old(out)@ + put_field((name@, value@)),
        field_fits((name@, value@)),
{
    write_text(out, name);
    write_bytes(out, value);
    assert(out@ =~= old(out)@ + put_field((name@, value@)));
}

/// Reads a length at `at`.
fn read_length(input: &[u8], at: usize) -> (taken: Result<(u64, usize), DecodeError>)
    requires
        at <= input@.len(),
    ensures
        match taken {
            Ok((length, end)) => take_length(input@, at as int) == Ok::<(nat, int), DecodeError>(
                (length as nat, end as int),
            ) && end == at + 8 && end <= input@.len(),
            Err(error) => take_length(input@, at as int) == Err::<(nat, int), DecodeError>(error),
        },
{
    if input.len() - at < 8 {
        return Err(DecodeError::UnexpectedEnd);
    }
    let length = u64_from_le_bytes(slice_subrange(input, at, at + 8));
    Ok((length, at + 8))
}

/// Reads a byte string at `at`.
fn read_bytes<'a>(input: &'a [u8], at: usize) -> (taken: Result<(&'a [u8], usize), DecodeError>)
    requires
        at <= input@.len(),
    ensures
        match taken {
            Ok((bytes, end)) => take_bytes(input@, at as int) == Ok::<
                (Seq<u8>, int),
                DecodeError,
            >((bytes@, end as int)) && end <= input@.len(),
            Err(error) => take_bytes(input@, at as int) == Err::<(Seq<u8>, int), DecodeError>(
                error,
            ),
        },
{
    match read_length(input, at) {
        Err(error) => Err(error),
        Ok((length, start)) => {
            if length > (input.len() - start) as u64 {
                return Err(DecodeError::UnexpectedEnd);
            }
            let end = start + length as usize;
            Ok((slice_subrange(input, start, end), end))
        },
    }
}

/// Reads a text at `at`.
fn read_text(input: &[u8], at: usize) -> (taken: Result<(String, usize), DecodeError>)
    requires
        at <= input@.len(),
    ensures
        match taken {
            Ok((text, end)) => take_text(input@, at as int) == Ok::<(Seq<char>, int), DecodeError>(
                (text@, end as int),
            ) && end <= input@.len(),
            Err(error) => take_text(input@, at as int) == Err::<(Seq<char>, int), DecodeError>(
                error,
            ),
        },
{
    match read_bytes(input, at) {
        Err(error) => Err(error),
        Ok((bytes, end)) => match std::str::from_utf8(bytes) {
            Err(_) => Err(DecodeError::InvalidText),
            Ok(text) => {
                proof {
                    encode_utf8_decode_utf8(text@);
                }
                Ok((text.to_owned(), end))
            },
        },
    }
}

/// Reads a header field at `at`.
fn read_field(input: &[u8], at: usize) -> (taken: Result<((String, Vec<u8>), usize), DecodeError>)
    requires
        at <= input@.len(),
    ensures
        match taken {
            Ok((field, end)) => take_field(input@, at as int) == Ok::<
                (FieldView, int),
                DecodeError,
            >(((field.0@, field.1@), end as int)) && end <= input@.len(),
            Err(error) => take_field(input@, at as int) == Err::<(FieldView, int), DecodeError>(
                error,
            ),
        },
{
    match read_text(input, at) {
        Err(error) => Err(error),
        Ok((name, middle)) => match read_bytes(input, middle) {
            Err(error) => Err(error),
            Ok((value, end)) => Ok(((name, slice_to_vec(value)), end)),
        },
    }
}

impl Header {
    /// The compact encoding of this header. Every header has one.
    pub fn encode_compact(&self) -> (bytes: Vec<u8>)
        ensures
            bytes@ == encode_header(self@),
            field_fits((self@.name, self@.value)),
    {
        let mut out: Vec<u8> = Vec::new();
        write_field(&mut out, self.name.as_str(), self.value.as_slice());
        assert(out@ =~= encode_header(self@));
        out
    }

    /// The header that `bytes` is the compact encoding of. Succeeds on
    /// exactly the encodings of headers. Otherwise the error says what was
    /// met first: the bytes end early, a name is not UTF-8, or bytes are
    /// left over.
    pub fn decode_compact(bytes: &[u8]) -> (result: Result<Header, DecodeError>)
        ensures
            match result {
                Ok(header) => parse_header(bytes@) == Ok::<HeaderView, DecodeError>(header@),
                Err(error) => parse_header(bytes@) == Err::<HeaderView, DecodeError>(error),
            },
            match result {
                Ok(header) => bytes@ == encode_header(header@),
                Err(_) => forall|header: HeaderView|
                    field_fits((header.name, header.value)) ==> #[trigger] encode_header(header)
                        != bytes@,
            },
    {
        proof {
            if parse_header(bytes@) is Ok {
                lemma_header_compact_is_exact(bytes@);
            }
            assert forall|header: HeaderView|
                field_fits((header.name, header.value)) && #[trigger] encode_header(header)
                    == bytes@ implies parse_header(bytes@) is Ok by {
                lemma_header_compact_round_trip(header);
            }
        }
        match read_field(bytes, 0) {
            Err(error) => Err(error),
            Ok((field, end)) => if end == bytes.len() {
                Ok(Header { name: field.0, value: field.1 })
            } else {
                Err(DecodeError::TrailingBytes)
            },
        }
    }
}

impl Response {
    /// The compact encoding of this response. Every response has one.
    pub fn encode_compact(&self) -> (bytes: Vec<u8>)
        ensures
            bytes@ == encode_response(self@),
            response_fits(self@),
    {
        let ghost fields = fields_view(self.headers@);
        let mut out = u16_to_le_bytes(self.status);
        write_length(&mut out, self.headers.len());
        let ghost start = out@;
        let mut i: usize = 0;
        assert(fields.take(0) =~= Seq::<FieldView>::empty());
        while i < self.headers.len()
            invariant
                i <= self.headers.len(),
                fields == fields_view(self.headers@),
                out@ == start + put_fields(fields.take(i as int)),
                forall|j: int| 0 <= j < i ==> field_fits(#[trigger] fields[j]),
            decreases self.headers.len() - i,
        {
            write_field(&mut out, self.headers[i].0.as_str(), self.headers[i].1.as_slice());
            proof {
                lemma_put_fields_push(fields.take(i as int), fields[i as int]);
                assert(fields.take(i + 1) =~= fields.take(i as int).push(fields[i as int]));
            }
            i += 1;
        }
        assert(fields.take(i as int) =~= fields);
        write_bytes(&mut out, self.body.as_slice());
        assert(out@ =~= encode_response(self@));
        out
    }

    /// The response that `bytes` is the compact encoding of. Succeeds on
    /// exactly the encodings of responses. Otherwise the error says what
    /// was met first: the bytes end early, a name is not UTF-8, or bytes
    /// are left over.
    pub fn decode_compact(bytes: &[u8]) -> (result: Result<Response, DecodeError>)
        ensures
            match result {
                Ok(response) => parse_response(bytes@) == Ok::<ResponseView, DecodeError>(
                    response@,
                ),
                Err(error) => parse_response(bytes@) == Err::<ResponseView, DecodeError>(error),
            },
            match result {
                Ok(response) => bytes@ == encode_response(response@),
                Err(_) => forall|response: ResponseView|
                    response_fits(response) ==> #[trigger] encode_response(response) != bytes@,
            },
    {
        proof {
            if parse_response(bytes@) is Ok {
                lemma_response_compact_is_exact(bytes@);
            }
            assert forall|response: ResponseView|
                response_fits(response) && #[trigger] encode_response(response)
                    == bytes@ implies parse_response(bytes@) is Ok by {
                lemma_response_compact_round_trip(response);
            }
        }
        if bytes.len() < 2 {
            return Err(DecodeError::UnexpectedEnd);
        }
        let status = u16_from_le_bytes(slice_subrange(bytes, 0, 2));
        let (count, start) = match read_length(bytes, 2) {
            Err(error) => {
                return Err(error);
            },
            Ok(taken) => taken,
        };
        let mut headers: Vec<(String, Vec<u8>)> = Vec::new();
        let mut at = start;
        let mut i: u64 = 0;
        assert(fields_view(headers@) =~= Seq::<FieldView>::empty());
        assert(read_then(
            Seq::<FieldView>::empty(),
            take_fields(bytes@, start as int, count as nat),
        ) == take_fields(bytes@, start as int, count as nat)) by {
            if let Ok((fields, end)) = take_fields(bytes@, start as int, count as nat) {
                assert(Seq::<FieldView>::empty() + fields =~= fields);
            }
        }
        while i < count
            invariant
                i <= count,
                at <= bytes@.len(),
                bytes@.len() >= 2,
                parse_response(bytes@) is Err ==> forall|response: ResponseView|
                    response_fits(response) ==> #[trigger] encode_response(response) != bytes@,
                take_length(bytes@, 2) == Ok::<(nat, int), DecodeError>(
                    (count as nat, start as int),
                ),
                take_fields(bytes@, start as int, count as nat) == read_then(
                    fields_view(headers@),
                    take_fields(bytes@, at as int, (count - i) as nat),
                ),
            decreases count - i,
        {
            match read_field(bytes, at) {
                Err(error) => {
                    return Err(error);
                },
                Ok((field, next)) => {
                    proof {
                        lemma_read_then_joins(
                            fields_view(headers@),
                            (field.0@, field.1@),
                            take_fields(bytes@, next as int, (count - i - 1) as nat),
                        );
                        assert(fields_view(headers@.push(field)) =~= fields_view(headers@).push(
                            (field.0@, field.1@),
                        ));
                    }
                    headers.push(field);
                    at = next;
                    i += 1;
                },
            }
        }
        assert(fields_view(headers@) + Seq::<FieldView>::empty() =~= fields_view(headers@));
        match read_bytes(bytes, at) {
            Err(error) => Err(error),
            Ok((body, end)) => if end == bytes.len() {
                Ok(Response { status, headers, body: slice_to_vec(body) })
            } else {
                Err(DecodeError::TrailingBytes)
            },
        }
    }
}

} // verus!
