//! Diagnostic rendering, for logs and debugging.
//!
//! Raw bytes are never shown as text. The value of a header and the body
//! of a response are shown as a hexadecimal dump, two lower-case digits
//! for every byte. The headers of a response are shown as a list of pairs,
//! each value as a list of numbers.

use vstd::prelude::*;
use vstd::string::StringExecFns;
use crate::header::{Header, HeaderView};
use crate::response::{fields_view, FieldView, Response, ResponseView};

verus! {

/// The digit for a number below sixteen.
pub open spec fn digit(number: int) -> char {
    if number == 0 {
        '0'
    } else if number == 1 {
        '1'
    } else if number == 2 {
        '2'
    } else if number == 3 {
        '3'
    } else if number == 4 {
        '4'
    } else if number == 5 {
        '5'
    } else if number == 6 {
        '6'
    } else if number == 7 {
        '7'
    } else if number == 8 {
        '8'
    } else if number == 9 {
        '9'
    } else if number == 10 {
        'a'
    } else if number == 11 {
        'b'
    } else if number == 12 {
        'c'
    } else if number == 13 {
        'd'
    } else if number == 14 {
        'e'
    } else {
        'f'
    }
}

/// The hexadecimal dump of a byte string: for every byte its high digit,
/// then its low digit.
pub open spec fn hex_text(bytes: Seq<u8>) -> Seq<char> {
    Seq::new(
        2 * bytes.len(),
        |i: int|
            if i % 2 == 0 {
                digit(bytes[i / 2] as int / 16)
            } else {
                digit(bytes[i / 2] as int % 16)
            },
    )
}

/// A number in decimal, without leading zeros.
pub open spec fn decimal_text(number: nat) -> Seq<char>
    decreases number,
{
    if number < 10 {
        seq![digit(number as int)]
    } else {
        decimal_text(number / 10).push(digit(number as int % 10))
    }
}

/// The numbers of a byte string in decimal, with `, ` between them.
pub open spec fn numbers_text(bytes: Seq<u8>) -> Seq<char>
    decreases bytes.len(),
{
    if bytes.len() == 0 {
        Seq::empty()
    } else if bytes.len() == 1 {
        decimal_text(bytes[0] as nat)
    } else {
        numbers_text(bytes.drop_last()) + ", "@ + decimal_text(bytes.last() as nat)
    }
}

/// One header field as a pair: its name between quotes, then its value as
/// a list of numbers.
pub open spec fn field_text(field: FieldView) -> Seq<char> {
    "(\""@ + field.0 + "\", ["@ + numbers_text(field.1) + "])"@
}

/// Header fields as pairs, with `, ` between them.
pub open spec fn fields_text(fields: Seq<FieldView>) -> Seq<char>
    decreases fields.len(),
{
    if fields.len() == 0 {
        Seq::empty()
    } else if fields.len() == 1 {
        field_text(fields[0])
    } else {
        fields_text(fields.drop_last()) + ", "@ + field_text(fields.last())
    }
}

/// The diagnostic rendering of a header.
pub open spec fn header_text(header: HeaderView) -> Seq<char> {
    "Header { name: \""@ + header.name + "\", value: "@ + hex_text(header.value) + " }"@
}

/// The diagnostic rendering of a response.
pub open spec fn response_text(response: ResponseView) -> Seq<char> {
    "Response { status: "@ + decimal_text(response.status as nat) + ", headers: ["@ + fields_text(
        response.headers,
    ) + "], body: "@ + hex_text(response.body) + " }"@
}

/// A hexadecimal dump has two digits for every byte.
pub proof fn lemma_hex_text_is_fixed_width(bytes: Seq<u8>)
    ensures
        hex_text(bytes).len() == 2 * bytes.len(),
        forall|i: int|
            0 <= i < bytes.len() ==> hex_text(bytes)[2 * i] == digit(bytes[i] as int / 16)
                && hex_text(bytes)[2 * i + 1] == digit(bytes[i] as int % 16),
{
}

/// The text of one digit.
fn digit_str(number: u8) -> (text: &'static str)
    requires
        number < 16,
    ensures
        text@ == seq![digit(number as int)],
{
    proof {
        reveal_strlit("0");
        reveal_strlit("1");
        reveal_strlit("2");
        reveal_strlit("3");
        reveal_strlit("4");
        reveal_strlit("5");
        reveal_strlit("6");
        reveal_strlit("7");
        reveal_strlit("8");
        reveal_strlit("9");
        reveal_strlit("a");
        reveal_strlit("b");
        reveal_strlit("c");
        reveal_strlit("d");
        reveal_strlit("e");
        reveal_strlit("f");
    }
    let text = match number {
        0 => "0",
        1 => "1",
        2 => "2",
        3 => "3",
        4 => "4",
        5 => "5",
        6 => "6",
        7 => "7",
        8 => "8",
        9 => "9",
        10 => "a",
        11 => "b",
        12 => "c",
        13 => "d",
        14 => "e",
        _ => "f",
    };
    assert(text@ =~= seq![digit(number as int)]);
    text
}

/// Appends the hexadecimal dump of `bytes` to `out`.
fn write_hex(out: &mut String, bytes: &[u8])
    ensures
        final(out)@ == old(out)@ + hex_text(bytes@),
{
    let mut i: usize = 0;
    assert(hex_text(bytes@.take(0)) =~= Seq::<char>::empty());
    while i < bytes.len()
        invariant
            i <= bytes.len(),
            out@ == old(out)@ + hex_text(bytes@.take(i as int)),
        decreases bytes.len() - i,
    {
        out.append(digit_str(bytes[i] / 16));
        out.append(digit_str(bytes[i] % 16));
        assert(hex_text(bytes@.take(i + 1)) =~= hex_text(bytes@.take(i as int)) + seq![
            digit(bytes@[i as int] as int / 16),
        ] + seq![digit(bytes@[i as int] as int % 16)]);
        i += 1;
    }
    assert(bytes@.take(i as int) =~= bytes@);
}

/// Appends `number` in decimal to `out`.
fn write_decimal(out: &mut String, number: u16)
    ensures
        final(out)@ == old(out)@ + decimal_text(number as nat),
    decreases number,
{
    if number >= 10 {
        write_decimal(out, number / 10);
    }
    out.append(digit_str((number % 10) as u8));
    assert(out@ =~= old(out)@ + decimal_text(number as nat));
}

/// Appends the numbers of `bytes` to `out`.
fn write_numbers(out: &mut String, bytes: &[u8])
    ensures
        final(out)@ == old(out)@ + numbers_text(bytes@),
{
    let mut i: usize = 0;
    assert(numbers_text(bytes@.take(0)) =~= Seq::<char>::empty());
    while i < bytes.len()
        invariant
            i <= bytes.len(),
            out@ == old(out)@ + numbers_text(bytes@.take(i as int)),
        decreases bytes.len() - i,
    {
        let ghost before = bytes@.take(i as int);
        let ghost now = bytes@.take(i + 1);
        assert(now.drop_last() =~= before);
        assert(now.last() == bytes@[i as int]);
        if i > 0 {
            out.append(", ");
        }
        write_decimal(out, bytes[i] as u16);
        assert(out@ =~= old(out)@ + numbers_text(now));
        i += 1;
    }
    assert(bytes@.take(i as int) =~= bytes@);
}

/// Appends one header field to `out`.
fn write_field_text(out: &mut String, name: &str, value: &[u8])
    ensures
        final(out)@ == old(out)@ + field_text((name@, value@)),
{
    out.append("(\"");
    out.append(name);
    out.append("\", [");
    write_numbers(out, value);
    out.append("])");
    assert(out@ =~= old(out)@ + field_text((name@, value@)));
}

/// Appends header fields to `out`.
fn write_fields_text(out: &mut String, fields: &Vec<(String, Vec<u8>)>)
    ensures
        final(out)@ == old(out)@ + fields_text(fields_view(fields@)),
{
    let ghost all = fields_view(fields@);
    let mut i: usize = 0;
    assert(fields_text(all.take(0)) =~= Seq::<char>::empty());
    while i < fields.len()
        invariant
            i <= fields.len(),
            all == fields_view(fields@),
            out@ == old(out)@ + fields_text(all.take(i as int)),
        decreases fields.len() - i,
    {
        let ghost before = all.take(i as int);
        let ghost now = all.take(i + 1);
        assert(now.drop_last() =~= before);
        assert(now.last() == all[i as int]);
        if i > 0 {
            out.append(", ");
        }
        write_field_text(out, fields[i].0.as_str(), fields[i].1.as_slice());
        assert(out@ =~= old(out)@ + fields_text(now));
        i += 1;
    }
    assert(all.take(i as int) =~= all);
}

/// The hexadecimal dump of `bytes`: two lower-case digits for every byte,
/// nothing between them.
pub fn hex_dump(bytes: &[u8]) -> (text: String)
    ensures
        text@ == hex_text(bytes@),
{
    let mut out = String::new();
    write_hex(&mut out, bytes);
    assert(out@ =~= hex_text(bytes@));
    out
}

impl Header {
    /// The diagnostic rendering of this header: the name as it is, the
    /// value as a hexadecimal dump.
    pub fn diagnostic(&self) -> (text: String)
        ensures
            text@ == header_text(self@),
    {
        let mut out = String::from_str("Header { name: \"");
        out.append(self.name.as_str());
        out.append("\", value: ");
        write_hex(&mut out, self.value.as_slice());
        out.append(" }");
        out
    }
}

impl Response {
    /// The diagnostic rendering of this response: status and headers by
    /// their structure, the body as a hexadecimal dump.
    pub fn diagnostic(&self) -> (text: String)
        ensures
            text@ == response_text(self@),
    {
        let mut out = String::from_str("Response { status: ");
        write_decimal(&mut out, self.status);
        out.append(", headers: [");
        write_fields_text(&mut out, &self.headers);
        out.append("], body: ");
        write_hex(&mut out, self.body.as_slice());
        out.append(" }");
        out
    }
}

} // verus!
