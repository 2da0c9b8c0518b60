//! The structured encoding: a record of named, typed entries.
//!
//! A record keeps the name of every entry and says of every value what it
//! is: a number, a text, raw bytes, or a list of header fields. Raw bytes
//! are never carried as text. A header is the record of its `name` (a
//! text) and its `value` (raw bytes). A response is the record of its
//! `status` (a number), its `headers` (a list of header fields) and its
//! `body` (raw bytes). The entries stand in that order.

use vstd::prelude::*;
use vstd::slice::slice_to_vec;
use vstd::std_specs::cmp::PartialEqSpecImpl;
use vstd::string::StringExecFns;
use crate::compact::{encode_response, parse_response, response_fits, lemma_response_compact_round_trip, DecodeError};
use crate::header::{Header, HeaderView};
use crate::response::{clone_fields, fields_equal, fields_view, FieldView, Response, ResponseView};
use crate::text::{bytes_equal, text_equal};

verus! {

/// The value of one entry of a record.
pub enum Value {
    /// A number of sixteen bits.
    Number(u16),
    /// A text.
    Text(String),
    /// Raw bytes, which need not be text.
    Bytes(Vec<u8>),
    /// Header fields in order, each a name and its raw bytes.
    Pairs(Vec<(String, Vec<u8>)>),
}

/// What a [`Value`] holds.
pub enum ValueView {
    /// A number of sixteen bits.
    Number(u16),
    /// The characters of a text.
    Text(Seq<char>),
    /// Raw bytes.
    Bytes(Seq<u8>),
    /// Header fields in order.
    Pairs(Seq<FieldView>),
}

impl View for Value {
    type V = ValueView;

    open spec fn view(&self) -> ValueView {
        match self {
            Value::Number(number) => ValueView::Number(*number),
            Value::Text(text) => ValueView::Text(text@),
            Value::Bytes(bytes) => ValueView::Bytes(bytes@),
            Value::Pairs(fields) => ValueView::Pairs(fields_view(fields@)),
        }
    }
}

/// A structured document: named entries in order.
pub struct Record {
    /// The entries, each a name and a value.
    pub entries: Vec<(String, Value)>,
}

/// What one entry of a record holds.
pub type EntryView = (Seq<char>, ValueView);

impl View for Record {
    type V = Seq<EntryView>;

    open spec fn view(&self) -> Seq<EntryView> {
        Seq::new(self.entries@.len(), |i: int| (self.entries@[i].0@, self.entries@[i].1@))
    }
}

/// Why a record is not the structured encoding of a value.
#[derive(Clone, Copy, Debug, PartialEq, Eq, Structural)]
pub enum StructureError {
    /// The record has more or fewer entries than the value has fields.
    FieldCount,
    /// An entry does not have the name of the field in its place.
    FieldName,
    /// An entry holds another kind of value than its field.
    FieldType,
}

/// The structured encoding of a header.
pub open spec fn header_record(header: HeaderView) -> Seq<EntryView> {
    seq![("name"@, ValueView::Text(header.name)), ("value"@, ValueView::Bytes(header.value))]
}

/// The structured encoding of a response.
pub open spec fn response_record(response: ResponseView) -> Seq<EntryView> {
    seq![
        ("status"@, ValueView::Number(response.status)),
        ("headers"@, ValueView::Pairs(response.headers)),
        ("body"@, ValueView::Bytes(response.body)),
    ]
}

/// The header that `record` is the structured encoding of, or why it is
/// none. The entries are examined in order, the name of each before its
/// value.
pub open spec fn read_header_record(record: Seq<EntryView>) -> Result<HeaderView, StructureError> {
    if record.len() != 2 {
        Err(StructureError::FieldCount)
    } else if record[0].0 != "name"@ {
        Err(StructureError::FieldName)
    } else if !(record[0].1 is Text) {
        Err(StructureError::FieldType)
    } else if record[1].0 != "value"@ {
        Err(StructureError::FieldName)
    } else if !(record[1].1 is Bytes) {
        Err(StructureError::FieldType)
    } else {
        Ok(HeaderView { name: record[0].1->Text_0, value: record[1].1->Bytes_0 })
    }
}

/// The response that `record` is the structured encoding of, or why it is
/// none. The entries are examined in order, the name of each before its
/// value.
pub open spec fn read_response_record(record: Seq<EntryView>) -> Result<
    ResponseView,
    StructureError,
> {
    if record.len() != 3 {
        Err(StructureError::FieldCount)
    } else if record[0].0 != "status"@ {
        Err(StructureError::FieldName)
    } else if !(record[0].1 is Number) {
        Err(StructureError::FieldType)
    } else if record[1].0 != "headers"@ {
        Err(StructureError::FieldName)
    } else if !(record[1].1 is Pairs) {
        Err(StructureError::FieldType)
    } else if record[2].0 != "body"@ {
        Err(StructureError::FieldName)
    } else if !(record[2].1 is Bytes) {
        Err(StructureError::FieldType)
    } else {
        Ok(
            ResponseView {
                status: record[0].1->Number_0,
                headers: record[1].1->Pairs_0,
                body: record[2].1->Bytes_0,
            },
        )
    }
}

/// Decoding inverts encoding: the structured encoding of a header is read
/// back as that header, whatever bytes its value holds.
pub proof fn lemma_header_structured_round_trip(header: HeaderView)
    ensures
        read_header_record(header_record(header)) == Ok::<HeaderView, StructureError>(header),
{
}

/// Only encodings are decoded: a record that is read as a header is the
/// structured encoding of that header.
pub proof fn lemma_header_structured_is_exact(record: Seq<EntryView>)
    requires
        read_header_record(record) is Ok,
    ensures
        header_record(read_header_record(record)->Ok_0) == record,
{
    assert(header_record(read_header_record(record)->Ok_0) =~= record);
}

/// Decoding inverts encoding: the structured encoding of a response is
/// read back as that response, with every header in its place and every
/// byte of every value and of the body as it was.
pub proof fn lemma_response_structured_round_trip(response: ResponseView)
    ensures
        read_response_record(response_record(response)) == Ok::<ResponseView, StructureError>(
            response,
        ),
{
}

/// Only encodings are decoded: a record that is read as a response is the
/// structured encoding of that response.
pub proof fn lemma_response_structured_is_exact(record: Seq<EntryView>)
    requires
        read_response_record(record) is Ok,
    ensures
        response_record(read_response_record(record)->Ok_0) == record,
{
    assert(response_record(read_response_record(record)->Ok_0) =~= record);
}

/// The two encodings do not diverge: decoding either encoding of a
/// response gives the same response, the one that was encoded.
pub proof fn lemma_encodings_agree(response: ResponseView)
    requires
        response_fits(response),
    ensures
        read_response_record(response_record(response)) == Ok::<ResponseView, StructureError>(
            response,
        ),
        parse_response(encode_response(response)) == Ok::<ResponseView, DecodeError>(response),
{
    lemma_response_structured_round_trip(response);
    lemma_response_compact_round_trip(response);
}

impl Header {
    /// The structured encoding of this header. Every header has one.
    pub fn encode_structured(&self) -> (record: Record)
        ensures
            record@ == header_record(self@),
    {
        let mut entries: Vec<(String, Value)> = Vec::new();
        entries.push((String::from_str("name"), Value::Text(self.name.clone())));
        entries.push(
            (String::from_str("value"), Value::Bytes(slice_to_vec(self.value.as_slice()))),
        );
        let record = Record { entries };
        assert(record@ =~= header_record(self@));
        record
    }

    /// The header that `record` is the structured encoding of. Succeeds on
    /// exactly the encodings of headers. Otherwise the error says what was
    /// met first: another number of entries, another name, or another kind
    /// of value.
    pub fn decode_structured(record: &Record) -> (result: Result<Header, StructureError>)
        ensures
            match result {
                Ok(header) => read_header_record(record@) == Ok::<HeaderView, StructureError>(
                    header@,
                ),
                Err(error) => read_header_record(record@) == Err::<HeaderView, StructureError>(
                    error,
                ),
            },
            match result {
                Ok(header) => record@ == header_record(header@),
                Err(_) => forall|header: HeaderView| #[trigger] header_record(header) != record@,
            },
    {
        proof {
            if read_header_record(record@) is Ok {
                lemma_header_structured_is_exact(record@);
            }
            assert forall|header: HeaderView| #[trigger]
                header_record(header) == record@ implies read_header_record(record@) is Ok by {
                lemma_header_structured_round_trip(header);
            }
        }
        if record.entries.len() != 2 {
            return Err(StructureError::FieldCount);
        }
        if !text_equal(record.entries[0].0.as_str(), "name") {
            return Err(StructureError::FieldName);
        }
        let name = match &record.entries[0].1 {
            Value::Text(text) => text.clone(),
            _ => {
                return Err(StructureError::FieldType);
            },
        };
        if !text_equal(record.entries[1].0.as_str(), "value") {
            return Err(StructureError::FieldName);
        }
        let value = match &record.entries[1].1 {
            Value::Bytes(bytes) => slice_to_vec(bytes.as_slice()),
            _ => {
                return Err(StructureError::FieldType);
            },
        };
        Ok(Header { name, value })
    }
}

impl Response {
    /// The structured encoding of this response. Every response has one.
    pub fn encode_structured(&self) -> (record: Record)
        ensures
            record@ == response_record(self@),
    {
        let mut entries: Vec<(String, Value)> = Vec::new();
        entries.push((String::from_str("status"), Value::Number(self.status)));
        entries.push((String::from_str("headers"), Value::Pairs(clone_fields(&self.headers))));
        entries.push((String::from_str("body"), Value::Bytes(slice_to_vec(self.body.as_slice()))));
        let record = Record { entries };
        assert(record@ =~= response_record(self@));
        record
    }

    /// The response that `record` is the structured encoding of. Succeeds
    /// on exactly the encodings of responses. Otherwise the error says what
    /// was met first: another number of entries, another name, or another
    /// kind of value.
    pub fn decode_structured(record: &Record) -> (result: Result<Response, StructureError>)
        ensures
            match result {
                Ok(response) => read_response_record(record@) == Ok::<
                    ResponseView,
                    StructureError,
                >(response@),
                Err(error) => read_response_record(record@) == Err::<ResponseView, StructureError>(
                    error,
                ),
            },
            match result {
                Ok(response) => record@ == response_record(response@),
                Err(_) => forall|response: ResponseView| #[trigger]
                    response_record(response) != record@,
            },
    {
        proof {
            if read_response_record(record@) is Ok {
                lemma_response_structured_is_exact(record@);
            }
            assert forall|response: ResponseView| #[trigger]
                response_record(response) == record@ implies read_response_record(record@)
                is Ok by {
                lemma_response_structured_round_trip(response);
            }
        }
        if record.entries.len() != 3 {
            return Err(StructureError::FieldCount);
        }
        if !text_equal(record.entries[0].0.as_str(), "status") {
            return Err(StructureError::FieldName);
        }
        let status = match &record.entries[0].1 {
            Value::Number(number) => *number,
            _ => {
                return Err(StructureError::FieldType);
            },
        };
        if !text_equal(record.entries[1].0.as_str(), "headers") {
            return Err(StructureError::FieldName);
        }
        let headers = match &record.entries[1].1 {
            Value::Pairs(fields) => clone_fields(fields),
            _ => {
                return Err(StructureError::FieldType);
            },
        };
        if !text_equal(record.entries[2].0.as_str(), "body") {
            return Err(StructureError::FieldName);
        }
        let body = match &record.entries[2].1 {
            Value::Bytes(bytes) => slice_to_vec(bytes.as_slice()),
            _ => {
                return Err(StructureError::FieldType);
            },
        };
        Ok(Response { status, headers, body })
    }
}

impl PartialEq for Value {
    fn eq(&self, other: &Value) -> (equal: bool) {
        match (self, other) {
            (Value::Number(a), Value::Number(b)) => *a == *b,
            (Value::Text(a), Value::Text(b)) => text_equal(a.as_str(), b.as_str()),
            (Value::Bytes(a), Value::Bytes(b)) => bytes_equal(a.as_slice(), b.as_slice()),
            (Value::Pairs(a), Value::Pairs(b)) => fields_equal(a, b),
            _ => false,
        }
    }
}

impl Eq for Value {

}

impl PartialEqSpecImpl for Value {
    open spec fn obeys_eq_spec() -> bool {
        true
    }

    open spec fn eq_spec(&self, other: &Value) -> bool {
        self@ == other@
    }
}

impl PartialEq for Record {
    fn eq(&self, other: &Record) -> (equal: bool) {
        if self.entries.len() != other.entries.len() {
            assert(self@.len() != other@.len());
            return false;
        }
        let mut i: usize = 0;
        while i < self.entries.len()
            invariant
                i <= self.entries.len(),
                self.entries@.len() == other.entries@.len(),
                forall|j: int| 0 <= j < i ==> self@[j] == other@[j],
            decreases self.entries.len() - i,
        {
            if !text_equal(self.entries[i].0.as_str(), other.entries[i].0.as_str())
                || self.entries[i].1 != other.entries[i].1 {
                assert(self@[i as int] != other@[i as int]);
                return false;
            }
            i += 1;
        }
        assert(self@ =~= other@);
        true
    }
}

impl Eq for Record {

}

impl PartialEqSpecImpl for Record {
    open spec fn obeys_eq_spec() -> bool {
        true
    }

    open spec fn eq_spec(&self, other: &Record) -> bool {
        self@ == other@
    }
}

} // verus!
