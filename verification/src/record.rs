//! Records: the header of serial types at the front of a payload, the
//! fields it lays out, and the typed value of each field.

use vstd::prelude::*;
use vstd::slice::{slice_subrange, slice_to_vec};
use vstd::utf8::{decode_utf8, valid_utf8};

use crate::bytes::{be_i64, be_signed, be_u64, be_value};
use crate::cell::{CellContent, CellContentView};
use crate::error::DecodeError;
use crate::varint::{decode_be, decoded, lemma_decoded_bounds};

verus! {

/// The storage class of a field.
#[derive(Debug, Clone, Copy, PartialEq, Eq, Structural)]
pub enum DataType {
    Null,
    BooleanFalse,
    BooleanTrue,
    Integer,
    Real,
    Text,
    Blob,
}

/// The bytes of a field cannot be read as a value of `data_type`.
#[derive(Debug, Clone, Copy, PartialEq, Eq, Structural)]
pub struct ParseError {
    pub data_type: DataType,
}

/// The message of a `ParseError` for each storage class.
pub open spec fn parse_failure_text(data_type: DataType) -> &'static str {
    match data_type {
        DataType::Null => "Failed to parse field as `NULL`",
        DataType::BooleanFalse => "Failed to parse field as `FALSE`",
        DataType::BooleanTrue => "Failed to parse field as `True`",
        DataType::Integer => "Failed to parse field as `INTEGER`",
        DataType::Real => "Failed to parse field as `REAL`",
        DataType::Text => "Failed to parse field as `TEXT`",
        DataType::Blob => "Failed to parse field as `BLOB`",
    }
}

impl ParseError {
    pub fn new(data_type: DataType) -> (e: Self)
        ensures
            e.data_type == data_type,
    {
        Self { data_type }
    }

    /// The message that describes the failure.
    pub fn details(&self) -> (s: &'static str)
        ensures
            s == parse_failure_text(self.data_type),
    {
        match self.data_type {
            DataType::Null => "Failed to parse field as `NULL`",
            DataType::BooleanFalse => "Failed to parse field as `FALSE`",
            DataType::BooleanTrue => "Failed to parse field as `True`",
            DataType::Integer => "Failed to parse field as `INTEGER`",
            DataType::Real => "Failed to parse field as `REAL`",
            DataType::Text => "Failed to parse field as `TEXT`",
            DataType::Blob => "Failed to parse field as `BLOB`",
        }
    }
}

/// The value of a field. A real number is held as the 64 bits of its
/// IEEE-754 double, most significant bit first as they stand in the file.
#[derive(Debug)]
pub enum FieldData {
    Null(()),
    BooleanFalse(u8),
    BooleanTrue(u8),
    Integer(i64),
    Real(u64),
    Text(String),
    Blob(Vec<u8>),
}

/// What a `FieldData` holds, as mathematical values.
pub ghost enum FieldValue {
    Null,
    BooleanFalse(u8),
    BooleanTrue(u8),
    Integer(i64),
    Real(u64),
    Text(Seq<char>),
    Blob(Seq<u8>),
}

impl View for FieldData {
    type V = FieldValue;

    open spec fn view(&self) -> FieldValue {
        match *self {
            FieldData::Null(_) => FieldValue::Null,
            FieldData::BooleanFalse(b) => FieldValue::BooleanFalse(b),
            FieldData::BooleanTrue(b) => FieldValue::BooleanTrue(b),
            FieldData::Integer(i) => FieldValue::Integer(i),
            FieldData::Real(bits) => FieldValue::Real(bits),
            FieldData::Text(s) => FieldValue::Text(s@),
            FieldData::Blob(b) => FieldValue::Blob(b@),
        }
    }
}

/// The widths in bytes that an integer field can have.
pub open spec fn is_integer_width(len: nat) -> bool {
    len == 1 || len == 2 || len == 3 || len == 4 || len == 6 || len == 8
}

/// The value that `data` holds when read as `data_type`, where it can be
/// read so. `NULL` and the two booleans take no bytes; an integer is
/// big-endian two's complement, sign-extended from its width; a real is
/// eight bytes; text is UTF-8; a blob is any bytes.
pub open spec fn parsed(data_type: DataType, data: Seq<u8>) -> Option<FieldValue> {
    match data_type {
        DataType::Null => if data.len() == 0 {
            Some(FieldValue::Null)
        } else {
            None
        },
        DataType::BooleanFalse => if data.len() == 0 {
            Some(FieldValue::BooleanFalse(0))
        } else {
            None
        },
        DataType::BooleanTrue => if data.len() == 0 {
            Some(FieldValue::BooleanTrue(1))
        } else {
            None
        },
        DataType::Integer => if is_integer_width(data.len()) {
            Some(FieldValue::Integer(be_signed(data) as i64))
        } else {
            None
        },
        DataType::Real => if data.len() == 8 {
            Some(FieldValue::Real(be_value(data) as u64))
        } else {
            None
        },
        DataType::Text => if valid_utf8(data) {
            Some(FieldValue::Text(decode_utf8(data)))
        } else {
            None
        },
        DataType::Blob => Some(FieldValue::Blob(data)),
    }
}

/// `String::from_utf8` of std: the text that `bytes` encode where they are
/// well-formed UTF-8, and no text otherwise.
#[verifier::external_body]
fn string_from_utf8(bytes: Vec<u8>) -> (r: Option<String>)
    ensures
        r is Some <==> valid_utf8(bytes@),
        r matches Some(s) ==> s@ == decode_utf8(bytes@),
{
    String::from_utf8(bytes).ok()
}

impl FieldData {
    /// Reads `data`, the bytes of one field, as a value of `data_type`.
    pub fn parse(data_type: DataType, data: &[u8]) -> (r: Result<Self, ParseError>)
        ensures
            match r {
                Ok(value) => parsed(data_type, data@) == Some(value@),
                Err(e) => parsed(data_type, data@) is None && e.data_type == data_type,
            },
    {
        let len = data.len();
        match data_type {
            DataType::Null => {
                if len != 0 {
                    return Err(ParseError::new(DataType::Null));
                }
                Ok(FieldData::Null(()))
            },
            DataType::BooleanFalse => {
                if len != 0 {
                    return Err(ParseError::new(DataType::BooleanFalse));
                }
                Ok(FieldData::BooleanFalse(0))
            },
            DataType::BooleanTrue => {
                if len != 0 {
                    return Err(ParseError::new(DataType::BooleanTrue));
                }
                Ok(FieldData::BooleanTrue(1))
            },
            DataType::Integer => {
                if len == 1 || len == 2 || len == 3 || len == 4 || len == 6 || len == 8 {
                    Ok(FieldData::Integer(be_i64(data)))
                } else {
                    Err(ParseError::new(DataType::Integer))
                }
            },
            DataType::Real => {
                if len != 8 {
                    return Err(ParseError::new(DataType::Real));
                }
                Ok(FieldData::Real(be_u64(data)))
            },
            DataType::Text => {
                match string_from_utf8(slice_to_vec(data)) {
                    Some(text) => Ok(FieldData::Text(text)),
                    None => Err(ParseError::new(DataType::Text)),
                }
            },
            DataType::Blob => Ok(FieldData::Blob(slice_to_vec(data))),
        }
    }
}

/// One column of a record: where its bytes lie in the payload, and how
/// they are read.
#[derive(Debug, Clone, Copy, PartialEq, Eq, Structural)]
pub struct Field {
    pub size: usize,
    pub offset: usize,
    pub data_type: DataType,
}

impl Default for Field {
    fn default() -> (f: Self)
        ensures
            f == (Field { size: 0, offset: 0, data_type: DataType::Null }),
    {
        Self { size: 0, offset: 0, data_type: DataType::Null }
    }
}

/// The value of `field` in `payload`: its bytes must lie within the
/// payload and be readable as its type.
pub open spec fn materialized(field: Field, payload: Seq<u8>) -> Result<FieldValue, DecodeError> {
    if field.offset + field.size > payload.len() {
        Err(DecodeError::OutOfRange)
    } else {
        match parsed(
            field.data_type,
            payload.subrange(field.offset as int, field.offset + field.size),
        ) {
            Some(value) => Ok(value),
            None => Err(DecodeError::Encoding),
        }
    }
}

/// The value of `field` in the cell `content`. The cell of a table
/// interior page has no payload, and no field can be read from it.
pub open spec fn field_read(field: Field, content: CellContentView) -> Result<
    FieldValue,
    DecodeError,
> {
    match content.payload() {
        Some(payload) => materialized(field, payload),
        None => Err(DecodeError::OutOfRange),
    }
}

impl Field {
    /// Reads the field's value out of the payload of the cell `content`.
    pub fn read_data(&self, content: &CellContent) -> (r: Result<FieldData, DecodeError>)
        ensures
            match r {
                Ok(value) => field_read(*self, content@) == Ok::<FieldValue, DecodeError>(value@),
                Err(e) => field_read(*self, content@) == Err::<FieldValue, DecodeError>(e),
            },
    {
        match content.get_payload() {
            Ok(payload) => self.materialize(payload.as_slice()),
            Err(e) => Err(e),
        }
    }

    /// Reads the field's value out of `payload`, the payload that the
    /// field was laid out in.
    pub fn materialize(&self, payload: &[u8]) -> (r: Result<FieldData, DecodeError>)
        ensures
            match r {
                Ok(value) => materialized(*self, payload@) == Ok::<FieldValue, DecodeError>(value@),
                Err(e) => materialized(*self, payload@) == Err::<FieldValue, DecodeError>(e),
            },
    {
        let len = payload.len();
        if self.offset > len || self.size > len - self.offset {
            return Err(DecodeError::OutOfRange);
        }
        let data = slice_subrange(payload, self.offset, self.offset + self.size);
        match FieldData::parse(self.data_type, data) {
            Ok(value) => Ok(value),
            Err(_) => Err(DecodeError::Encoding),
        }
    }
}

/// The storage class and the size in bytes that a serial type stands for.
/// The serial types 10 and 11 are reserved and stand for nothing.
pub open spec fn serial_layout(serial_type: u64) -> Option<(DataType, nat)> {
    if serial_type == 0 {
        Some((DataType::Null, 0))
    } else if serial_type <= 4 {
        Some((DataType::Integer, serial_type as nat))
    } else if serial_type == 5 {
        Some((DataType::Integer, 6))
    } else if serial_type == 6 {
        Some((DataType::Integer, 8))
    } else if serial_type == 7 {
        Some((DataType::Real, 8))
    } else if serial_type == 8 {
        Some((DataType::BooleanFalse, 0))
    } else if serial_type == 9 {
        Some((DataType::BooleanTrue, 0))
    } else if serial_type <= 11 {
        None
    } else if serial_type % 2 == 0 {
        Some((DataType::Blob, ((serial_type - 12) / 2) as nat))
    } else {
        Some((DataType::Text, ((serial_type - 13) / 2) as nat))
    }
}

/// Looks a serial type up: its storage class and its size in bytes.
pub fn serial_type_layout(serial_type: u64) -> (r: Option<(DataType, u64)>)
    ensures
        match r {
            Some((data_type, size)) => serial_layout(serial_type) == Some((data_type, size as nat)),
            None => serial_layout(serial_type) is None,
        },
{
    if serial_type == 0 {
        Some((DataType::Null, 0))
    } else if serial_type <= 4 {
        Some((DataType::Integer, serial_type))
    } else if serial_type == 5 {
        Some((DataType::Integer, 6))
    } else if serial_type == 6 {
        Some((DataType::Integer, 8))
    } else if serial_type == 7 {
        Some((DataType::Real, 8))
    } else if serial_type == 8 {
        Some((DataType::BooleanFalse, 0))
    } else if serial_type == 9 {
        Some((DataType::BooleanTrue, 0))
    } else if serial_type <= 11 {
        None
    } else if serial_type % 2 == 0 {
        Some((DataType::Blob, (serial_type - 12) / 2))
    } else {
        Some((DataType::Text, (serial_type - 13) / 2))
    }
}

/// The fields that the serial types from `cursor` up to `header_size` lay
/// out, the first of them at `field_start`. Each serial type is a varint
/// that must end within the header; each field begins where the one before
/// it ends, and must end at an offset that a `usize` can hold.
pub open spec fn header_fields(
    payload: Seq<u8>,
    header_size: nat,
    cursor: nat,
    field_start: nat,
) -> Result<Seq<Field>, DecodeError>
    recommends
        header_size <= payload.len(),
    decreases header_size - cursor,
    when header_size <= payload.len()
{
    if cursor >= header_size {
        Ok(Seq::empty())
    } else {
        match decoded(payload.subrange(cursor as int, header_size as int)) {
            None => Err(DecodeError::Encoding),
            Some((serial_type, used)) => match serial_layout(serial_type) {
                None => Err(DecodeError::InvalidFormat),
                Some((data_type, size)) => if field_start + size > usize::MAX {
                    Err(DecodeError::OutOfRange)
                } else {
                    let field = Field {
                        size: size as usize,
                        offset: field_start as usize,
                        data_type,
                    };
                    proof {
                        lemma_decoded_bounds(payload.subrange(cursor as int, header_size as int));
                    }
                    match header_fields(payload, header_size, cursor + used, field_start + size) {
                        Ok(rest) => Ok(seq![field] + rest),
                        Err(e) => Err(e),
                    }
                },
            },
        }
    }
}

/// The fields of the record in `payload`. The payload begins with a
/// varint, the size of the header in bytes, itself included; the serial
/// types follow it up to that size, and the first field begins where the
/// header ends.
pub open spec fn record_fields(payload: Seq<u8>) -> Result<Seq<Field>, DecodeError> {
    match decoded(payload) {
        None => Err(DecodeError::Encoding),
        Some((header_size, used)) => if header_size > payload.len() {
            Err(DecodeError::Truncated)
        } else {
            header_fields(payload, header_size as nat, used, header_size as nat)
        },
    }
}

/// `rest` with the fields `done` put before it.
spec fn preceded_by(done: Seq<Field>, rest: Result<Seq<Field>, DecodeError>) -> Result<
    Seq<Field>,
    DecodeError,
> {
    match rest {
        Ok(fields) => Ok(done + fields),
        Err(e) => Err(e),
    }
}

/// A decoded row: its fields in the order of the columns, once they are
/// loaded.
#[derive(Debug)]
pub struct Record {
    pub fields: Option<Vec<Field>>,
}

impl View for Record {
    type V = Option<Seq<Field>>;

    open spec fn view(&self) -> Option<Seq<Field>> {
        match self.fields {
            Some(fields) => Some(fields@),
            None => None,
        }
    }
}

impl Default for Record {
    fn default() -> (r: Self)
        ensures
            r@ is None,
    {
        Self { fields: None }
    }
}

impl Record {
    /// A record with no fields loaded.
    pub fn new() -> (r: Self)
        ensures
            r@ is None,
    {
        Self { fields: None }
    }

    /// Reads the header of the record in `payload` and keeps the fields
    /// that it lays out. On an error the record keeps what it had.
    pub fn load_fields(&mut self, payload: &[u8]) -> (r: Result<(), DecodeError>)
        ensures
            match r {
                Ok(()) => record_fields(payload@) == Ok::<Seq<Field>, DecodeError>(
                    final(self)@->Some_0,
                ) && final(self)@ is Some,
                Err(e) => record_fields(payload@) == Err::<Seq<Field>, DecodeError>(e)
                    && *final(self) == *old(self),
            },
    {
        let (header_size, first) = match decode_be(payload) {
            Ok(found) => found,
            Err(_) => {
                return Err(DecodeError::Encoding);
            },
        };
        if header_size > payload.len() as u64 {
            return Err(DecodeError::Truncated);
        }
        let header_end = header_size as usize;
        let mut fields: Vec<Field> = Vec::new();
        let mut position: usize = first;
        let mut field_start: usize = header_end;
        proof {
            assert(Seq::<Field>::empty() + header_fields(
                payload@,
                header_end as nat,
                position as nat,
                field_start as nat,
            )->Ok_0 =~= header_fields(
                payload@,
                header_end as nat,
                position as nat,
                field_start as nat,
            )->Ok_0);
        }
        while position < header_end
            invariant
                header_end <= payload@.len(),
                record_fields(payload@) == preceded_by(
                    fields@,
                    header_fields(
                        payload@,
                        header_end as nat,
                        position as nat,
                        field_start as nat,
                    ),
                ),
            decreases header_end - position,
        {
            let (serial_type, used) = match decode_be(
                slice_subrange(payload, position, header_end),
            ) {
                Ok(found) => found,
                Err(_) => {
                    return Err(DecodeError::Encoding);
                },
            };
            let (data_type, size) = match serial_type_layout(serial_type) {
                Some(found) => found,
                None => {
                    return Err(DecodeError::InvalidFormat);
                },
            };
            if size > (usize::MAX - field_start) as u64 {
                return Err(DecodeError::OutOfRange);
            }
            let field = Field { size: size as usize, offset: field_start, data_type };
            proof {
                let rest = header_fields(
                    payload@,
                    header_end as nat,
                    (position + used) as nat,
                    (field_start + size) as nat,
                );
                if rest is Ok {
                    assert(fields@ + (seq![field] + rest->Ok_0) =~= fields@.push(field)
                        + rest->Ok_0);
                }
            }
            fields.push(field);
            field_start += size as usize;
            position += used;
        }
        proof {
            assert(fields@ + Seq::<Field>::empty() =~= fields@);
        }
        self.fields = Some(fields);
        Ok(())
    }
}

} // verus!
