//! The rows and the errors that the control panel sends.
use std::sync::Arc;

use bytes::BytesMut;
use pgwire::api::results::{DataRowEncoder, FieldInfo};
use pgwire::api::Type;
use pgwire::error::PgWireError;
use vstd::prelude::*;
use vstd::utf8::*;

use crate::control_panel::statement::PgTestQueryTypeControlStatement;
use crate::{buffer, postgres_upstream, text};

verus! {

/// How a value is written.
#[derive(Debug, Clone, Copy, PartialEq, Eq, Structural)]
pub enum FieldFormat {
    Text,
    Binary,
}

/// The types that the control panel deals with.
#[derive(Debug, Clone, Copy, PartialEq, Eq, Structural)]
pub enum ControlType {
    Text,
    Int4,
    Bool,
}

/// A result column.
#[derive(Debug, PartialEq, Eq)]
pub struct Field {
    pub name: &'static str,
    pub data_type: ControlType,
    pub format: FieldFormat,
}

/// A result: its columns and its only row, as the body of a data row message.
#[derive(Debug)]
pub struct Reply {
    pub schema: Vec<Field>,
    pub row: BytesMut,
}

/// Why a lease could not be released.
#[derive(Debug, Clone, Copy, PartialEq, Eq, Structural)]
pub enum ReleaseError {
    InvalidLeaseId,
    LeaseRecordLimitReached,
    EngineUnavailable,
    ReplyTimedOut,
    UnexpectedReply,
}

/// Why a bound parameter could not be read.
#[derive(Debug)]
pub enum ParameterFault {
    /// No value was bound at this index.
    IndexOutOfBound(usize),
    /// The value cannot be read as its type, for this reason.
    FailedToParse { message: String },
    /// Any other fault.
    Other(PgWireError),
}

/// An error for a client of the control panel.
#[derive(Debug)]
pub enum ControlError {
    /// A code and a message of the control panel itself.
    User { code: &'static str, message: String },
    /// The lease manager refused a release; see [`ReleaseError::code`].
    Release(ReleaseError),
    /// No prepared statement has this name.
    StatementNotFound(String),
    /// A bound parameter could not be read.
    Parameter(ParameterFault),
    /// A message could not be read or written.
    Wire(PgWireError),
}

/// `error` has this code and this message.
pub open spec fn is_user_error(error: ControlError, code: Seq<char>, message: Seq<char>) -> bool {
    error matches ControlError::User { code: c, message: m } && c@ == code && m@ == message
}

/// The object ID of a type.
pub open spec fn oid(data_type: ControlType) -> u32 {
    match data_type {
        ControlType::Text => 25,
        ControlType::Int4 => 23,
        ControlType::Bool => 16,
    }
}

impl ControlType {
    /// `Type::oid` of the built-in type.
    #[verifier::external_body]
    pub(crate) fn oid(self) -> (number: u32)
        ensures
            number == oid(self),
    {
        match self {
            ControlType::Text => Type::TEXT.oid(),
            ControlType::Int4 => Type::INT4.oid(),
            ControlType::Bool => Type::BOOL.oid(),
        }
    }
}

/// The `Display` form of `Type::TEXT`: the name of the type.
#[verifier::external_body]
pub(crate) fn text_type_name() -> (name: String)
    ensures
        name@ == "text"@,
{
    Type::TEXT.to_string()
}

/// `n` in decimal, with its sign if it is negative.
pub open spec fn signed_decimal(n: int) -> Seq<char> {
    if n < 0 {
        seq!['-'] + text::decimal((-n) as nat)
    } else {
        text::decimal(n as nat)
    }
}

/// A field of a data row: its length and its bytes.
pub open spec fn sized(value: Seq<u8>) -> Seq<u8> {
    postgres_upstream::be_bytes(value.len()) + value
}

/// The bytes of an `int4`: its decimal digits, or four bytes in two's
/// complement.
pub open spec fn int4_bytes(value: i32, format: FieldFormat) -> Seq<u8> {
    match format {
        FieldFormat::Text => encode_utf8(signed_decimal(value as int)),
        FieldFormat::Binary => postgres_upstream::be_bytes(
            if value < 0 {
                (value + 0x1_0000_0000) as nat
            } else {
                value as nat
            },
        ),
    }
}

/// The bytes of a `bool`: `t` or `f`, or one byte that is one or zero.
pub open spec fn bool_bytes(value: bool, format: FieldFormat) -> Seq<u8> {
    match format {
        FieldFormat::Text => seq![if value { 0x74u8 } else { 0x66u8 }],
        FieldFormat::Binary => seq![if value { 1u8 } else { 0u8 }],
    }
}

/// `DataRowEncoder::encode_field` and `take_row`, for one column of type `int4`.
#[verifier::external_body]
fn int4_row(name: &str, format: FieldFormat, value: i32) -> (r: Result<BytesMut, PgWireError>)
    ensures
        match r {
            Ok(row) => buffer::held(row) == sized(int4_bytes(value, format)),
            Err(_) => false,
        },
{
    let format = match format {
        FieldFormat::Text => pgwire::api::results::FieldFormat::Text,
        FieldFormat::Binary => pgwire::api::results::FieldFormat::Binary,
    };
    let column = FieldInfo::new(name.to_owned(), None, None, Type::INT4, format);
    let mut encoder = DataRowEncoder::new(Arc::new(vec![column]));
    encoder.encode_field(&value)?;
    Ok(encoder.take_row().data)
}

/// `DataRowEncoder::encode_field` and `take_row`, for one column of type `bool`.
#[verifier::external_body]
fn bool_row(name: &str, format: FieldFormat, value: bool) -> (r: Result<BytesMut, PgWireError>)
    ensures
        match r {
            Ok(row) => buffer::held(row) == sized(bool_bytes(value, format)),
            Err(_) => false,
        },
{
    let format = match format {
        FieldFormat::Text => pgwire::api::results::FieldFormat::Text,
        FieldFormat::Binary => pgwire::api::results::FieldFormat::Binary,
    };
    let column = FieldInfo::new(name.to_owned(), None, None, Type::BOOL, format);
    let mut encoder = DataRowEncoder::new(Arc::new(vec![column]));
    encoder.encode_field(&value)?;
    Ok(encoder.take_row().data)
}

/// `schema` is the one column of a ping.
pub open spec fn is_ping_schema(schema: Seq<Field>, format: FieldFormat) -> bool {
    schema.len() == 1 && schema[0].name@ == "?column?"@ && schema[0].data_type == ControlType::Int4
        && schema[0].format == format
}

/// `schema` is the one column of a release.
pub open spec fn is_release_schema(schema: Seq<Field>, format: FieldFormat) -> bool {
    schema.len() == 1 && schema[0].name@ == "pgtest_release"@ && schema[0].data_type
        == ControlType::Bool && schema[0].format == format
}

/// `schema` describes the result of `statement`.
pub open spec fn is_schema(
    schema: Seq<Field>,
    statement: PgTestQueryTypeControlStatement,
    format: FieldFormat,
) -> bool {
    match statement {
        PgTestQueryTypeControlStatement::Ping => is_ping_schema(schema, format),
        PgTestQueryTypeControlStatement::Release(_) => is_release_schema(schema, format),
    }
}

fn ping_schema(format: FieldFormat) -> (schema: Vec<Field>)
    ensures
        is_ping_schema(schema@, format),
{
    vec![Field { name: "?column?", data_type: ControlType::Int4, format }]
}

fn release_schema(format: FieldFormat) -> (schema: Vec<Field>)
    ensures
        is_release_schema(schema@, format),
{
    vec![Field { name: "pgtest_release", data_type: ControlType::Bool, format }]
}

/// The columns of the result of `statement`.
pub fn result_schema(statement: &PgTestQueryTypeControlStatement, format: FieldFormat) -> (schema:
    Vec<Field>)
    ensures
        is_schema(schema@, *statement, format),
{
    match statement {
        PgTestQueryTypeControlStatement::Ping => ping_schema(format),
        PgTestQueryTypeControlStatement::Release(_) => release_schema(format),
    }
}

/// The answer to a ping: the number one.
pub fn ping(format: FieldFormat) -> (r: Result<Reply, ControlError>)
    ensures
        r matches Ok(reply) && is_ping_schema(reply.schema@, format) && buffer::held(reply.row)
            == sized(int4_bytes(1, format)),
{
    let schema = ping_schema(format);
    match int4_row(schema[0].name, format, 1) {
        Ok(row) => Ok(Reply { schema, row }),
        Err(error) => Err(ControlError::Wire(error)),
    }
}

/// The answer to a release that was carried out: true.
pub fn released(format: FieldFormat) -> (r: Result<Reply, ControlError>)
    ensures
        r matches Ok(reply) && is_release_schema(reply.schema@, format) && buffer::held(reply.row)
            == sized(bool_bytes(true, format)),
{
    let schema = release_schema(format);
    match bool_row(schema[0].name, format, true) {
        Ok(row) => Ok(Reply { schema, row }),
        Err(error) => Err(ControlError::Wire(error)),
    }
}

/// An error with a code and a message.
pub fn user_error(code: &'static str, message: String) -> (error: ControlError)
    ensures
        is_user_error(error, code@, message@),
{
    ControlError::User { code, message }
}

/// The error for a query that is no control-panel command.
pub fn unsupported_command() -> (error: ControlError)
    ensures
        is_user_error(error, "0A000"@, "command not support by the control panel"@),
{
    user_error("0A000", "command not support by the control panel".to_owned())
}

/// The SQLSTATE of a failed release.
pub open spec fn release_code(error: ReleaseError) -> Seq<char> {
    match error {
        ReleaseError::InvalidLeaseId => "22023"@,
        ReleaseError::LeaseRecordLimitReached => "53400"@,
        ReleaseError::EngineUnavailable => "08006"@,
        ReleaseError::ReplyTimedOut => "57014"@,
        ReleaseError::UnexpectedReply => "XX000"@,
    }
}

/// The error for a release that the lease manager refused.
pub fn release_error(error: ReleaseError) -> (r: ControlError)
    ensures
        r == ControlError::Release(error),
{
    ControlError::Release(error)
}

impl ReleaseError {
    /// The SQLSTATE that the client is told.
    pub fn code(self) -> (code: &'static str)
        ensures
            code@ == release_code(self),
    {
        match self {
            ReleaseError::InvalidLeaseId => "22023",
            ReleaseError::LeaseRecordLimitReached => "53400",
            ReleaseError::EngineUnavailable => "08006",
            ReleaseError::ReplyTimedOut => "57014",
            ReleaseError::UnexpectedReply => "XX000",
        }
    }
}

impl ControlError {
    /// The severity that the client is told.
    pub fn severity(&self) -> (severity: &'static str)
        ensures
            severity@ == "ERROR"@,
    {
        "ERROR"
    }

    /// The SQLSTATE that the client is told, where the control panel chose it.
    pub fn code(&self) -> (code: Option<&'static str>)
        ensures
            match self {
                ControlError::User { code: chosen, .. } => code is Some && code.unwrap()@
                    == chosen@,
                ControlError::Release(error) => code is Some && code.unwrap()@ == release_code(
                    *error,
                ),
                _ => code is None,
            },
    {
        match self {
            ControlError::User { code, .. } => Some(*code),
            ControlError::Release(error) => Some(error.code()),
            _ => None,
        }
    }
}

} // verus!
