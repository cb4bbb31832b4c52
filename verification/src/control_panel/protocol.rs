//! The queries of the control panel, simple and prepared, and the validation of
//! their parameters.
use std::sync::Arc;

use bytes::Bytes;
use pgwire::api::portal::Portal;
use pgwire::api::stmt::StoredStatement;
use pgwire::api::{Type, DEFAULT_NAME};
use pgwire::error::PgWireError;
use pgwire::messages::extendedquery::Bind;
use vstd::prelude::*;
use vstd::utf8::*;

use crate::control_panel::response::{
    ControlError, ControlType, Field, FieldFormat, ParameterFault, ReleaseError,
};
use crate::control_panel::statement::{LeaseArgument, PgTestQueryTypeControlStatement};
use crate::control_panel::{response, statement};
use crate::lease::LeaseId;
use crate::{lease, text};

verus! {

/// What the control panel does for a query.
#[derive(Debug)]
pub enum ControlAction {
    /// Answer a ping.
    Ping { format: FieldFormat },
    /// Release the lease and answer once that is done.
    Release { lease: LeaseId, format: FieldFormat },
}

/// A prepared statement with its parameters and formats bound.
#[derive(Debug)]
pub struct BoundPortal {
    /// One code for all parameters, or one for each.
    pub parameter_format_codes: Vec<i16>,
    /// The values; `None` is SQL `NULL`.
    pub parameters: Vec<Option<Vec<u8>>>,
    /// One code for all columns, or one for each.
    pub result_format_codes: Vec<i16>,
}

/// A request to bind parameters to a prepared statement.
#[derive(Debug)]
pub struct BindRequest {
    /// `None` stands for the unnamed portal.
    pub portal_name: Option<String>,
    /// `None` stands for the unnamed statement.
    pub statement_name: Option<String>,
    pub portal: BoundPortal,
}

/// What a client prepared under some name.
#[derive(Debug)]
pub enum PreparedStatement {
    /// A command.
    Known(PgTestQueryTypeControlStatement),
    /// An empty query.
    Empty,
    /// Nothing.
    Missing,
}

/// What to store for a bind request.
#[derive(Debug, Clone, Copy, PartialEq, Eq, Structural)]
pub enum BindAction {
    StorePortal,
    StoreEmptyPortal,
}

/// The code among `codes` that applies to the value at `index`: none means text
/// throughout, and a single one applies to every value.
pub open spec fn format_code(codes: Seq<i16>, index: int) -> i16 {
    if codes.len() == 0 {
        0
    } else if codes.len() == 1 {
        codes[0]
    } else {
        codes[index]
    }
}

/// The format that a code selects.
pub open spec fn format_of(code: i16) -> FieldFormat {
    if code == 1 {
        FieldFormat::Binary
    } else {
        FieldFormat::Text
    }
}

/// The format of the first column: `Format::format_for` of a portal that
/// `Portal::try_new` made with these result codes. Code 1 is binary, any other
/// code is text.
#[verifier::external_body]
fn first_column_format(codes: &Vec<i16>) -> (r: Result<FieldFormat, PgWireError>)
    ensures
        match r {
            Ok(format) => format == format_of(format_code(codes@, 0)),
            Err(_) => false,
        },
{
    let bind = Bind::new(None, None, Vec::new(), Vec::new(), codes.clone());
    let stored = Arc::new(StoredStatement::new(String::new(), (), Vec::new()));
    let portal = Portal::try_new(&bind, stored)?;
    Ok(match portal.result_column_format.format_for(0) {
        pgwire::api::results::FieldFormat::Text => FieldFormat::Text,
        pgwire::api::results::FieldFormat::Binary => FieldFormat::Binary,
    })
}

/// `s` with every pair of quotes turned into one, from left to right.
pub open spec fn collapsed(s: Seq<char>) -> Seq<char>
    decreases s.len(),
{
    if s.len() < 2 {
        s
    } else if s[0] == '\'' && s[1] == '\'' {
        seq!['\''] + collapsed(s.skip(2))
    } else {
        seq![s[0]] + collapsed(s.skip(1))
    }
}

/// The text of a parameter value: UTF-8, in which text format writes a quote
/// as two.
pub open spec fn parameter_text(bytes: Seq<u8>, format: FieldFormat) -> Seq<char> {
    match format {
        FieldFormat::Binary => decode_utf8(bytes),
        FieldFormat::Text => collapsed(decode_utf8(bytes)),
    }
}

/// The text of the error with which `Portal::parameter` refuses a value that is
/// no UTF-8: that of the `Utf8Error` which `str::from_utf8` gives for it.
pub uninterp spec fn utf8_error_text(bytes: Seq<u8>) -> Seq<char>;

/// `Portal::parameter` as a `String` of type `TEXT`, on a portal that
/// `Portal::try_new` made with these format codes and values. `NULL` is no text.
/// A missing value is the error that names its index, and a value that is no
/// UTF-8 the error that wraps [`utf8_error_text`]; there is no other. With
/// several codes the call panics on a value that has none.
#[verifier::external_body]
fn portal_parameter(codes: &Vec<i16>, values: &Vec<Option<Vec<u8>>>, index: usize) -> (r: Result<
    Option<String>,
    ParameterFault,
>)
    requires
        index < values@.len() && codes@.len() > 1 ==> index < codes@.len(),
    ensures
        match r {
            Ok(Some(found)) => {
                &&& index < values@.len()
                &&& values@[index as int] matches Some(bytes) && valid_utf8(bytes@) && found@
                    == parameter_text(bytes@, format_of(format_code(codes@, index as int)))
            },
            Ok(None) => index < values@.len() && values@[index as int] is None,
            Err(ParameterFault::IndexOutOfBound(place)) => place == index && index
                >= values@.len(),
            Err(ParameterFault::FailedToParse { message }) => {
                &&& index < values@.len()
                &&& values@[index as int] matches Some(bytes) && !valid_utf8(bytes@) && message@
                    == utf8_error_text(bytes@)
            },
            Err(ParameterFault::Other(_)) => false,
        },
{
    let values = values.iter().map(|value| value.clone().map(Bytes::from)).collect();
    let bind = Bind::new(None, None, codes.clone(), values, Vec::new());
    let stored = Arc::new(StoredStatement::new(String::new(), (), Vec::new()));
    let portal = Portal::try_new(&bind, stored).map_err(ParameterFault::Other)?;
    match portal.parameter::<String>(index, &Type::TEXT) {
        Ok(value) => Ok(value),
        Err(PgWireError::ParameterIndexOutOfBound(place)) => {
            Err(ParameterFault::IndexOutOfBound(place))
        },
        Err(PgWireError::FailedToParseParameter(cause)) => {
            Err(ParameterFault::FailedToParse { message: cause.to_string() })
        },
        Err(error) => Err(ParameterFault::Other(error)),
    }
}

/// The name of the unnamed statement and of the unnamed portal.
#[verifier::external_body]
fn default_name() -> (name: &'static str)
    ensures
        name@ == "POSTGRESQL_DEFAULT_NAME"@,
{
    DEFAULT_NAME
}

/// What `{:?}` writes for a text.
pub uninterp spec fn debug_form(written: Seq<char>) -> Seq<char>;

/// The `Debug` form of a text.
#[verifier::external_body]
fn to_debug(written: &str) -> (form: String)
    ensures
        form@ == debug_form(written@),
{
    format!("{:?}", written)
}

/// The number of parameters that a statement takes.
pub open spec fn parameter_count(statement: statement::ControlStatementView) -> nat {
    match statement {
        statement::ControlStatementView::Release(
            statement::LeaseArgumentView::Parameter { .. },
        ) => 1,
        _ => 0,
    }
}

/// Accept a text as a lease ID.
pub fn parse_lease_id(lease: String) -> (r: Result<LeaseId, ControlError>)
    ensures
        match r {
            Ok(id) => lease::valid_lease(lease@) && id@ == lease@,
            Err(error) => !lease::valid_lease(lease@) && error == ControlError::Release(
                ReleaseError::InvalidLeaseId,
            ),
        },
{
    match LeaseId::new(lease) {
        Ok(id) => Ok(id),
        Err(_) => Err(response::release_error(ReleaseError::InvalidLeaseId)),
    }
}

/// What a lease argument stands for in a portal.
pub enum LeaseText {
    /// This text.
    Found(Seq<char>),
    /// SQL `NULL`.
    Null,
    /// The value at this index, which is not there.
    Missing { index: nat },
    /// These bytes, which are no UTF-8.
    Unreadable { bytes: Seq<u8> },
}

/// What `argument` stands for in `portal`.
pub open spec fn lease_text(
    argument: statement::LeaseArgumentView,
    portal: BoundPortal,
) -> LeaseText {
    match argument {
        statement::LeaseArgumentView::Literal(content) => LeaseText::Found(content),
        statement::LeaseArgumentView::Parameter { index } => if index >= portal.parameters@.len() {
            LeaseText::Missing { index }
        } else {
            match portal.parameters@[index as int] {
                None => LeaseText::Null,
                Some(bytes) => if valid_utf8(bytes@) {
                    LeaseText::Found(
                        parameter_text(
                            bytes@,
                            format_of(
                                format_code(portal.parameter_format_codes@, index as int),
                            ),
                        ),
                    )
                } else {
                    LeaseText::Unreadable { bytes: bytes@ }
                },
            }
        },
    }
}

/// `argument` names the lease `id` in `portal`.
pub open spec fn names_lease(
    argument: statement::LeaseArgumentView,
    portal: BoundPortal,
    id: Seq<char>,
) -> bool {
    lease_text(argument, portal) == LeaseText::Found(id) && lease::valid_lease(id)
}

/// `argument` names no lease in `portal`, and `error` says why.
pub open spec fn names_no_lease(
    argument: statement::LeaseArgumentView,
    portal: BoundPortal,
    error: ControlError,
) -> bool {
    match lease_text(argument, portal) {
        LeaseText::Found(id) => !lease::valid_lease(id) && error == ControlError::Release(
            ReleaseError::InvalidLeaseId,
        ),
        LeaseText::Null => response::is_user_error(error, "22004"@, "Lease ID cannot be NULL"@),
        LeaseText::Missing { index } => error matches ControlError::Parameter(
            ParameterFault::IndexOutOfBound(place),
        ) && place == index,
        LeaseText::Unreadable { bytes } => error matches ControlError::Parameter(
            ParameterFault::FailedToParse { message },
        ) && message@ == utf8_error_text(bytes),
    }
}

/// Every parameter that `argument` may ask for has a format in `portal`.
pub open spec fn has_format(argument: LeaseArgument, portal: BoundPortal) -> bool {
    match argument {
        LeaseArgument::Literal(_) => true,
        LeaseArgument::Parameter { index } => index < portal.parameters@.len()
            && portal.parameter_format_codes@.len() > 1 ==> index
            < portal.parameter_format_codes@.len(),
    }
}

/// The lease that `argument` names in `portal`.
pub fn resolve_lease_id(argument: &LeaseArgument, portal: &BoundPortal) -> (r: Result<
    LeaseId,
    ControlError,
>)
    requires
        has_format(*argument, *portal),
    ensures
        match r {
            Ok(id) => names_lease(argument@, *portal, id@),
            Err(error) => names_no_lease(argument@, *portal, error),
        },
{
    let lease = match argument {
        LeaseArgument::Literal(literal) => literal.clone(),
        LeaseArgument::Parameter { index } => {
            match portal_parameter(&portal.parameter_format_codes, &portal.parameters, *index) {
                Ok(Some(value)) => value,
                Ok(None) => {
                    return Err(
                        response::user_error("22004", "Lease ID cannot be NULL".to_owned()),
                    );
                },
                Err(fault) => {
                    return Err(ControlError::Parameter(fault));
                },
            }
        },
    };
    parse_lease_id(lease)
}

/// At most one code, which is text or binary.
pub open spec fn valid_format_codes(codes: Seq<i16>) -> bool {
    codes.len() == 0 || (codes.len() == 1 && (codes[0] == 0 || codes[0] == 1))
}

/// `error` says what is wrong with the codes of the given kind.
pub open spec fn is_format_codes_error(
    codes: Seq<i16>,
    kind: Seq<char>,
    error: ControlError,
) -> bool {
    if codes.len() > 1 {
        response::is_user_error(
            error,
            "08P01"@,
            "Expected 1 or 0 "@ + kind + " format codes, received "@ + text::decimal(codes.len()),
        )
    } else {
        response::is_user_error(
            error,
            "08P01"@,
            "Expected "@ + kind + " format code to be text or binary"@,
        )
    }
}

/// Check format codes; the control panel takes one for everything.
pub fn validate_format_codes(codes: &Vec<i16>, kind: &str) -> (r: Result<(), ControlError>)
    ensures
        match r {
            Ok(()) => valid_format_codes(codes@),
            Err(error) => !valid_format_codes(codes@) && is_format_codes_error(
                codes@,
                kind@,
                error,
            ),
        },
{
    if codes.len() > 1 {
        let mut message = "Expected 1 or 0 ".to_owned();
        message.append(kind);
        message.append(" format codes, received ");
        text::push_decimal(&mut message, codes.len());
        return Err(response::user_error("08P01", message));
    }
    if codes.len() == 1 && codes[0] != 0 && codes[0] != 1 {
        let mut message = "Expected ".to_owned();
        message.append(kind);
        message.append(" format code to be text or binary");
        return Err(response::user_error("08P01", message));
    }
    Ok(())
}

/// `outcome` is what a simple query comes to.
pub open spec fn simple_outcome(
    query: Seq<char>,
    outcome: Result<ControlAction, ControlError>,
) -> bool {
    match outcome {
        Ok(ControlAction::Ping { format }) => {
            &&& statement::is_query(query, statement::ControlStatementView::Ping)
            &&& format == FieldFormat::Text
        },
        Ok(ControlAction::Release { lease, format }) => {
            &&& statement::is_query(query, literal_release(lease@))
            &&& lease::valid_lease(lease@)
            &&& format == FieldFormat::Text
        },
        Err(error) => {
            ||| no_statement(query, error)
            ||| exists|id: Seq<char>| #[trigger]
                statement::is_query(query, literal_release(id)) && !lease::valid_lease(id)
                    && error == ControlError::Release(ReleaseError::InvalidLeaseId)
            ||| exists|index: nat| #[trigger]
                statement::is_query(query, parameter_release(index))
                    && response::is_user_error(
                    error,
                    "42P02"@,
                    "parameters require the extended query protocol"@,
                )
        },
    }
}

/// What the control panel does for a simple query. Its results are text.
pub fn simple_query(query: &str) -> (r: Result<ControlAction, ControlError>)
    ensures
        simple_outcome(query@, r),
{
    match PgTestQueryTypeControlStatement::parse(query) {
        Err(_) => Err(response::unsupported_command()),
        Ok(PgTestQueryTypeControlStatement::Ping) => Ok(
            ControlAction::Ping { format: FieldFormat::Text },
        ),
        Ok(PgTestQueryTypeControlStatement::Release(LeaseArgument::Literal(lease))) => {
            assert(statement::is_query(query@, literal_release(lease@)));
            match parse_lease_id(lease) {
                Ok(lease) => Ok(ControlAction::Release { lease, format: FieldFormat::Text }),
                Err(error) => Err(error),
            }
        },
        Ok(PgTestQueryTypeControlStatement::Release(LeaseArgument::Parameter { index })) => {
            assert(statement::is_query(query@, parameter_release(index as nat)));
            Err(
                response::user_error(
                    "42P02",
                    "parameters require the extended query protocol".to_owned(),
                ),
            )
        },
    }
}

/// A release that names its lease itself.
pub open spec fn literal_release(id: Seq<char>) -> statement::ControlStatementView {
    statement::ControlStatementView::Release(statement::LeaseArgumentView::Literal(id))
}

/// A release that names its lease by a parameter.
pub open spec fn parameter_release(index: nat) -> statement::ControlStatementView {
    statement::ControlStatementView::Release(statement::LeaseArgumentView::Parameter { index })
}

/// `query` is no command, and `error` says so.
pub open spec fn no_statement(query: Seq<char>, error: ControlError) -> bool {
    &&& forall|any: statement::ControlStatementView| !statement::is_query(query, any)
    &&& response::is_user_error(error, "0A000"@, "command not support by the control panel"@)
}

/// The message about a wrong number of parameters.
pub open spec fn count_message(kind: Seq<char>, expected: nat, received: nat) -> Seq<char> {
    "Expected "@ + text::decimal(expected) + kind + text::decimal(received)
}

/// Write the message about a wrong number of parameters.
fn write_count_message(kind: &str, expected: usize, received: usize) -> (message: String)
    ensures
        message@ == count_message(kind@, expected as nat, received as nat),
{
    let mut message = "Expected ".to_owned();
    text::push_decimal(&mut message, expected);
    message.append(kind);
    text::push_decimal(&mut message, received);
    message
}

/// `prepared` cannot be executed with the parameters of `portal`, and `error`
/// says why.
pub open spec fn execution_fails(
    prepared: statement::ControlStatementView,
    portal: BoundPortal,
    error: ControlError,
) -> bool {
    if portal.parameters@.len() != parameter_count(prepared) {
        response::is_user_error(
            error,
            "08P01"@,
            count_message(
                " bound parameters, received "@,
                parameter_count(prepared),
                portal.parameters@.len(),
            ),
        )
    } else {
        prepared matches statement::ControlStatementView::Release(argument) && names_no_lease(
            argument,
            portal,
            error,
        )
    }
}

/// `outcome` is what the execution of `prepared` comes to.
pub open spec fn extended_outcome(
    prepared: statement::ControlStatementView,
    portal: BoundPortal,
    outcome: Result<ControlAction, ControlError>,
) -> bool {
    match outcome {
        Ok(ControlAction::Ping { format }) => {
            &&& prepared is Ping
            &&& portal.parameters@.len() == 0
            &&& format == format_of(format_code(portal.result_format_codes@, 0))
        },
        Ok(ControlAction::Release { lease, format }) => {
            &&& portal.parameters@.len() == parameter_count(prepared)
            &&& prepared matches statement::ControlStatementView::Release(argument)
                && names_lease(argument, portal, lease@)
            &&& format == format_of(format_code(portal.result_format_codes@, 0))
        },
        Err(error) => execution_fails(prepared, portal, error),
    }
}

/// What the control panel does for a prepared statement that is executed.
pub fn extended_query(
    prepared: &PgTestQueryTypeControlStatement,
    portal: &BoundPortal,
) -> (r: Result<ControlAction, ControlError>)
    requires
        *prepared matches PgTestQueryTypeControlStatement::Release(argument) ==> has_format(
            argument,
            *portal,
        ),
    ensures
        extended_outcome(prepared@, *portal, r),
{
    let expected: usize = ControlQueryParser.get_parameter_types(prepared).len();
    if portal.parameters.len() != expected {
        let message = write_count_message(
            " bound parameters, received ",
            expected,
            portal.parameters.len(),
        );
        return Err(response::user_error("08P01", message));
    }
    let format = match first_column_format(&portal.result_format_codes) {
        Ok(format) => format,
        Err(error) => {
            return Err(ControlError::Wire(error));
        },
    };
    match prepared {
        PgTestQueryTypeControlStatement::Ping => Ok(ControlAction::Ping { format }),
        PgTestQueryTypeControlStatement::Release(argument) => match resolve_lease_id(
            argument,
            portal,
        ) {
            Ok(lease) => Ok(ControlAction::Release { lease, format }),
            Err(error) => Err(error),
        },
    }
}

/// The types that a client may declare for a parameter: none, or text.
pub open spec fn is_text_oid(number: u32) -> bool {
    number == 0 || number == response::oid(ControlType::Text)
}

/// `outcome` is what the check of declared types comes to.
pub open spec fn declaration_outcome(
    type_oids: Seq<u32>,
    outcome: Result<(), ControlError>,
) -> bool {
    match outcome {
        Ok(()) => forall|i: int| 0 <= i < type_oids.len() ==> is_text_oid(
            #[trigger] type_oids[i],
        ),
        Err(error) => {
            &&& exists|i: int|
                0 <= i < type_oids.len() && !is_text_oid(#[trigger] type_oids[i])
            &&& response::is_user_error(
                error,
                "42804"@,
                "pgtest_release requires a TEXT parameter"@,
            )
        },
    }
}

/// Check the types that a client declares when it prepares a statement.
pub fn on_parse(type_oids: &Vec<u32>) -> (r: Result<(), ControlError>)
    ensures
        declaration_outcome(type_oids@, r),
{
    let mut i: usize = 0;
    while i < type_oids.len()
        invariant
            i <= type_oids@.len(),
            forall|k: int| 0 <= k < i ==> is_text_oid(#[trigger] type_oids@[k]),
        decreases type_oids@.len() - i,
    {
        if type_oids[i] != 0 && type_oids[i] != ControlType::Text.oid() {
            return Err(
                response::user_error(
                    "42804",
                    "pgtest_release requires a TEXT parameter".to_owned(),
                ),
            );
        }
        i += 1;
    }
    Ok(())
}

impl BindRequest {
    /// The name of the statement to bind.
    pub open spec fn statement(&self) -> Seq<char> {
        match self.statement_name {
            Some(name) => name@,
            None => "POSTGRESQL_DEFAULT_NAME"@,
        }
    }

    /// The name of the portal to create.
    pub open spec fn created_portal(&self) -> Seq<char> {
        match self.portal_name {
            Some(name) => name@,
            None => "POSTGRESQL_DEFAULT_NAME"@,
        }
    }

    /// The name under which the statement was prepared.
    pub fn prepared_name(&self) -> (name: &str)
        ensures
            name@ == self.statement(),
    {
        match &self.statement_name {
            Some(name) => name.as_str(),
            None => default_name(),
        }
    }

    /// The name under which the portal is stored.
    pub fn stored_name(&self) -> (name: &str)
        ensures
            name@ == self.created_portal(),
    {
        match &self.portal_name {
            Some(name) => name.as_str(),
            None => default_name(),
        }
    }
}

/// `request` can be carried out on `prepared` by `action`.
pub open spec fn bind_accepted(
    request: BindRequest,
    prepared: PreparedStatement,
    action: BindAction,
) -> bool {
    &&& valid_format_codes(request.portal.parameter_format_codes@)
    &&& valid_format_codes(request.portal.result_format_codes@)
    &&& match prepared {
        PreparedStatement::Known(known) => {
            &&& action == BindAction::StorePortal
            &&& request.portal.parameters@.len() == parameter_count(known@)
            &&& known@ matches statement::ControlStatementView::Release(argument) ==> exists|
                id: Seq<char>,
            | #[trigger] names_lease(argument, request.portal, id)
        },
        PreparedStatement::Empty => action == BindAction::StoreEmptyPortal
            && request.portal.parameters@.len() == 0,
        PreparedStatement::Missing => false,
    }
}

/// `request` cannot be carried out on `prepared`, and `error` says why.
pub open spec fn bind_rejected(
    request: BindRequest,
    prepared: PreparedStatement,
    error: ControlError,
) -> bool {
    if !valid_format_codes(request.portal.parameter_format_codes@) {
        is_format_codes_error(request.portal.parameter_format_codes@, "parameter"@, error)
    } else if !valid_format_codes(request.portal.result_format_codes@) {
        is_format_codes_error(request.portal.result_format_codes@, "result column"@, error)
    } else {
        match prepared {
            PreparedStatement::Known(known) => if request.portal.parameters@.len()
                != parameter_count(known@) {
                response::is_user_error(
                    error,
                    "08P01"@,
                    count_message(
                        " bind parameters, received "@,
                        parameter_count(known@),
                        request.portal.parameters@.len(),
                    ),
                )
            } else {
                known@ matches statement::ControlStatementView::Release(argument)
                    && names_no_lease(argument, request.portal, error)
            },
            PreparedStatement::Empty => request.portal.parameters@.len() > 0
                && response::is_user_error(
                error,
                "08P01"@,
                "bind message supplies "@ + text::decimal(request.portal.parameters@.len())
                    + " parameters, but prepared statement "@ + debug_form(request.statement())
                    + " requires 0"@,
            ),
            PreparedStatement::Missing => error matches ControlError::StatementNotFound(name)
                && name@ == request.statement(),
        }
    }
}

/// Decide on a bind request, given what was prepared under its statement name.
pub fn on_bind(request: &BindRequest, prepared: &PreparedStatement) -> (r: Result<
    BindAction,
    ControlError,
>)
    ensures
        match r {
            Ok(action) => bind_accepted(*request, *prepared, action),
            Err(error) => bind_rejected(*request, *prepared, error),
        },
{
    let portal = &request.portal;
    if let Err(error) = validate_format_codes(&portal.parameter_format_codes, "parameter") {
        return Err(error);
    }
    if let Err(error) = validate_format_codes(&portal.result_format_codes, "result column") {
        return Err(error);
    }
    match prepared {
        PreparedStatement::Known(known) => {
            let expected: usize = ControlQueryParser.get_parameter_types(known).len();
            if portal.parameters.len() != expected {
                let message = write_count_message(
                    " bind parameters, received ",
                    expected,
                    portal.parameters.len(),
                );
                return Err(response::user_error("08P01", message));
            }
            if let PgTestQueryTypeControlStatement::Release(argument) = known {
                match resolve_lease_id(argument, portal) {
                    Ok(id) => {
                        assert(names_lease(argument@, request.portal, id@));
                    },
                    Err(error) => {
                        return Err(error);
                    },
                }
            }
            Ok(BindAction::StorePortal)
        },
        PreparedStatement::Empty => {
            if portal.parameters.len() > 0 {
                let mut message = "bind message supplies ".to_owned();
                text::push_decimal(&mut message, portal.parameters.len());
                message.append(" parameters, but prepared statement ");
                message.append(to_debug(request.prepared_name()).as_str());
                message.append(" requires 0");
                return Err(response::user_error("08P01", message));
            }
            Ok(BindAction::StoreEmptyPortal)
        },
        PreparedStatement::Missing => Err(
            ControlError::StatementNotFound(request.prepared_name().to_owned()),
        ),
    }
}

/// A statement whose parameters were bound can be executed: nothing that is
/// wrong with them is found out only then.
pub proof fn lemma_bound_statement_executes(
    request: BindRequest,
    known: PgTestQueryTypeControlStatement,
    action: BindAction,
    error: ControlError,
)
    requires
        bind_accepted(request, PreparedStatement::Known(known), action),
    ensures
        !execution_fails(known@, request.portal, error),
        known matches PgTestQueryTypeControlStatement::Release(argument) ==> has_format(
            argument,
            request.portal,
        ),
{
}

/// A bind request is either accepted or rejected.
pub proof fn lemma_bind_is_decided(
    request: BindRequest,
    prepared: PreparedStatement,
    action: BindAction,
    error: ControlError,
)
    requires
        bind_accepted(request, prepared, action),
    ensures
        !bind_rejected(request, prepared, error),
{
}

/// A text-format parameter that writes each quote twice stands for the text
/// itself, as a literal does.
pub proof fn lemma_doubled_parameter_is_read_back(content: Seq<char>)
    ensures
        collapsed(statement::doubled(content)) == content,
    decreases content.len(),
{
    let s = statement::doubled(content);
    if content.len() > 0 {
        let rest = content.skip(1);
        lemma_doubled_parameter_is_read_back(rest);
        assert(content =~= seq![content[0]] + rest);
        if content[0] == '\'' {
            assert(s.skip(2) =~= statement::doubled(rest));
        } else {
            assert(s.skip(1) =~= statement::doubled(rest));
            assert(s[0] == content[0]);
        }
    }
}

/// A text without quotes stands for itself in either format.
pub proof fn lemma_unquoted_parameter_is_kept(content: Seq<char>)
    requires
        !content.contains('\''),
    ensures
        collapsed(content) == content,
    decreases content.len(),
{
    if content.len() >= 2 {
        assert(content[0] != '\'');
        assert forall|i: int| 0 <= i < content.skip(1).len() implies content.skip(1)[i]
            != '\'' by {
            assert(content[i + 1] != '\'');
        }
        lemma_unquoted_parameter_is_kept(content.skip(1));
        assert(content =~= seq![content[0]] + content.skip(1));
    }
}

/// The parser of prepared statements. It needs no running lease manager.
pub struct ControlQueryParser;

/// The types that a client declared fit `prepared`.
pub open spec fn types_accepted(
    prepared: statement::ControlStatementView,
    types: Seq<Option<u32>>,
) -> bool {
    &&& types.len() <= parameter_count(prepared)
    &&& types.len() == 1 ==> (types[0] is None || types[0] == Some(
        response::oid(ControlType::Text),
    ))
}

/// The types that a client declared do not fit `prepared`, and `error` says why.
pub open spec fn types_rejected(
    prepared: statement::ControlStatementView,
    types: Seq<Option<u32>>,
    error: ControlError,
) -> bool {
    &&& !types_accepted(prepared, types)
    &&& if parameter_count(prepared) == 0 {
        response::is_user_error(error, "42804"@, "Parameters not expect for ping command"@)
    } else if types.len() > 1 {
        response::is_user_error(
            error,
            "0A000"@,
            count_message(" bound parameters, received "@, 1, types.len()),
        )
    } else {
        response::is_user_error(
            error,
            "42804"@,
            "pgtest_release expected "@ + "text"@ + " argument"@,
        )
    }
}

/// `outcome` is what the preparation of a query comes to.
pub open spec fn preparation_outcome(
    sql: Seq<char>,
    types: Seq<Option<u32>>,
    outcome: Result<PgTestQueryTypeControlStatement, ControlError>,
) -> bool {
    match outcome {
        Ok(prepared) => statement::is_query(sql, prepared@) && types_accepted(
            prepared@,
            types,
        ),
        Err(error) => {
            ||| no_statement(sql, error)
            ||| exists|prepared: statement::ControlStatementView| #[trigger]
                statement::is_query(sql, prepared) && types_rejected(
                    prepared,
                    types,
                    error,
                )
        },
    }
}

/// The format in which a result is described; text where the client did not ask.
pub open spec fn described_format(format_codes: Option<Seq<i16>>) -> FieldFormat {
    match format_codes {
        Some(codes) => format_of(format_code(codes, 0)),
        None => FieldFormat::Text,
    }
}

impl ControlQueryParser {
    /// Parse a query to be prepared, for which the client declared `types`: the
    /// object IDs of known types, or `None`.
    pub fn parse_sql(&self, sql: &str, types: &Vec<Option<u32>>) -> (r: Result<
        PgTestQueryTypeControlStatement,
        ControlError,
    >)
        ensures
            preparation_outcome(sql@, types@, r),
    {
        let prepared = match PgTestQueryTypeControlStatement::parse(sql) {
            Ok(prepared) => prepared,
            Err(_) => {
                return Err(response::unsupported_command());
            },
        };
        assert(statement::is_query(sql@, prepared@));
        let expected: usize = self.get_parameter_types(&prepared).len();
        if expected == 0 {
            if types.len() > 0 {
                return Err(
                    response::user_error(
                        "42804",
                        "Parameters not expect for ping command".to_owned(),
                    ),
                );
            }
            return Ok(prepared);
        }
        if types.len() > expected {
            let message = write_count_message(
                " bound parameters, received ",
                expected,
                types.len(),
            );
            return Err(response::user_error("0A000", message));
        }
        if types.len() == 1 {
            if let Some(number) = types[0] {
                if number != ControlType::Text.oid() {
                    let mut message = "pgtest_release expected ".to_owned();
                    message.append(response::text_type_name().as_str());
                    message.append(" argument");
                    return Err(response::user_error("42804", message));
                }
            }
        }
        Ok(prepared)
    }

    /// The types of the parameters that a statement takes.
    pub fn get_parameter_types(&self, prepared: &PgTestQueryTypeControlStatement) -> (types: Vec<
        ControlType,
    >)
        ensures
            types@.len() == parameter_count(prepared@),
            forall|i: int| 0 <= i < types@.len() ==> #[trigger] types@[i] == ControlType::Text,
    {
        match prepared {
            PgTestQueryTypeControlStatement::Release(LeaseArgument::Parameter { .. }) => {
                vec![ControlType::Text]
            },
            _ => Vec::new(),
        }
    }

    /// The columns of the result of a statement, in the format that the client
    /// asked for; text where it did not ask.
    pub fn get_result_schema(
        &self,
        prepared: &PgTestQueryTypeControlStatement,
        format_codes: Option<&Vec<i16>>,
    ) -> (r: Result<Vec<Field>, ControlError>)
        ensures
            match r {
                Ok(schema) => response::is_schema(
                    schema@,
                    *prepared,
                    described_format(
                        match format_codes {
                            Some(codes) => Some(codes@),
                            None => None,
                        },
                    ),
                ),
                Err(_) => false,
            },
    {
        let format = match format_codes {
            Some(codes) => match first_column_format(codes) {
                Ok(format) => format,
                Err(error) => {
                    return Err(ControlError::Wire(error));
                },
            },
            None => FieldFormat::Text,
        };
        Ok(response::result_schema(prepared, format))
    }
}

} // verus!
