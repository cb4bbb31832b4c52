use pgtest_wire::control_panel::protocol::{
    extended_query, on_bind, on_parse, parse_lease_id, resolve_lease_id, simple_query,
    validate_format_codes, BindAction, BindRequest, BoundPortal, ControlAction,
    ControlQueryParser, PreparedStatement,
};
use pgtest_wire::control_panel::response::{
    ping, released, result_schema, ControlError, ControlType, FieldFormat, ParameterFault,
    ReleaseError,
};
use pgtest_wire::control_panel::statement::{LeaseArgument, PgTestQueryTypeControlStatement};
use pgwire::api::Type;

#[test]
fn release_lease_validation_preserves_protocol_errors() {
    for value in ["".to_owned(), "a/b".to_owned(), "a\0b".to_owned(), "a".repeat(257)] {
        let error = parse_lease_id(value).unwrap_err();
        assert!(matches!(error.code(), Some("22023")));
    }
    let value = " Mixed Case 雪 ";
    assert_eq!(parse_lease_id(value.to_owned()).unwrap().as_str(), value);
}

fn portal(format: Vec<i16>, parameters: Vec<Option<Vec<u8>>>) -> BoundPortal {
    BoundPortal {
        parameter_format_codes: format,
        parameters,
        result_format_codes: Vec::new(),
    }
}

#[test]
fn release_parameters_validate_ids_and_preserve_null_error() {
    let argument = LeaseArgument::Parameter { index: 0 };
    for format in [0, 1] {
        for (value, error_code) in [
            (None, Some("22004")),
            (Some("a/b"), Some("22023")),
            (Some(" Mixed Case 雪 "), None),
        ] {
            let portal =
                portal(vec![format], vec![value.map(|text: &str| text.as_bytes().to_vec())]);
            let result = resolve_lease_id(&argument, &portal);
            if let Some(code) = error_code {
                assert!(matches!(result, Err(error) if error.code() == Some(code)));
            } else {
                assert_eq!(result.unwrap().as_str(), value.unwrap());
            }
        }
    }
}

#[test]
fn text_parameters_collapse_quotes_and_binary_ones_do_not() {
    let argument = LeaseArgument::Parameter { index: 0 };
    for (format, written, expected) in [
        (0, "a''b", "a'b"),
        (0, "'''", "''"),
        (0, "a'b", "a'b"),
        (1, "a''b", "a''b"),
    ] {
        let portal = portal(vec![format], vec![Some(written.as_bytes().to_vec())]);
        assert_eq!(resolve_lease_id(&argument, &portal).unwrap().as_str(), expected);
    }
    // Without a code the value is text.
    let plain = portal(Vec::new(), vec![Some(b"a''b".to_vec())]);
    assert_eq!(resolve_lease_id(&argument, &plain).unwrap().as_str(), "a'b");
}

#[test]
fn unreadable_parameters_keep_their_fault() {
    let argument = LeaseArgument::Parameter { index: 0 };
    for format in [0, 1] {
        let broken = portal(vec![format], vec![Some(vec![b'a', 0xff])]);
        assert!(matches!(
            resolve_lease_id(&argument, &broken),
            Err(ControlError::Parameter(ParameterFault::FailedToParse { message }))
                if message == std::str::from_utf8(&[b'a', 0xff]).unwrap_err().to_string()
        ));
        let missing = portal(vec![format], Vec::new());
        assert!(matches!(
            resolve_lease_id(&argument, &missing),
            Err(ControlError::Parameter(ParameterFault::IndexOutOfBound(0)))
        ));
    }
    let literal = LeaseArgument::Literal("x".to_owned());
    assert_eq!(resolve_lease_id(&literal, &portal(Vec::new(), Vec::new())).unwrap().as_str(), "x");
}

fn user_error(error: ControlError) -> (&'static str, String) {
    match error {
        ControlError::User { code, message } => (code, message),
        other => panic!("{other:?}"),
    }
}

#[test]
fn format_codes_are_validated() {
    for codes in [vec![], vec![0], vec![1]] {
        assert!(validate_format_codes(&codes, "parameter").is_ok());
    }
    assert_eq!(
        user_error(validate_format_codes(&vec![0, 1, 0], "parameter").unwrap_err()),
        ("08P01", "Expected 1 or 0 parameter format codes, received 3".to_owned())
    );
    assert_eq!(
        user_error(validate_format_codes(&vec![0; 1203], "parameter").unwrap_err()),
        ("08P01", "Expected 1 or 0 parameter format codes, received 1203".to_owned())
    );
    for code in [2, -1, i16::MAX] {
        assert_eq!(
            user_error(validate_format_codes(&vec![code], "result column").unwrap_err()),
            ("08P01", "Expected result column format code to be text or binary".to_owned())
        );
    }
}

#[test]
fn simple_queries_ping_and_release() {
    assert!(matches!(
        simple_query("SELECT 1"),
        Ok(ControlAction::Ping { format: FieldFormat::Text })
    ));
    assert!(matches!(
        simple_query("SELECT pgtest_release('test-1');"),
        Ok(ControlAction::Release { lease, format: FieldFormat::Text })
            if lease.as_str() == "test-1"
    ));
    assert_eq!(
        user_error(simple_query("SELECT 2").unwrap_err()),
        ("0A000", "command not support by the control panel".to_owned())
    );
    assert_eq!(
        user_error(simple_query("SELECT pgtest_release($1)").unwrap_err()),
        ("42P02", "parameters require the extended query protocol".to_owned())
    );
    assert!(matches!(
        simple_query("SELECT pgtest_release('')"),
        Err(ControlError::Release(ReleaseError::InvalidLeaseId))
    ));
}

fn parameter_release() -> PgTestQueryTypeControlStatement {
    PgTestQueryTypeControlStatement::Release(LeaseArgument::Parameter { index: 0 })
}

#[test]
fn executed_statements_check_their_parameters() {
    let none = portal(Vec::new(), Vec::new());
    let one = portal(Vec::new(), vec![Some(b"lease".to_vec())]);
    assert!(matches!(
        extended_query(&PgTestQueryTypeControlStatement::Ping, &none),
        Ok(ControlAction::Ping { format: FieldFormat::Text })
    ));
    assert_eq!(
        user_error(extended_query(&PgTestQueryTypeControlStatement::Ping, &one).unwrap_err()),
        ("08P01", "Expected 0 bound parameters, received 1".to_owned())
    );
    assert_eq!(
        user_error(extended_query(&parameter_release(), &none).unwrap_err()),
        ("08P01", "Expected 1 bound parameters, received 0".to_owned())
    );
    for (codes, format) in [
        (vec![], FieldFormat::Text),
        (vec![0], FieldFormat::Text),
        (vec![1], FieldFormat::Binary),
        (vec![1, 0], FieldFormat::Binary),
        (vec![0, 1], FieldFormat::Text),
        (vec![7], FieldFormat::Text),
    ] {
        let portal = BoundPortal {
            parameter_format_codes: Vec::new(),
            parameters: vec![Some(b"lease".to_vec())],
            result_format_codes: codes,
        };
        match extended_query(&parameter_release(), &portal).unwrap() {
            ControlAction::Release { lease, format: found } => {
                assert_eq!(lease.as_str(), "lease");
                assert_eq!(found, format);
            }
            other => panic!("{other:?}"),
        }
    }
}

#[test]
fn declared_parameter_types_must_be_text() {
    assert!(on_parse(&vec![]).is_ok());
    assert!(on_parse(&vec![0, Type::TEXT.oid()]).is_ok());
    for oid in [Type::INT4.oid(), Type::VARCHAR.oid(), 1, u32::MAX] {
        assert_eq!(
            user_error(on_parse(&vec![0, oid]).unwrap_err()),
            ("42804", "pgtest_release requires a TEXT parameter".to_owned())
        );
    }
}

fn bind(parameters: Vec<Option<Vec<u8>>>) -> BindRequest {
    BindRequest {
        portal_name: None,
        statement_name: Some("a \"b\"".to_owned()),
        portal: portal(vec![1], parameters),
    }
}

#[test]
fn bind_requests_are_decided() {
    let known = PreparedStatement::Known(parameter_release());
    let ping = PreparedStatement::Known(PgTestQueryTypeControlStatement::Ping);
    assert_eq!(on_bind(&bind(vec![Some(b"x".to_vec())]), &known).unwrap(), BindAction::StorePortal);
    assert_eq!(on_bind(&bind(vec![]), &ping).unwrap(), BindAction::StorePortal);
    assert_eq!(
        on_bind(&bind(vec![]), &PreparedStatement::Empty).unwrap(),
        BindAction::StoreEmptyPortal
    );
    assert_eq!(
        user_error(on_bind(&bind(vec![]), &known).unwrap_err()),
        ("08P01", "Expected 1 bind parameters, received 0".to_owned())
    );
    assert_eq!(
        user_error(on_bind(&bind(vec![None]), &known).unwrap_err()),
        ("22004", "Lease ID cannot be NULL".to_owned())
    );
    assert!(matches!(
        on_bind(&bind(vec![Some(b"a/b".to_vec())]), &known),
        Err(ControlError::Release(ReleaseError::InvalidLeaseId))
    ));
    assert_eq!(
        user_error(on_bind(&bind(vec![None, None]), &PreparedStatement::Empty).unwrap_err()),
        (
            "08P01",
            "bind message supplies 2 parameters, but prepared statement \"a \\\"b\\\"\" requires 0"
                .to_owned()
        )
    );
    assert!(matches!(
        on_bind(&bind(vec![]), &PreparedStatement::Missing),
        Err(ControlError::StatementNotFound(name)) if name == "a \"b\""
    ));
    let mut request = bind(vec![]);
    request.portal.parameter_format_codes = vec![0, 0];
    request.portal.result_format_codes = vec![9];
    assert_eq!(
        user_error(on_bind(&request, &PreparedStatement::Missing).unwrap_err()),
        ("08P01", "Expected 1 or 0 parameter format codes, received 2".to_owned())
    );
    request.portal.parameter_format_codes = vec![];
    assert_eq!(
        user_error(on_bind(&request, &PreparedStatement::Missing).unwrap_err()),
        ("08P01", "Expected result column format code to be text or binary".to_owned())
    );
}

#[test]
fn unnamed_statements_and_portals_have_the_default_name() {
    let mut request = bind(vec![]);
    assert_eq!(request.prepared_name(), "a \"b\"");
    assert_eq!(request.stored_name(), pgwire::api::DEFAULT_NAME);
    request.statement_name = None;
    request.portal_name = Some("p".to_owned());
    assert_eq!(request.prepared_name(), pgwire::api::DEFAULT_NAME);
    assert_eq!(request.stored_name(), "p");
}

#[test]
fn prepared_queries_check_their_declared_types() {
    let parser = ControlQueryParser;
    let text = Some(Type::TEXT.oid());
    assert_eq!(
        parser.parse_sql("SELECT 1", &vec![]).unwrap(),
        PgTestQueryTypeControlStatement::Ping
    );
    for types in [vec![], vec![None], vec![text]] {
        assert_eq!(
            parser.parse_sql("SELECT pgtest_release($1)", &types).unwrap(),
            parameter_release()
        );
    }
    for sql in ["SELECT 1", "SELECT pgtest_release('a')"] {
        assert_eq!(
            user_error(parser.parse_sql(sql, &vec![text]).unwrap_err()),
            ("42804", "Parameters not expect for ping command".to_owned())
        );
    }
    assert_eq!(
        user_error(parser.parse_sql("SELECT pgtest_release($1)", &vec![text, None]).unwrap_err()),
        ("0A000", "Expected 1 bound parameters, received 2".to_owned())
    );
    assert_eq!(
        user_error(
            parser
                .parse_sql("SELECT pgtest_release($1)", &vec![Some(Type::INT4.oid())])
                .unwrap_err()
        ),
        ("42804", "pgtest_release expected text argument".to_owned())
    );
    assert_eq!(
        user_error(parser.parse_sql("COMMIT", &vec![text]).unwrap_err()),
        ("0A000", "command not support by the control panel".to_owned())
    );
}

#[test]
fn statements_describe_their_parameters_and_columns() {
    let parser = ControlQueryParser;
    let literal =
        PgTestQueryTypeControlStatement::Release(LeaseArgument::Literal("a".to_owned()));
    assert_eq!(parser.get_parameter_types(&parameter_release()), vec![ControlType::Text]);
    assert_eq!(parser.get_parameter_types(&literal), vec![]);
    assert_eq!(parser.get_parameter_types(&PgTestQueryTypeControlStatement::Ping), vec![]);

    for (codes, format) in [
        (None, FieldFormat::Text),
        (Some(vec![]), FieldFormat::Text),
        (Some(vec![1]), FieldFormat::Binary),
    ] {
        let ping = parser
            .get_result_schema(&PgTestQueryTypeControlStatement::Ping, codes.as_ref())
            .unwrap();
        assert_eq!(ping, result_schema(&PgTestQueryTypeControlStatement::Ping, format));
        assert_eq!(ping.len(), 1);
        assert_eq!((ping[0].name, ping[0].data_type), ("?column?", ControlType::Int4));
        assert_eq!(ping[0].format, format);
        let release = parser.get_result_schema(&literal, codes.as_ref()).unwrap();
        assert_eq!((release[0].name, release[0].data_type), ("pgtest_release", ControlType::Bool));
        assert_eq!(release[0].format, format);
    }
}

#[test]
fn answers_are_encoded_in_either_format() {
    assert_eq!(&ping(FieldFormat::Text).unwrap().row[..], b"\0\0\0\x011");
    assert_eq!(&ping(FieldFormat::Binary).unwrap().row[..], b"\0\0\0\x04\0\0\0\x01");
    assert_eq!(&released(FieldFormat::Text).unwrap().row[..], b"\0\0\0\x01t");
    assert_eq!(&released(FieldFormat::Binary).unwrap().row[..], b"\0\0\0\x01\x01");
    assert_eq!(released(FieldFormat::Text).unwrap().schema[0].name, "pgtest_release");
}

#[test]
fn release_errors_have_their_codes() {
    for (error, code) in [
        (ReleaseError::InvalidLeaseId, "22023"),
        (ReleaseError::LeaseRecordLimitReached, "53400"),
        (ReleaseError::EngineUnavailable, "08006"),
        (ReleaseError::ReplyTimedOut, "57014"),
        (ReleaseError::UnexpectedReply, "XX000"),
    ] {
        assert_eq!(error.code(), code);
        assert_eq!(ControlError::Release(error).code(), Some(code));
    }
    assert_eq!(ControlError::StatementNotFound("a".to_owned()).code(), None);
    assert_eq!(ControlError::StatementNotFound("a".to_owned()).severity(), "ERROR");
}
