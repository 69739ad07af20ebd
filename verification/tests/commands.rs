use resp_server::commands::{ClientCommand, CommandParseError};
use resp_server::resp::RespValue;

fn bulk(text: &str) -> RespValue {
    RespValue::BulkString(text.as_bytes().to_vec())
}

fn request(parts: &[&str]) -> RespValue {
    RespValue::Array(parts.iter().map(|part| bulk(part)).collect())
}

#[test]
fn ping_without_a_message() {
    assert_eq!(
        ClientCommand::try_from(request(&["PING"])).unwrap(),
        ClientCommand::Ping(None)
    );
}

#[test]
fn ping_with_a_message() {
    assert_eq!(
        ClientCommand::try_from(request(&["PING", "hello"])).unwrap(),
        ClientCommand::Ping(Some("hello".to_string()))
    );
    assert_eq!(
        ClientCommand::try_from(request(&["ping", ""])).unwrap(),
        ClientCommand::Ping(Some(String::new()))
    );
    assert_eq!(
        ClientCommand::try_from(request(&["ping", "HeLLo W\u{f6}rld"])).unwrap(),
        ClientCommand::Ping(Some("HeLLo W\u{f6}rld".to_string()))
    );
}

#[test]
fn names_are_matched_without_regard_to_case() {
    for name in ["ping", "PING", "Ping", "pInG"] {
        assert_eq!(
            ClientCommand::try_from(request(&[name])).unwrap(),
            ClientCommand::Ping(None)
        );
        assert_eq!(
            ClientCommand::try_from(RespValue::SimpleString(name.to_string())).unwrap(),
            ClientCommand::Ping(None)
        );
    }
}

#[test]
fn an_unknown_name_is_reported_in_lower_case() {
    match ClientCommand::try_from(request(&["FOOO"])) {
        Err(CommandParseError::UnknownCommand(name)) => assert_eq!(name, "fooo"),
        other => panic!("unexpected: {:?}", other),
    }
    match ClientCommand::try_from(request(&["GeT", "key", "more", "still more"])) {
        Err(CommandParseError::UnknownCommand(name)) => assert_eq!(name, "get"),
        other => panic!("unexpected: {:?}", other),
    }
    match ClientCommand::try_from(RespValue::SimpleString("\u{c4}BC Z".to_string())) {
        Err(CommandParseError::UnknownCommand(name)) => assert_eq!(name, "\u{c4}bc z"),
        other => panic!("unexpected: {:?}", other),
    }
    match ClientCommand::try_from(request(&[""])) {
        Err(CommandParseError::UnknownCommand(name)) => assert_eq!(name, ""),
        other => panic!("unexpected: {:?}", other),
    }
}

#[test]
fn too_many_arguments_are_an_arity_error_that_names_the_command() {
    match ClientCommand::try_from(request(&["PING", "a", "b"])) {
        Err(CommandParseError::ArityMismatch(name)) => assert_eq!(name, "ping"),
        other => panic!("unexpected: {:?}", other),
    }
    let many = RespValue::Array(vec![
        bulk("Ping"),
        RespValue::Integer(1),
        RespValue::NullArray(),
        bulk("c"),
    ]);
    let error = ClientCommand::try_from(many).unwrap_err();
    assert!(matches!(&error, CommandParseError::ArityMismatch(name) if name == "ping"));
    assert_eq!(
        error.to_string(),
        "wrong number of arguments for 'ping' command"
    );
}

#[test]
fn an_argument_that_is_no_bulk_string_is_a_type_error() {
    for argument in [
        RespValue::Integer(5),
        RespValue::SimpleString("hello".to_string()),
        RespValue::Error("hello".to_string()),
        RespValue::NullBulkString(),
        RespValue::Array(vec![bulk("hello")]),
        RespValue::NullArray(),
    ] {
        let value = RespValue::Array(vec![bulk("PING"), argument]);
        assert!(matches!(
            ClientCommand::try_from(value),
            Err(CommandParseError::InvalidType)
        ));
    }
}

#[test]
fn a_name_that_is_no_bulk_string_is_a_type_error() {
    for name in [
        RespValue::SimpleString("PING".to_string()),
        RespValue::Integer(1),
        RespValue::NullBulkString(),
        RespValue::Array(Vec::new()),
    ] {
        let value = RespValue::Array(vec![name, bulk("x")]);
        assert!(matches!(
            ClientCommand::try_from(value),
            Err(CommandParseError::InvalidType)
        ));
    }
}

#[test]
fn bytes_that_are_not_utf8_are_reported() {
    let bad_name = RespValue::Array(vec![RespValue::BulkString(vec![0xFF, 0xFE])]);
    assert!(matches!(
        ClientCommand::try_from(bad_name),
        Err(CommandParseError::InvalidUtf8)
    ));
    let bad_message = RespValue::Array(vec![bulk("PING"), RespValue::BulkString(vec![0xC3, 0x28])]);
    assert!(matches!(
        ClientCommand::try_from(bad_message),
        Err(CommandParseError::InvalidUtf8)
    ));
}

#[test]
fn other_shapes_are_syntax_errors() {
    for value in [
        RespValue::Array(Vec::new()),
        RespValue::Integer(3),
        RespValue::BulkString(b"PING".to_vec()),
        RespValue::Error("PING".to_string()),
        RespValue::NullBulkString(),
        RespValue::NullArray(),
    ] {
        assert!(matches!(
            ClientCommand::try_from(value),
            Err(CommandParseError::InvalidSyntax)
        ));
    }
}

#[test]
fn failures_have_messages() {
    assert_eq!(CommandParseError::InvalidSyntax.to_string(), "syntax error");
    assert_eq!(CommandParseError::InvalidType.to_string(), "syntax error");
    assert_eq!(
        CommandParseError::InvalidUtf8.to_string(),
        "invalid utf-8 string"
    );
    assert_eq!(
        CommandParseError::UnknownCommand("fooo".to_string()).to_string(),
        "unknown command 'fooo'"
    );
    assert_eq!(
        CommandParseError::ArityMismatch("ping".to_string()).to_string(),
        "wrong number of arguments for 'ping' command"
    );
}

#[test]
fn commands_can_be_copied() {
    let command = ClientCommand::Ping(Some("hi".to_string()));
    assert_eq!(command.clone(), command);
    assert_eq!(ClientCommand::Ping(None).clone(), ClientCommand::Ping(None));
}
