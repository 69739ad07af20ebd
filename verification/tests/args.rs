use resp_server::commands::args::CommandArgs;
use resp_server::commands::CommandParseError;
use resp_server::resp::RespValue;

#[test]
fn test_new() {
    let args = vec![RespValue::SimpleString("hello".to_string())];
    let cmd_args = CommandArgs::new(&args);
    assert_eq!(cmd_args.len(), 1);
}

#[test]
fn test_len() {
    let args = vec![
        RespValue::SimpleString("foo".to_string()),
        RespValue::SimpleString("bar".to_string()),
    ];
    let cmd_args = CommandArgs::new(&args);
    assert_eq!(cmd_args.len(), 2);
}

#[test]
fn test_take_bytes() {
    let args = vec![
        RespValue::BulkString(b"bulk".to_vec()),
        RespValue::SimpleString("simple".to_string()),
        RespValue::Integer(42),
    ];
    let cmd_args = CommandArgs::new(&args);

    assert_eq!(cmd_args.take_bytes(0).unwrap(), b"bulk");
    assert_eq!(cmd_args.take_bytes(1).unwrap(), b"simple");
    assert!(cmd_args.take_bytes(2).is_err());
}

#[test]
fn test_take_string() {
    let args = vec![
        RespValue::BulkString(b"valid".to_vec()),
        RespValue::BulkString(vec![0xFF, 0xFF]),
    ];
    let cmd_args = CommandArgs::new(&args);

    assert_eq!(cmd_args.take_string(0).unwrap(), "valid");
    assert!(cmd_args.take_string(1).is_err());
}

#[test]
fn test_take_opt_string() {
    let args = vec![RespValue::SimpleString("test".to_string())];
    let cmd_args = CommandArgs::new(&args);

    assert_eq!(
        cmd_args.take_opt_string(0).unwrap(),
        Some("test".to_string())
    );
    assert_eq!(cmd_args.take_opt_string(1).unwrap(), None);
}

#[test]
fn test_take_int() {
    let args = vec![
        RespValue::Integer(42),
        RespValue::BulkString(b"123".to_vec()),
        RespValue::SimpleString("456".to_string()),
        RespValue::SimpleString("invalid".to_string()),
    ];
    let cmd_args = CommandArgs::new(&args);

    assert_eq!(cmd_args.take_int(0).unwrap(), 42);
    assert_eq!(cmd_args.take_int(1).unwrap(), 123);
    assert_eq!(cmd_args.take_int(2).unwrap(), 456);
    assert!(cmd_args.take_int(3).is_err());
}

#[test]
fn test_take_opt_int() {
    let args = vec![RespValue::Integer(42)];
    let cmd_args = CommandArgs::new(&args);

    assert_eq!(cmd_args.take_opt_int(0).unwrap(), Some(42));
    assert_eq!(cmd_args.take_opt_int(1).unwrap(), None);
}

#[test]
fn take_bytes_past_the_end_is_a_type_error() {
    let args = vec![RespValue::BulkString(b"only".to_vec())];
    let cmd_args = CommandArgs::new(&args);
    assert!(matches!(
        cmd_args.take_bytes(1),
        Err(CommandParseError::InvalidType)
    ));
    assert!(matches!(
        cmd_args.take_string(7),
        Err(CommandParseError::InvalidType)
    ));
    assert!(matches!(
        cmd_args.take_int(1),
        Err(CommandParseError::InvalidType)
    ));
}

#[test]
fn take_string_tells_type_from_encoding() {
    let args = vec![
        RespValue::Integer(1),
        RespValue::BulkString(vec![0xC3, 0x28]),
        RespValue::BulkString("h\u{e9}llo".as_bytes().to_vec()),
        RespValue::NullBulkString(),
    ];
    let cmd_args = CommandArgs::new(&args);
    assert!(matches!(
        cmd_args.take_string(0),
        Err(CommandParseError::InvalidType)
    ));
    assert!(matches!(
        cmd_args.take_string(1),
        Err(CommandParseError::InvalidUtf8)
    ));
    assert_eq!(cmd_args.take_string(2).unwrap(), "h\u{e9}llo");
    assert!(matches!(
        cmd_args.take_opt_string(3),
        Err(CommandParseError::InvalidType)
    ));
}

#[test]
fn take_int_reads_signs_and_limits() {
    let args = vec![
        RespValue::BulkString(b"-9223372036854775808".to_vec()),
        RespValue::BulkString(b"9223372036854775807".to_vec()),
        RespValue::BulkString(b"9223372036854775808".to_vec()),
        RespValue::BulkString(b"-9223372036854775809".to_vec()),
        RespValue::SimpleString("+17".to_string()),
        RespValue::SimpleString("007".to_string()),
        RespValue::BulkString(b"".to_vec()),
        RespValue::BulkString(b"-".to_vec()),
        RespValue::BulkString(b"1 ".to_vec()),
        RespValue::BulkString(vec![0x31, 0xFF]),
        RespValue::Array(Vec::new()),
    ];
    let cmd_args = CommandArgs::new(&args);
    assert_eq!(cmd_args.take_int(0).unwrap(), i64::MIN);
    assert_eq!(cmd_args.take_int(1).unwrap(), i64::MAX);
    assert!(cmd_args.take_int(2).is_err());
    assert!(cmd_args.take_int(3).is_err());
    assert_eq!(cmd_args.take_int(4).unwrap(), 17);
    assert_eq!(cmd_args.take_int(5).unwrap(), 7);
    assert!(cmd_args.take_int(6).is_err());
    assert!(cmd_args.take_int(7).is_err());
    assert!(cmd_args.take_int(8).is_err());
    assert!(cmd_args.take_int(9).is_err());
    assert!(matches!(
        cmd_args.take_opt_int(10),
        Err(CommandParseError::InvalidType)
    ));
}
