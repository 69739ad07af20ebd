use resp_server::resp::RespValue;

#[test]
fn test_simple_string_debug() {
    let value = RespValue::SimpleString("OK".to_string());
    assert_eq!(value.to_debug_string(), "+OK");
}

#[test]
fn test_simple_string_display() {
    let value = RespValue::SimpleString("OK".to_string());
    assert_eq!(value.to_string(), "+OK\r\n");
}

#[test]
fn test_error_debug() {
    let value = RespValue::Error("ERR invalid syntax".to_string());
    assert_eq!(value.to_debug_string(), "-ERR invalid syntax");
}

#[test]
fn test_error_display() {
    let value = RespValue::Error("ERR invalid syntax".to_string());
    assert_eq!(value.to_string(), "-ERR invalid syntax\r\n");
}

#[test]
fn test_integer_debug() {
    let value = RespValue::Integer(42);
    assert_eq!(value.to_debug_string(), ":42");
}

#[test]
fn test_integer_display() {
    let value = RespValue::Integer(42);
    assert_eq!(value.to_string(), ":42\r\n");
}

#[test]
fn test_bulk_string_debug() {
    let value = RespValue::BulkString(b"foobar".to_vec());
    assert_eq!(value.to_debug_string(), "$6,foobar");
}

#[test]
fn test_bulk_string_display() {
    let value = RespValue::BulkString(b"foobar".to_vec());
    assert_eq!(value.to_string(), "$6\r\nfoobar\r\n");
}

#[test]
fn test_null_bulk_string_debug() {
    let value = RespValue::NullBulkString();
    assert_eq!(value.to_debug_string(), "$-1");
}

#[test]
fn test_null_bulk_string_display() {
    let value = RespValue::NullBulkString();
    assert_eq!(value.to_string(), "$-1\r\n");
}

#[test]
fn test_array_debug() {
    let value = RespValue::Array(vec![
        RespValue::SimpleString("OK".to_string()),
        RespValue::Integer(42),
    ]);
    assert_eq!(value.to_debug_string(), "*2,+OK,:42");
}

#[test]
fn test_array_display() {
    let value = RespValue::Array(vec![
        RespValue::SimpleString("OK".to_string()),
        RespValue::Integer(42),
    ]);
    assert_eq!(value.to_string(), "*2\r\n +OK\r\n :42\r\n");
}

#[test]
fn test_null_array_debug() {
    let value = RespValue::NullArray();
    assert_eq!(value.to_debug_string(), "*-1");
}

#[test]
fn test_null_array_display() {
    let value = RespValue::NullArray();
    assert_eq!(value.to_string(), "*-1\r\n");
}

#[test]
fn text_forms_of_numbers_and_nesting() {
    assert_eq!(RespValue::Integer(0).to_string(), ":0\r\n");
    assert_eq!(RespValue::Integer(-7).to_debug_string(), ":-7");
    assert_eq!(
        RespValue::Integer(i64::MIN).to_debug_string(),
        ":-9223372036854775808"
    );
    assert_eq!(
        RespValue::Integer(i64::MAX).to_string(),
        ":9223372036854775807\r\n"
    );
    let nested = RespValue::Array(vec![
        RespValue::Array(vec![RespValue::NullBulkString()]),
        RespValue::BulkString(b"0123456789".to_vec()),
        RespValue::Array(Vec::new()),
    ]);
    assert_eq!(nested.to_debug_string(), "*3,*1,$-1,$10,0123456789,*0");
    assert_eq!(
        nested.to_string(),
        "*3\r\n *1\r\n $-1\r\n $10\r\n0123456789\r\n *0\r\n"
    );
}

#[test]
fn text_forms_show_binary_payloads_lossily() {
    let value = RespValue::BulkString(vec![b'a', 0xFF, b'b']);
    assert_eq!(value.to_debug_string(), "$3,a\u{FFFD}b");
    assert_eq!(value.to_string(), "$3\r\na\u{FFFD}b\r\n");
    let text = RespValue::BulkString("z\u{fc}rich".as_bytes().to_vec());
    assert_eq!(text.to_debug_string(), "$7,z\u{fc}rich");
}

#[test]
fn clone_copies_every_part() {
    let value = RespValue::Array(vec![
        RespValue::SimpleString("a".to_string()),
        RespValue::Error("b".to_string()),
        RespValue::Integer(-3),
        RespValue::BulkString(vec![0, 1, 2]),
        RespValue::NullBulkString(),
        RespValue::Array(vec![RespValue::NullArray()]),
    ]);
    assert_eq!(value.clone(), value);
}
