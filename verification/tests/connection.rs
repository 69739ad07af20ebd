use resp_server::client::connection::{encode_reply, step, Inbound};
use resp_server::client::{ClientCommand, ClientEvent, Connection};
use resp_server::resp::RespValue;
use resp_server::server::{Router, ServerCommand};
use tokio::sync::mpsc::unbounded_channel;

// Runs the bytes of one client through its connection and the router, and
// gives the bytes that the client is sent back.
fn serve(connection: &mut Connection, router: &mut Router, input: &[u8]) -> Vec<u8> {
    let (replies, mut outbox) = unbounded_channel();
    for inbound in connection.receive(input) {
        match inbound {
            Inbound::Command(command) => {
                router.enqueue(ClientEvent::new(command, replies.clone()));
                router.route();
            }
            Inbound::Reply(reply) => replies.send(reply).unwrap(),
        }
    }
    let mut output = Vec::new();
    while let Ok(response) = outbox.try_recv() {
        output.extend_from_slice(&encode_reply(response));
    }
    output
}

#[test]
fn scenario_ping() {
    let mut connection = Connection::new();
    let mut router = Router::new();
    let reply = serve(&mut connection, &mut router, b"*1\r\n$4\r\nPING\r\n");
    assert_eq!(reply, b"+PONG\r\n");
}

#[test]
fn scenario_ping_with_message() {
    let mut connection = Connection::new();
    let mut router = Router::new();
    let reply = serve(
        &mut connection,
        &mut router,
        b"*2\r\n$4\r\nPING\r\n$5\r\nhello\r\n",
    );
    assert_eq!(reply, b"$10\r\nPONG hello\r\n");
}

#[test]
fn scenario_unknown_command() {
    let mut connection = Connection::new();
    let mut router = Router::new();
    let reply = serve(&mut connection, &mut router, b"*1\r\n$4\r\nFOOO\r\n");
    assert_eq!(reply, b"-unknown command 'fooo'\r\n");
    assert!(String::from_utf8(reply).unwrap().contains("foo"));

    // The connection goes on serving.
    let next = serve(&mut connection, &mut router, b"*1\r\n$4\r\nPING\r\n");
    assert_eq!(next, b"+PONG\r\n");
}

#[test]
fn requests_in_one_read_are_answered_in_order() {
    let mut connection = Connection::new();
    let mut router = Router::new();
    let mut input = Vec::new();
    input.extend_from_slice(b"*1\r\n$4\r\nPING\r\n");
    input.extend_from_slice(b"*2\r\n$4\r\nping\r\n$1\r\nx\r\n");
    input.extend_from_slice(b"+PING\r\n");
    input.extend_from_slice(b"*3\r\n$4\r\nPING\r\n$1\r\na\r\n$1\r\nb\r\n");
    let reply = serve(&mut connection, &mut router, &input);
    assert_eq!(
        reply,
        b"+PONG\r\n$6\r\nPONG x\r\n+PONG\r\n-wrong number of arguments for 'ping' command\r\n"
            .to_vec()
    );
}

#[test]
fn a_request_may_arrive_in_pieces() {
    let mut connection = Connection::new();
    assert!(connection.receive(b"*2\r\n$4\r\nPI").is_empty());
    assert!(connection.receive(b"").is_empty());
    assert!(connection.receive(b"NG\r\n$5\r\nhel").is_empty());
    let steps = connection.receive(b"lo\r\n*1\r\n$4\r\nPING\r\n*1\r");
    assert_eq!(
        steps,
        vec![
            Inbound::Command(ClientCommand::Ping(Some("hello".to_string()))),
            Inbound::Command(ClientCommand::Ping(None)),
        ]
    );
    assert_eq!(
        connection.receive(b"\n$4\r\nping\r\n"),
        vec![Inbound::Command(ClientCommand::Ping(None))]
    );
}

#[test]
fn malformed_bytes_are_answered_and_the_connection_starts_afresh() {
    let mut connection = Connection::new();
    let steps = connection.receive(b"*1\r\n$4\r\nPING\r\nGARBAGE\r\n*1\r\n$4\r\nPING\r\n");
    assert_eq!(
        steps,
        vec![
            Inbound::Command(ClientCommand::Ping(None)),
            Inbound::Reply(ServerCommand::Error(
                "protocol error: unknown type".to_string()
            )),
        ]
    );
    // What stood behind the malformed bytes went with them.
    assert!(connection.receive(b"").is_empty());
    assert_eq!(
        connection.receive(b"*1\r\n$4\r\nPING\r\n"),
        vec![Inbound::Command(ClientCommand::Ping(None))]
    );

    assert_eq!(
        connection.receive(b"$abc\r\n"),
        vec![Inbound::Reply(ServerCommand::Error(
            "protocol error: invalid length".to_string()
        ))]
    );
}

#[test]
fn a_failed_request_becomes_an_error_reply() {
    assert_eq!(
        step(RespValue::Integer(1)),
        Inbound::Reply(ServerCommand::Error("syntax error".to_string()))
    );
    assert_eq!(
        step(RespValue::Array(vec![
            RespValue::BulkString(b"PING".to_vec()),
            RespValue::Integer(1),
        ])),
        Inbound::Reply(ServerCommand::Error("syntax error".to_string()))
    );
    assert_eq!(
        step(RespValue::Array(vec![RespValue::BulkString(vec![0xFF])])),
        Inbound::Reply(ServerCommand::Error("invalid utf-8 string".to_string()))
    );
    assert_eq!(
        step(RespValue::SimpleString("Quit".to_string())),
        Inbound::Reply(ServerCommand::Error("unknown command 'quit'".to_string()))
    );
    assert_eq!(
        step(RespValue::SimpleString("PiNG".to_string())),
        Inbound::Command(ClientCommand::Ping(None))
    );
}

#[test]
fn replies_are_encoded_for_the_wire() {
    assert_eq!(encode_reply(ServerCommand::Pong(None)), b"+PONG\r\n");
    assert_eq!(
        encode_reply(ServerCommand::Pong(Some("hello".to_string()))),
        b"$10\r\nPONG hello\r\n"
    );
    assert_eq!(encode_reply(ServerCommand::Okay), b"+OK\r\n");
    assert_eq!(
        encode_reply(ServerCommand::Error("ERR boom".to_string())),
        b"-ERR boom\r\n"
    );
    assert_eq!(
        encode_reply(ServerCommand::Response(RespValue::Array(vec![
            RespValue::Integer(1),
            RespValue::NullBulkString(),
        ]))),
        b"*2\r\n:1\r\n$-1\r\n"
    );
}

#[test]
fn connections_do_not_share_their_buffers() {
    let mut first = Connection::new();
    let mut second = Connection::new();
    assert!(first.receive(b"*1\r\n$4\r\nPI").is_empty());
    assert!(second.receive(b"*1\r\n$4\r\nFO").is_empty());
    assert_eq!(
        second.receive(b"OO\r\n"),
        vec![Inbound::Reply(ServerCommand::Error(
            "unknown command 'fooo'".to_string()
        ))]
    );
    assert_eq!(
        first.receive(b"NG\r\n"),
        vec![Inbound::Command(ClientCommand::Ping(None))]
    );
}

#[test]
fn reads_may_be_cut_anywhere() {
    let mut stream = Vec::new();
    stream.extend_from_slice(b"*2\r\n$4\r\nPING\r\n$3\r\none\r\n");
    stream.extend_from_slice(b"+ping\r\n");
    stream.extend_from_slice(b"*1\r\n$3\r\nGET\r\n");
    stream.extend_from_slice(b":5\r\n");
    stream.extend_from_slice(b"*2\r\n$4\r\nPING\r\n$3\r\ntw");

    let mut whole = Connection::new();
    let expected = whole.receive(&stream);
    assert_eq!(expected.len(), 4);

    for first_cut in 0..=stream.len() {
        for second_cut in [first_cut, (first_cut + stream.len()) / 2, stream.len()] {
            let mut pieces = Connection::new();
            let mut steps = pieces.receive(&stream[..first_cut]);
            steps.extend(pieces.receive(&stream[first_cut..second_cut]));
            steps.extend(pieces.receive(&stream[second_cut..]));
            assert_eq!(steps, expected);

            // Both hold the same unfinished request.
            assert_eq!(pieces.receive(b"o\r\n"), whole_after(&stream));
        }
    }
}

fn whole_after(stream: &[u8]) -> Vec<Inbound> {
    let mut connection = Connection::new();
    connection.receive(stream);
    connection.receive(b"o\r\n")
}
