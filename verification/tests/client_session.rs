use redis_lite::client::{Action, Client};
use redis_lite::commands::{Command, ParseError, Section};
use redis_lite::conf::{Conf, Role};
use redis_lite::store::Origin;

const ID: &str = "8371b4fb1155b71f4a04d3e1bc3e18c4a990aeeb";

fn master() -> Conf {
    Conf { port: 6379, role: Role::Master { repl_id: ID.to_string(), repl_offset: 0 } }
}

fn servant() -> Conf {
    Conf { port: 6380, role: Role::Servant { host: "localhost".to_string(), port: 6379 } }
}

fn reply(action: Action) -> Vec<u8> {
    match action {
        Action::Reply(frame) => frame.as_bytes().to_vec(),
        _ => panic!("a reply was expected"),
    }
}

#[test]
fn command_and_replconf_are_acknowledged() {
    let client = Client::new(master(), false);
    assert_eq!(reply(client.handle(Ok(Command::Commands))), b"+OK\r\n");
    assert_eq!(reply(client.handle(Ok(Command::Replconf))), b"+OK\r\n");
}

#[test]
fn ping_is_answered_with_pong() {
    let client = Client::new(master(), false);
    assert_eq!(reply(client.handle(Ok(Command::Ping))), b"+PONG\r\n");
}

#[test]
fn echo_gets_its_text_back() {
    let client = Client::new(master(), false);
    assert_eq!(
        reply(client.handle(Ok(Command::Echo("Hello World")))),
        b"$11\r\nHello World\r\n"
    );
}

#[test]
fn get_and_set_go_to_the_store() {
    let client = Client::new(master(), false);
    assert!(matches!(client.handle(Ok(Command::Get("foo"))), Action::Get("foo")));
    assert!(matches!(
        client.handle(Ok(Command::SetKey("foo", "bar", Some(50)))),
        Action::SetKey("foo", "bar", Some(50), Origin::Client)
    ));
    let link = Client::new(servant(), true);
    assert!(matches!(
        link.handle(Ok(Command::SetKey("foo", "bar", None))),
        Action::SetKey("foo", "bar", None, Origin::Primary)
    ));
    assert_eq!(client.origin(), Origin::Client);
    assert_eq!(link.origin(), Origin::Primary);
}

#[test]
fn psync_starts_a_resynchronisation() {
    let client = Client::new(master(), false);
    assert!(matches!(client.handle(Ok(Command::Psync(None, -1))), Action::Resync));
}

#[test]
fn inline_error_is_passed_over() {
    let client = Client::new(servant(), true);
    assert!(matches!(client.handle(Ok(Command::Error("ERR"))), Action::Nothing));
}

#[test]
fn parse_errors_are_reported_to_the_peer() {
    let client = Client::new(master(), false);
    assert_eq!(
        reply(client.handle(Err(ParseError::BadArraySize))),
        b"-Error: array size is not a number\r\n"
    );
    assert_eq!(
        reply(client.handle(Err(ParseError::CommandFailed))),
        b"-Error: command parsing failed\r\n"
    );
    assert_eq!(
        reply(client.handle(Err(ParseError::InvalidSection))),
        b"-Error: info: invalid section \r\n"
    );
}

#[test]
fn info_of_a_primary() {
    let client = Client::new(master(), false);
    let text = format!("role:master\r\nmaster_replid:{ID}\r\nmaster_repl_offset:0\r\n");
    let expected = format!("${}\r\n{}\r\n", text.len(), text);
    assert_eq!(client.handle_info().as_bytes(), expected.as_bytes());
    assert_eq!(reply(client.handle(Ok(Command::Info(None)))), expected.as_bytes());
    assert_eq!(
        reply(client.handle(Ok(Command::Info(Some(Section::Replication))))),
        expected.as_bytes()
    );
}

#[test]
fn info_of_a_replica() {
    let client = Client::new(servant(), false);
    assert_eq!(
        client.handle_info().as_bytes(),
        b"$53\r\nrole:slave\r\nmaster_host:localhost\r\nmaster_port:6379\r\n\r\n"
    );
}

#[test]
fn reply_to_get() {
    let client = Client::new(master(), false);
    assert_eq!(client.handle_get(Some("bar")).as_bytes(), b"$3\r\nbar\r\n");
    assert_eq!(client.handle_get(Some("")).as_bytes(), b"$0\r\n\r\n");
    assert_eq!(client.handle_get(None).as_bytes(), b"$-1\r\n");
}

#[test]
fn reply_to_set() {
    let client = Client::new(master(), false);
    assert_eq!(client.handle_set().unwrap().as_bytes(), b"+OK\r\n");
    let link = Client::new(servant(), true);
    assert!(link.handle_set().is_none());
    let client_of_replica = Client::new(servant(), false);
    assert_eq!(client_of_replica.handle_set().unwrap().as_bytes(), b"+OK\r\n");
}

#[test]
fn primary_replies_to_psync_with_the_snapshot() {
    let client = Client::new(master(), false);
    let snapshot = b"REDIS0011\xfa\x09redis-ver\x057.2.0\xff\r\n";
    let reply = client.handle_master(snapshot).ok().unwrap();
    let mut expected = format!("+FULLRESYNC {ID} 0\r\n$29\r\n").into_bytes();
    expected.extend_from_slice(snapshot);
    assert_eq!(snapshot.len(), 29);
    assert_eq!(reply, expected);
}

#[test]
fn primary_replies_to_psync_with_an_empty_snapshot() {
    let conf = Conf { port: 1, role: Role::Master { repl_id: "id".to_string(), repl_offset: 77 } };
    let client = Client::new(conf, false);
    assert_eq!(client.handle_master(b"").ok().unwrap(), b"+FULLRESYNC id 77\r\n$0\r\n");
}

#[test]
fn replica_refuses_psync() {
    let client = Client::new(servant(), false);
    match client.handle_master(b"REDIS") {
        Err(refusal) => assert_eq!(refusal.as_bytes(), b"-Error: I'm not a master\r\n"),
        Ok(_) => panic!("a refusal was expected"),
    }
}
