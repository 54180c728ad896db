use redis_lite::commands::{Command, CommandIter};
use redis_lite::resp::Resp;

fn text(resp: Resp) -> String {
    String::from_utf8(resp.as_bytes().to_vec()).unwrap()
}

#[test]
fn test_command() {
    let input: String = text(Resp::from(["COMMAND"]));
    assert_eq!(Command::try_from(input.as_str()), Ok(Command::Commands));
}

#[test]
fn test_ping() {
    let input: String = text(Resp::from(["PING"]));
    assert_eq!(Command::try_from(input.as_str()), Ok(Command::Ping));
}

#[test]
fn test_ping_lowercase() {
    let input: String = text(Resp::from(["ping"]));
    assert_eq!(Command::try_from(input.as_str()), Ok(Command::Ping));
}

#[test]
fn test_echo() {
    let input: String = text(Resp::from(["ECHO", "Hello World"]));
    assert_eq!(
        Command::try_from(input.as_str()),
        Ok(Command::Echo("Hello World"))
    );
}

#[test]
fn test_get() {
    let input: String = text(Resp::from(["GET", "foo"]));
    assert_eq!(Command::try_from(input.as_str()), Ok(Command::Get("foo")));
}

#[test]
fn test_set() {
    let input: String = text(Resp::from(["SET", "foo", "42"]));
    assert_eq!(
        Command::try_from(input.as_str()),
        Ok(Command::SetKey("foo", "42", None))
    );
}

#[test]
fn test_set_timeout() {
    let input: String = text(Resp::from(["SET", "foo", "42", "px", "123"]));
    assert_eq!(
        Command::try_from(input.as_str()),
        Ok(Command::SetKey("foo", "42", Some(123)))
    );
}

#[test]
fn test_iterator() {
    let input: [String; 2] = [
        text(Resp::from(["SET", "foo", "42"])),
        text(Resp::from(["GET", "foo"])),
    ];
    let input: String = input.join("");

    let mut commands = CommandIter::from(input.as_str());
    assert_eq!(commands.next(), Some(Ok(Command::SetKey("foo", "42", None))));
    assert_eq!(commands.next(), Some(Ok(Command::Get("foo"))));
    assert_eq!(commands.next(), None)
}
