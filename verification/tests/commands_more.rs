use redis_lite::commands::{
    match_info_section, match_result, parse_cmd, Command, CommandIter, ParseError, Section,
};
use redis_lite::resp::Resp;

fn frame(resp: Resp) -> String {
    String::from_utf8(resp.as_bytes().to_vec()).unwrap()
}

#[test]
fn input_without_crlf_needs_two_lines() {
    assert_eq!(parse_cmd("PING"), Err(ParseError::NeedTwoLines));
    assert_eq!(parse_cmd(""), Err(ParseError::NeedTwoLines));
    assert_eq!(parse_cmd("*1\r"), Err(ParseError::NeedTwoLines));
}

#[test]
fn empty_first_line_is_an_error() {
    assert_eq!(parse_cmd("\r\nPING\r\n"), Err(ParseError::EmptyFirstLine));
}

#[test]
fn first_line_must_open_an_array_or_an_error() {
    assert_eq!(parse_cmd("PING\r\n"), Err(ParseError::UnknownType));
    assert_eq!(parse_cmd("+OK\r\n"), Err(ParseError::UnknownType));
    assert_eq!(parse_cmd("$4\r\nPING\r\n"), Err(ParseError::UnknownType));
    assert_eq!(parse_cmd("é\r\n"), Err(ParseError::UnknownType));
}

#[test]
fn array_size_must_be_a_number() {
    assert_eq!(parse_cmd("*foo\r\n$4\r\nPING\r\n"), Err(ParseError::BadArraySize));
    assert_eq!(parse_cmd("*\r\n"), Err(ParseError::BadArraySize));
    assert_eq!(parse_cmd("*-1\r\n"), Err(ParseError::BadArraySize));
    assert_eq!(
        parse_cmd("*18446744073709551616\r\n$4\r\nPING\r\n"),
        Err(ParseError::BadArraySize)
    );
}

#[test]
fn array_needs_a_complete_command_token() {
    assert_eq!(parse_cmd("*0\r\n"), Err(ParseError::MissingCommand));
    assert_eq!(parse_cmd("*1\r\n"), Err(ParseError::MissingCommand));
    assert_eq!(parse_cmd("*1\r\n$4"), Err(ParseError::MissingCommand));
    assert_eq!(parse_cmd("*1\r\n$4\r\nPING"), Err(ParseError::MissingCommand));
    assert_eq!(parse_cmd("*0\r\n$4\r\nPING\r\n"), Err(ParseError::MissingCommand));
}

#[test]
fn a_huge_count_takes_the_lines_that_are_there() {
    assert_eq!(
        parse_cmd("*18446744073709551615\r\n$4\r\nPING\r\n"),
        Ok((Command::Ping, ""))
    );
}

#[test]
fn unknown_command_fails() {
    assert_eq!(
        Command::try_from(frame(Resp::from(["FLUSHALL"])).as_str()),
        Err(ParseError::CommandFailed)
    );
}

#[test]
fn wrong_number_of_arguments_fails() {
    for words in [vec!["ECHO"], vec!["ECHO", "a", "b"], vec!["GET"], vec!["GET", "a", "b"],
                  vec!["SET"], vec!["SET", "k"], vec!["SET", "k", "v", "PX"],
                  vec!["SET", "k", "v", "PX", "1", "more"]] {
        let mut text = format!("*{}\r\n", words.len());
        for w in &words {
            text.push_str(&format!("${}\r\n{}\r\n", w.len(), w));
        }
        assert_eq!(Command::try_from(text.as_str()), Err(ParseError::CommandFailed), "{words:?}");
    }
}

#[test]
fn set_takes_px_in_any_case() {
    for px in ["px", "PX", "Px", "pX"] {
        let input = frame(Resp::from(["SET", "foo", "42", px, "50"]));
        assert_eq!(
            Command::try_from(input.as_str()),
            Ok(Command::SetKey("foo", "42", Some(50)))
        );
    }
}

#[test]
fn set_refuses_other_options() {
    let input = frame(Resp::from(["SET", "foo", "42", "EX", "50"]));
    assert_eq!(Command::try_from(input.as_str()), Err(ParseError::CommandFailed));
}

#[test]
fn set_timeout_must_be_an_unsigned_number() {
    for ttl in ["soon", "-5", "", "1.5", "18446744073709551616"] {
        let input = frame(Resp::from(["SET", "foo", "42", "px", ttl]));
        assert_eq!(
            Command::try_from(input.as_str()),
            Err(ParseError::TimeoutNotNumber),
            "{ttl:?}"
        );
    }
    let input = frame(Resp::from(["SET", "foo", "42", "px", "18446744073709551615"]));
    assert_eq!(
        Command::try_from(input.as_str()),
        Ok(Command::SetKey("foo", "42", Some(u64::MAX)))
    );
    let input = frame(Resp::from(["SET", "foo", "42", "px", "0"]));
    assert_eq!(
        Command::try_from(input.as_str()),
        Ok(Command::SetKey("foo", "42", Some(0)))
    );
}

#[test]
fn commands_match_in_any_case() {
    assert_eq!(Command::try_from(frame(Resp::from(["command"])).as_str()), Ok(Command::Commands));
    assert_eq!(Command::try_from(frame(Resp::from(["Echo", "x"])).as_str()), Ok(Command::Echo("x")));
    assert_eq!(Command::try_from(frame(Resp::from(["gEt", "x"])).as_str()), Ok(Command::Get("x")));
    assert_eq!(
        Command::try_from(frame(Resp::from(["set", "k", "v"])).as_str()),
        Ok(Command::SetKey("k", "v", None))
    );
    assert_eq!(Command::try_from(frame(Resp::from(["info"])).as_str()), Ok(Command::Info(None)));
    assert_eq!(Command::try_from(frame(Resp::from(["replconf"])).as_str()), Ok(Command::Replconf));
    assert_eq!(
        Command::try_from(frame(Resp::from(["psync", "?", "-1"])).as_str()),
        Ok(Command::Psync(None, -1))
    );
}

#[test]
fn info_takes_no_section_or_replication() {
    assert_eq!(Command::try_from(frame(Resp::from(["INFO"])).as_str()), Ok(Command::Info(None)));
    for section in ["replication", "REPLICATION", "Replication"] {
        assert_eq!(
            Command::try_from(frame(Resp::from(["INFO", section])).as_str()),
            Ok(Command::Info(Some(Section::Replication)))
        );
    }
    assert_eq!(
        Command::try_from(frame(Resp::from(["INFO", "memory"])).as_str()),
        Err(ParseError::InvalidSection)
    );
    assert_eq!(
        Command::try_from(frame(Resp::from(["INFO", "replication", "x"])).as_str()),
        Err(ParseError::InvalidSection)
    );
}

#[test]
fn match_info_section_reads_the_argument_lines() {
    assert_eq!(match_info_section(&[]), Ok(None));
    assert_eq!(match_info_section(&["$11", "replication"]), Ok(Some(Section::Replication)));
    assert_eq!(match_info_section(&["replication"]), Err(ParseError::InvalidSection));
    assert_eq!(match_info_section(&["$3", "cpu"]), Err(ParseError::InvalidSection));
}

#[test]
fn replconf_takes_any_arguments() {
    assert_eq!(
        Command::try_from(frame(Resp::from(["REPLCONF", "listening-port", "6380"])).as_str()),
        Ok(Command::Replconf)
    );
    assert_eq!(
        Command::try_from(frame(Resp::from(["REPLCONF", "capa", "psync2"])).as_str()),
        Ok(Command::Replconf)
    );
    assert_eq!(Command::try_from(frame(Resp::from(["REPLCONF"])).as_str()), Ok(Command::Replconf));
}

#[test]
fn ping_and_command_take_any_arguments() {
    assert_eq!(Command::try_from(frame(Resp::from(["PING", "x"])).as_str()), Ok(Command::Ping));
    assert_eq!(
        Command::try_from(frame(Resp::from(["COMMAND", "DOCS"])).as_str()),
        Ok(Command::Commands)
    );
}

#[test]
fn psync_reads_a_full_resync_request_only() {
    assert_eq!(
        Command::try_from(frame(Resp::from(["PSYNC", "?", "-1"])).as_str()),
        Ok(Command::Psync(None, -1))
    );
    assert_eq!(
        Command::try_from(frame(Resp::from(["PSYNC", "8371b4fb1155b71f4a04d3e1bc3e18c4a990aeeb", "0"])).as_str()),
        Err(ParseError::CommandFailed)
    );
    assert_eq!(
        Command::try_from(frame(Resp::from(["PSYNC", "?", "0"])).as_str()),
        Err(ParseError::CommandFailed)
    );
    assert_eq!(
        Command::try_from(frame(Resp::from(["PSYNC"])).as_str()),
        Err(ParseError::CommandFailed)
    );
    assert_eq!(
        Command::try_from("*3\r\n$5\r\nPSYNC\r\n$9\r\n?\r\n$2\r\n-1\r\n"),
        Err(ParseError::CommandFailed)
    );
}

#[test]
fn match_result_reads_token_and_argument_lines() {
    assert_eq!(match_result("PING", &[]), Ok(Command::Ping));
    assert_eq!(match_result("echo", &["$2", "hi"]), Ok(Command::Echo("hi")));
    assert_eq!(match_result("echo", &["hi"]), Err(ParseError::CommandFailed));
    assert_eq!(
        match_result("set", &["$1", "k", "$1", "v", "$2", "PX", "$2", "10"]),
        Ok(Command::SetKey("k", "v", Some(10)))
    );
    assert_eq!(
        match_result("set", &["$1", "k", "$1", "v", "$2", "PX", "$2", "1x"]),
        Err(ParseError::TimeoutNotNumber)
    );
    assert_eq!(match_result("psync", &["$1", "?", "$2", "-1"]), Ok(Command::Psync(None, -1)));
    assert_eq!(match_result("", &[]), Err(ParseError::CommandFailed));
}

#[test]
fn length_lines_are_not_interpreted() {
    assert_eq!(
        parse_cmd("*2\r\n$999\r\nECHO\r\nwhatever\r\nhi\r\n"),
        Ok((Command::Echo("hi"), ""))
    );
}

#[test]
fn inline_error_is_read_as_a_command() {
    assert_eq!(
        parse_cmd("-ERR unknown command\r\n*1\r\n$4\r\nPING\r\n"),
        Ok((Command::Error("ERR unknown command"), "*1\r\n$4\r\nPING\r\n"))
    );
    assert_eq!(parse_cmd("-\r\n"), Ok((Command::Error(""), "")));
}

#[test]
fn parse_cmd_gives_the_rest_of_the_input() {
    assert_eq!(
        parse_cmd("*1\r\n$4\r\nPING\r\n*2\r\n$3\r\nGET\r\n$1\r\nk\r\n"),
        Ok((Command::Ping, "*2\r\n$3\r\nGET\r\n$1\r\nk\r\n"))
    );
    assert_eq!(parse_cmd("*1\r\n$4\r\nPING\r\nrest"), Ok((Command::Ping, "rest")));
}

#[test]
fn texts_may_hold_any_characters_but_crlf() {
    let input = frame(Resp::from(["SET", "clé", "valeur\nà deux lignes"]));
    assert_eq!(
        Command::try_from(input.as_str()),
        Ok(Command::SetKey("clé", "valeur\nà deux lignes", None))
    );
}

#[test]
fn iterator_ends_on_empty_input_and_on_a_bare_crlf() {
    assert_eq!(CommandIter::from("").next(), None);
    assert_eq!(CommandIter::from("\r\n").next(), None);
    let mut commands = CommandIter::from("*1\r\n$4\r\nPING\r\n\r\n");
    assert_eq!(commands.next(), Some(Ok(Command::Ping)));
    assert_eq!(commands.next(), None);
    assert_eq!(commands.next(), None);
}

#[test]
fn iterator_stops_after_an_error() {
    let mut commands = CommandIter::from("*foo\r\n*1\r\n$4\r\nPING\r\n");
    assert_eq!(commands.next(), Some(Err(ParseError::BadArraySize)));
    assert_eq!(commands.next(), None);
}

#[test]
fn iterator_reports_what_follows_a_command() {
    let mut commands = CommandIter::from("*1\r\n$4\r\nPING\r\nPING\r\n");
    assert_eq!(commands.next(), Some(Ok(Command::Ping)));
    assert_eq!(commands.next(), Some(Err(ParseError::UnknownType)));
    assert_eq!(commands.next(), None);
}

#[test]
fn parse_errors_have_messages() {
    assert_eq!(ParseError::NeedTwoLines.message(), "need 2 or more lines");
    assert_eq!(ParseError::EmptyFirstLine.message(), "need 1 char on first line");
    assert_eq!(ParseError::UnknownType.message(), "unknown RESP type");
    assert_eq!(ParseError::BadArraySize.message(), "array size is not a number");
    assert_eq!(ParseError::MissingCommand.message(), "malformed array: can't find command");
    assert_eq!(ParseError::TimeoutNotNumber.message(), "timeout is not a number");
    assert_eq!(ParseError::InvalidSection.message(), "info: invalid section ");
    assert_eq!(ParseError::CommandFailed.message(), "command parsing failed");
}

#[test]
fn encode_writes_array_frames() {
    assert_eq!(Command::Commands.encode().as_bytes(), b"*1\r\n$7\r\nCOMMAND\r\n");
    assert_eq!(Command::Ping.encode().as_bytes(), b"*1\r\n$4\r\nPING\r\n");
    assert_eq!(Command::Echo("hi").encode().as_bytes(), b"*2\r\n$4\r\nECHO\r\n$2\r\nhi\r\n");
    assert_eq!(Command::Get("k").encode().as_bytes(), b"*2\r\n$3\r\nGET\r\n$1\r\nk\r\n");
    assert_eq!(
        Command::SetKey("k", "v", None).encode().as_bytes(),
        b"*3\r\n$3\r\nSET\r\n$1\r\nk\r\n$1\r\nv\r\n"
    );
    assert_eq!(
        Command::SetKey("k", "v", Some(100)).encode().as_bytes(),
        b"*5\r\n$3\r\nSET\r\n$1\r\nk\r\n$1\r\nv\r\n$2\r\nPX\r\n$3\r\n100\r\n"
    );
    assert_eq!(Command::Info(None).encode().as_bytes(), b"*1\r\n$4\r\nINFO\r\n");
    assert_eq!(
        Command::Info(Some(Section::Replication)).encode().as_bytes(),
        b"*2\r\n$4\r\nINFO\r\n$11\r\nreplication\r\n"
    );
    assert_eq!(Command::Replconf.encode().as_bytes(), b"*1\r\n$8\r\nREPLCONF\r\n");
    assert_eq!(
        Command::Psync(None, -1).encode().as_bytes(),
        b"*3\r\n$5\r\nPSYNC\r\n$1\r\n?\r\n$2\r\n-1\r\n"
    );
    assert_eq!(
        Command::Psync(Some("abc"), 12).encode().as_bytes(),
        b"*3\r\n$5\r\nPSYNC\r\n$3\r\nabc\r\n$2\r\n12\r\n"
    );
    assert_eq!(Command::Error("ERR no").encode().as_bytes(), b"-ERR no\r\n");
}

#[test]
fn encoded_commands_parse_back() {
    let commands = [
        Command::Commands,
        Command::Ping,
        Command::Echo("Hello World"),
        Command::Echo(""),
        Command::Error("ERR something"),
        Command::Get("foo"),
        Command::SetKey("foo", "bar", None),
        Command::SetKey("foo", "bar\r", Some(0)),
        Command::SetKey("clé", "\nvaleur", Some(u64::MAX)),
        Command::Info(None),
        Command::Info(Some(Section::Replication)),
        Command::Replconf,
        Command::Psync(None, -1),
    ];
    for command in commands {
        let text = frame(command.encode());
        assert_eq!(parse_cmd(text.as_str()), Ok((command, "")));
    }
}

#[test]
fn encoded_commands_parse_back_in_a_pipeline() {
    let first = Command::SetKey("foo", "bar", Some(50));
    let second = Command::Get("foo");
    let text = format!("{}{}", frame(first.encode()), frame(second.encode()));
    let mut commands = CommandIter::from(text.as_str());
    assert_eq!(commands.next(), Some(Ok(first)));
    assert_eq!(commands.next(), Some(Ok(second)));
    assert_eq!(commands.next(), None);
}

#[test]
fn a_text_with_crlf_does_not_parse_back() {
    let command = Command::Echo("a\r\nb");
    let text = frame(command.encode());
    assert_eq!(parse_cmd(text.as_str()), Ok((Command::Echo("a"), "b\r\n")));
}
