use redis_lite::commands::{Command, CommandIter, ParseError};
use redis_lite::decoder::Decoder;

fn feed(decoder: &mut Decoder, chunk: &str) -> String {
    String::from_utf8(decoder.feed(chunk.as_bytes())).unwrap()
}

#[test]
fn whole_frame_is_released_at_once() {
    let mut decoder = Decoder::new();
    assert_eq!(feed(&mut decoder, "*1\r\n$4\r\nPING\r\n"), "*1\r\n$4\r\nPING\r\n");
    assert_eq!(feed(&mut decoder, ""), "");
}

#[test]
fn several_frames_are_released_together() {
    let mut decoder = Decoder::new();
    let input = "*1\r\n$4\r\nPING\r\n-ERR\r\n*2\r\n$3\r\nGET\r\n$1\r\nk\r\n";
    assert_eq!(feed(&mut decoder, input), input);
}

#[test]
fn incomplete_frame_is_held_back() {
    let mut decoder = Decoder::new();
    assert_eq!(feed(&mut decoder, "*2\r\n$3\r\nGET\r\n$3\r\nfo"), "");
    assert_eq!(feed(&mut decoder, "o"), "");
    assert_eq!(feed(&mut decoder, "\r"), "");
    assert_eq!(feed(&mut decoder, "\n*1\r\n$4"), "*2\r\n$3\r\nGET\r\n$3\r\nfoo\r\n");
    assert_eq!(feed(&mut decoder, "\r\nPING\r\n"), "*1\r\n$4\r\nPING\r\n");
}

#[test]
fn frame_in_single_bytes() {
    let input = "*3\r\n$3\r\nSET\r\n$3\r\nfoo\r\n$3\r\nbar\r\n";
    let mut decoder = Decoder::new();
    let mut released = String::new();
    for (i, b) in input.bytes().enumerate() {
        released.push_str(&String::from_utf8(decoder.feed(&[b])).unwrap());
        if i + 1 < input.len() {
            assert_eq!(released, "");
        }
    }
    assert_eq!(released, input);
    assert_eq!(
        Command::try_from(released.as_str()),
        Ok(Command::SetKey("foo", "bar", None))
    );
}

#[test]
fn whole_frames_are_released_before_an_incomplete_one() {
    let mut decoder = Decoder::new();
    assert_eq!(
        feed(&mut decoder, "*1\r\n$4\r\nPING\r\n*1\r\n$4\r\nPI"),
        "*1\r\n$4\r\nPING\r\n"
    );
    assert_eq!(feed(&mut decoder, "NG\r\n"), "*1\r\n$4\r\nPING\r\n");
}

#[test]
fn inline_error_is_whole_with_its_line() {
    let mut decoder = Decoder::new();
    assert_eq!(feed(&mut decoder, "-ERR unknown"), "");
    assert_eq!(feed(&mut decoder, " command\r\n"), "-ERR unknown command\r\n");
}

#[test]
fn malformed_input_is_released_at_once() {
    let mut decoder = Decoder::new();
    assert_eq!(feed(&mut decoder, "PING"), "PING");
    assert_eq!(feed(&mut decoder, "\r\n"), "\r\n");
    assert_eq!(feed(&mut decoder, "*foo\r\n$4\r\nPI"), "*foo\r\n$4\r\nPI");
    assert_eq!(feed(&mut decoder, "*1\r\n$4\r\nPING\r\n"), "*1\r\n$4\r\nPING\r\n");
}

#[test]
fn malformed_input_after_whole_frames_is_released_with_them() {
    let mut decoder = Decoder::new();
    let input = "*1\r\n$4\r\nPING\r\n+OK\r\n*1\r\n$4";
    assert_eq!(feed(&mut decoder, input), input);
    let mut commands = CommandIter::from(input);
    assert_eq!(commands.next(), Some(Ok(Command::Ping)));
    assert_eq!(commands.next(), Some(Err(ParseError::UnknownType)));
    assert_eq!(commands.next(), None);
}

#[test]
fn array_size_is_awaited_before_it_is_judged() {
    let mut decoder = Decoder::new();
    assert_eq!(feed(&mut decoder, "*"), "");
    assert_eq!(feed(&mut decoder, "1"), "");
    assert_eq!(feed(&mut decoder, "x"), "");
    assert_eq!(feed(&mut decoder, "\r\n"), "*1x\r\n");
}

#[test]
fn empty_array_is_whole_with_its_line() {
    let mut decoder = Decoder::new();
    assert_eq!(feed(&mut decoder, "*0\r\n*1\r\n"), "*0\r\n");
    assert_eq!(Command::try_from("*0\r\n"), Err(ParseError::MissingCommand));
}

#[test]
fn frame_waits_for_all_lines_it_announces() {
    let mut decoder = Decoder::new();
    assert_eq!(feed(&mut decoder, "*3\r\n$4\r\nPING\r\n"), "");
    assert_eq!(feed(&mut decoder, "$1\r\na\r\n$1\r\n"), "");
    assert_eq!(feed(&mut decoder, "b\r\n"), "*3\r\n$4\r\nPING\r\n$1\r\na\r\n$1\r\nb\r\n");
}

#[test]
fn bytes_that_are_no_text_are_kept_as_they_are() {
    let mut decoder = Decoder::new();
    assert_eq!(decoder.feed(b"*1\r\n$1\r\n\xff\r"), b"");
    assert_eq!(decoder.feed(b"\n"), b"*1\r\n$1\r\n\xff\r\n");
}

#[test]
fn released_frames_parse_as_if_read_at_once() {
    let input = "*3\r\n$3\r\nSET\r\n$1\r\nk\r\n$1\r\nv\r\n*2\r\n$3\r\nGET\r\n$1\r\nk\r\n*1\r\n$4\r\nPING\r\n";
    for cut in 0..=input.len() {
        let mut decoder = Decoder::new();
        let mut parsed = Vec::new();
        for chunk in [&input[..cut], &input[cut..]] {
            let ready = feed(&mut decoder, chunk);
            let mut commands = CommandIter::from(ready.as_str());
            while let Some(item) = commands.next() {
                parsed.push(format!("{:?}", item));
            }
        }
        assert_eq!(
            parsed,
            vec![
                format!("{:?}", Ok::<Command, ParseError>(Command::SetKey("k", "v", None))),
                format!("{:?}", Ok::<Command, ParseError>(Command::Get("k"))),
                format!("{:?}", Ok::<Command, ParseError>(Command::Ping)),
            ],
            "cut at {cut}"
        );
    }
}
