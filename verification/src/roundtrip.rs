//! Writing a command and reading it back.

use vstd::prelude::*;
use vstd::string::{is_ascii_spec_bytes, StringSliceAdditionalSpecFns};
use crate::lines::{
    crlf, crlf_at, first_crlf, has_crlf, lemma_first_crlf_exists, lemma_split_once_terminated,
    split_once, splitn, CR,
};
use crate::keywords::{
    lemma_reads_as_command, lemma_reads_as_echo, lemma_reads_as_get, lemma_reads_as_info,
    lemma_reads_as_ping, lemma_reads_as_psync, lemma_reads_as_px, lemma_reads_as_replconf,
    lemma_reads_as_replication, lemma_reads_as_set,
};
use crate::decimal::{
    decimal, lemma_decimal_value, lemma_digits_no_crlf, lemma_parse_decimal, parse_unsigned,
    signed_decimal,
};
use crate::resp::{array, bulk, bulks};
use crate::commands::{
    decode_all, encode, full_resync_request, is_exhausted, spec_match_result, spec_parse_cmd,
    tokens, CommandView, ParseError, Section,
};
use crate::decoder::{first_frame, ready_len, Extent};

verus! {

/// The length line of a bulk string: `$<len>`.
pub open spec fn length_line(data: Seq<u8>) -> Seq<u8> {
    seq!['$' as u8] + decimal(data.len())
}

/// The lines of the bulk strings of `items`: for each item its length line
/// and then the item itself.
pub open spec fn lines_of(items: Seq<Seq<u8>>) -> Seq<Seq<u8>>
    decreases items.len(),
{
    if items.len() == 0 {
        Seq::empty()
    } else {
        seq![length_line(items.first()), items.first()] + lines_of(items.drop_first())
    }
}

/// No item of `items` holds a CRLF.
pub open spec fn no_crlf(items: Seq<Seq<u8>>) -> bool {
    forall|i: int| 0 <= i < items.len() ==> !has_crlf(#[trigger] items[i])
}

/// The commands that come back as they were written: their texts hold no
/// CRLF, since a frame is cut into lines wherever a CRLF stands, and a
/// `PSYNC` asks for a full resynchronisation, the only request that is read.
pub open spec fn round_trips(command: CommandView) -> bool {
    match command {
        CommandView::Echo(text) => !has_crlf(text),
        CommandView::Error(message) => !has_crlf(message),
        CommandView::Get(key) => !has_crlf(key),
        CommandView::SetKey(key, value, _) => !has_crlf(key) && !has_crlf(value),
        CommandView::Psync(id, offset) => id is None && offset == -1,
        _ => true,
    }
}

/// A sign or marker followed by a number is one line.
proof fn lemma_marked_number_no_crlf(mark: u8, n: nat)
    requires
        mark != CR,
    ensures
        !has_crlf(seq![mark] + decimal(n)),
{
    let s = seq![mark] + decimal(n);
    lemma_decimal_value(n);
    assert forall|i: int| !crlf_at(s, i) by {
        if crlf_at(s, i) {
            if i > 0 {
                assert(s[i] == decimal(n)[i - 1]);
            }
        }
    }
}

/// Cutting the bulk strings of `items`, followed by `tail`, into lines gives
/// the lines of the items and then `tail`, whole.
pub proof fn lemma_splitn_bulks(items: Seq<Seq<u8>>, tail: Seq<u8>)
    requires
        no_crlf(items),
    ensures
        splitn(bulks(items) + tail, 2 * items.len() + 1) == lines_of(items).push(tail),
    decreases items.len(),
{
    let n = items.len();
    if n == 0 {
        assert(bulks(items) + tail =~= tail);
        assert(lines_of(items).push(tail) =~= seq![tail]);
    } else {
        let first = items.first();
        let rest = items.drop_first();
        let after = bulks(rest) + tail;
        let whole = bulks(items) + tail;
        assert(no_crlf(rest)) by {
            assert forall|i: int| 0 <= i < rest.len() implies !has_crlf(#[trigger] rest[i]) by {
                assert(rest[i] == items[i + 1]);
            }
        }
        lemma_splitn_bulks(rest, tail);
        lemma_marked_number_no_crlf('$' as u8, first.len());
        assert(whole =~= length_line(first) + crlf() + (first + crlf() + after));
        lemma_split_once_terminated(length_line(first), first + crlf() + after);
        assert(!has_crlf(first)) by {
            assert(items[0] == first);
        }
        lemma_split_once_terminated(first, after);
        let limit = (2 * n + 1) as nat;
        assert(splitn(whole, limit) == seq![length_line(first)] + splitn(
            first + crlf() + after,
            (limit - 1) as nat,
        ));
        assert(splitn(first + crlf() + after, (limit - 1) as nat) == seq![first] + splitn(
            after,
            (limit - 2) as nat,
        ));
        assert(seq![length_line(first)] + (seq![first] + lines_of(rest).push(tail)) =~= lines_of(
            items,
        ).push(tail));
    }
}

/// An array frame followed by anything is read as its opening line and then
/// the lines of its items.
pub proof fn lemma_parse_array(items: Seq<Seq<u8>>, tail: Seq<u8>)
    requires
        no_crlf(items),
        0 < items.len() <= u64::MAX,
    ensures
        spec_parse_cmd(array(items) + tail) == match spec_match_result(
            items.first(),
            lines_of(items.drop_first()),
        ) {
            Ok(command) => Ok::<(CommandView, Seq<u8>), ParseError>((command, tail)),
            Err(e) => Err(e),
        },
{
    let n = items.len();
    let opening = seq!['*' as u8] + decimal(n);
    let whole = array(items) + tail;
    let body = bulks(items) + tail;
    lemma_marked_number_no_crlf('*' as u8, n);
    assert(whole =~= opening + crlf() + body);
    lemma_split_once_terminated(opening, body);
    assert(opening.skip(1) =~= decimal(n));
    lemma_parse_decimal(n, u64::MAX as nat);
    lemma_splitn_bulks(items, tail);
    let tbl = lines_of(items).push(tail);
    let rest = lines_of(items.drop_first());
    assert(lines_of(items) =~= seq![length_line(items.first()), items.first()] + rest);
    assert(tbl[1] == items.first());
    assert(tbl.subrange(2, tbl.len() - 1) =~= rest);
}

/// The lines of one argument.
proof fn lemma_lines_of_one(a: Seq<u8>)
    ensures
        lines_of(seq![a]) == seq![length_line(a), a],
{
    let items = seq![a];
    assert(items.drop_first() =~= Seq::<Seq<u8>>::empty());
    assert(lines_of(items.drop_first()) =~= Seq::<Seq<u8>>::empty());
    assert(lines_of(items) =~= seq![length_line(a), a]);
}

/// The lines of two arguments.
proof fn lemma_lines_of_two(a: Seq<u8>, b: Seq<u8>)
    ensures
        lines_of(seq![a, b]) == seq![length_line(a), a, length_line(b), b],
{
    let items = seq![a, b];
    assert(items.drop_first() =~= seq![b]);
    lemma_lines_of_one(b);
    assert(lines_of(items) =~= seq![length_line(a), a, length_line(b), b]);
}

/// The lines of four arguments.
proof fn lemma_lines_of_four(a: Seq<u8>, b: Seq<u8>, c: Seq<u8>, d: Seq<u8>)
    ensures
        lines_of(seq![a, b, c, d]) == seq![
            length_line(a),
            a,
            length_line(b),
            b,
            length_line(c),
            c,
            length_line(d),
            d,
        ],
{
    let items = seq![a, b, c, d];
    assert(items.drop_first() =~= seq![b, c, d]);
    assert(seq![b, c, d].drop_first() =~= seq![c, d]);
    lemma_lines_of_two(c, d);
    assert(lines_of(seq![b, c, d]) =~= seq![length_line(b), b] + lines_of(seq![c, d]));
    assert(lines_of(items) =~= seq![
        length_line(a),
        a,
        length_line(b),
        b,
        length_line(c),
        c,
        length_line(d),
        d,
    ]);
}

/// Reading what `COMMAND`, `PING` or `REPLCONF` writes.
proof fn lemma_match_bare(command: CommandView)
    requires
        command is Commands || command is Ping || command is Replconf,
    ensures
        tokens(command).len() == 1,
        no_crlf(tokens(command)),
        spec_match_result(tokens(command).first(), lines_of(tokens(command).drop_first())) == Ok::<
            CommandView,
            ParseError,
        >(command),
{
    lemma_reads_as_command();
    lemma_reads_as_ping();
    lemma_reads_as_replconf();
}

/// Reading what `ECHO <text>` or `GET <key>` writes.
proof fn lemma_match_unary(command: CommandView)
    requires
        command is Echo || command is Get,
        round_trips(command),
    ensures
        tokens(command).len() == 2,
        no_crlf(tokens(command)),
        spec_match_result(tokens(command).first(), lines_of(tokens(command).drop_first())) == Ok::<
            CommandView,
            ParseError,
        >(command),
{
    lemma_reads_as_echo();
    lemma_reads_as_get();
    let items = tokens(command);
    let argument = items[1];
    assert(items.drop_first() =~= seq![argument]);
    lemma_lines_of_one(argument);
}

/// Reading what `SET <key> <value>` writes.
proof fn lemma_match_set(key: Seq<u8>, value: Seq<u8>)
    requires
        !has_crlf(key),
        !has_crlf(value),
    ensures
        tokens(CommandView::SetKey(key, value, None)).len() == 3,
        no_crlf(tokens(CommandView::SetKey(key, value, None))),
        spec_match_result(
            tokens(CommandView::SetKey(key, value, None)).first(),
            lines_of(tokens(CommandView::SetKey(key, value, None)).drop_first()),
        ) == Ok::<CommandView, ParseError>(CommandView::SetKey(key, value, None)),
{
    lemma_reads_as_set();
    let items = tokens(CommandView::SetKey(key, value, None));
    assert(items.drop_first() =~= seq![key, value]);
    lemma_lines_of_two(key, value);
}

/// Reading what `SET <key> <value> PX <ttl>` writes.
proof fn lemma_match_set_px(key: Seq<u8>, value: Seq<u8>, ttl: u64)
    requires
        !has_crlf(key),
        !has_crlf(value),
    ensures
        tokens(CommandView::SetKey(key, value, Some(ttl))).len() == 5,
        no_crlf(tokens(CommandView::SetKey(key, value, Some(ttl)))),
        spec_match_result(
            tokens(CommandView::SetKey(key, value, Some(ttl))).first(),
            lines_of(tokens(CommandView::SetKey(key, value, Some(ttl))).drop_first()),
        ) == Ok::<CommandView, ParseError>(CommandView::SetKey(key, value, Some(ttl))),
{
    lemma_reads_as_set();
    lemma_reads_as_px();
    let items = tokens(CommandView::SetKey(key, value, Some(ttl)));
    let px = "PX".spec_bytes();
    let number = decimal(ttl as nat);
    lemma_decimal_value(ttl as nat);
    lemma_digits_no_crlf(number);
    lemma_parse_decimal(ttl as nat, u64::MAX as nat);
    assert(items.drop_first() =~= seq![key, value, px, number]);
    lemma_lines_of_four(key, value, px, number);
}

/// Reading what `INFO` or `INFO replication` writes.
proof fn lemma_match_info(section: Option<Section>)
    ensures
        0 < tokens(CommandView::Info(section)).len() <= 2,
        no_crlf(tokens(CommandView::Info(section))),
        spec_match_result(
            tokens(CommandView::Info(section)).first(),
            lines_of(tokens(CommandView::Info(section)).drop_first()),
        ) == Ok::<CommandView, ParseError>(CommandView::Info(section)),
{
    lemma_reads_as_info();
    lemma_reads_as_replication();
    let items = tokens(CommandView::Info(section));
    match section {
        None => {
            assert(items.drop_first().len() == 0);
            assert(lines_of(items.drop_first()).len() == 0);
        },
        Some(Section::Replication) => {
            let name = "replication".spec_bytes();
            assert(items.drop_first() =~= seq![name]);
            lemma_lines_of_one(name);
            let xs = lines_of(items.drop_first());
            assert(xs.len() == 2 && xs[1] == name);
            assert(section == Some(Section::Replication));
        },
    }
}

/// Reading what `PSYNC ? -1` writes.
proof fn lemma_match_psync()
    ensures
        tokens(CommandView::Psync(None, -1i32)).len() == 3,
        no_crlf(tokens(CommandView::Psync(None, -1i32))),
        spec_match_result(
            tokens(CommandView::Psync(None, -1i32)).first(),
            lines_of(tokens(CommandView::Psync(None, -1i32)).drop_first()),
        ) == Ok::<CommandView, ParseError>(CommandView::Psync(None, -1i32)),
{
    lemma_reads_as_psync();
    let items = tokens(CommandView::Psync(None, -1i32));
    let any = "?".spec_bytes();
    let minus_one = signed_decimal(-1);
    reveal_strlit("?");
    is_ascii_spec_bytes("?");
    reveal_strlit("-1");
    is_ascii_spec_bytes("-1");
    reveal_strlit("$1");
    is_ascii_spec_bytes("$1");
    reveal_strlit("$2");
    is_ascii_spec_bytes("$2");
    assert(any =~= seq!['?' as u8]);
    assert(minus_one =~= seq!['-' as u8, '1' as u8]);
    assert("-1".spec_bytes() =~= minus_one);
    assert(length_line(any) =~= "$1".spec_bytes());
    assert(length_line(minus_one) =~= "$2".spec_bytes());
    assert forall|i: int| !crlf_at(any, i) by {}
    assert forall|i: int| !crlf_at(minus_one, i) by {}
    assert(items.drop_first() =~= seq![any, minus_one]);
    lemma_lines_of_two(any, minus_one);
    assert(lines_of(items.drop_first()) =~= full_resync_request());
}

/// Writing a command and reading it back gives the command: the frame of a
/// command whose texts hold no CRLF, followed by anything, is read as that
/// command, with what followed as the rest.
pub proof fn thm_encode_then_parse(command: CommandView, tail: Seq<u8>)
    requires
        round_trips(command),
    ensures
        spec_parse_cmd(encode(command) + tail) == Ok::<(CommandView, Seq<u8>), ParseError>(
            (command, tail),
        ),
{
    match command {
        CommandView::Error(message) => {
            let line = seq!['-' as u8] + message;
            assert(encode(command) + tail =~= line + crlf() + tail);
            assert forall|i: int| !crlf_at(line, i) by {
                if crlf_at(line, i) {
                    assert(i > 0);
                    assert(crlf_at(message, i - 1));
                }
            }
            lemma_split_once_terminated(line, tail);
            assert(line.skip(1) =~= message);
        },
        CommandView::Commands | CommandView::Ping | CommandView::Replconf => {
            lemma_match_bare(command);
            lemma_parse_array(tokens(command), tail);
        },
        CommandView::Echo(_) | CommandView::Get(_) => {
            lemma_match_unary(command);
            lemma_parse_array(tokens(command), tail);
        },
        CommandView::SetKey(key, value, None) => {
            lemma_match_set(key, value);
            lemma_parse_array(tokens(command), tail);
        },
        CommandView::SetKey(key, value, Some(ttl)) => {
            lemma_match_set_px(key, value, ttl);
            lemma_parse_array(tokens(command), tail);
        },
        CommandView::Info(section) => {
            lemma_match_info(section);
            lemma_parse_array(tokens(command), tail);
        },
        CommandView::Psync(_, _) => {
            lemma_match_psync();
            lemma_parse_array(tokens(command), tail);
        },
    }
}

/// The lines of `items` are two for each item.
proof fn lemma_lines_of_len(items: Seq<Seq<u8>>)
    ensures
        lines_of(items).len() == 2 * items.len(),
    decreases items.len(),
{
    if items.len() > 0 {
        lemma_lines_of_len(items.drop_first());
    }
}

/// An array frame followed by anything is a whole frame.
pub proof fn lemma_array_is_whole(items: Seq<Seq<u8>>, tail: Seq<u8>)
    requires
        no_crlf(items),
        items.len() <= u64::MAX,
    ensures
        first_frame(array(items) + tail) == Extent::Complete(array(items).len() as int),
{
    let n = items.len();
    let opening = seq!['*' as u8] + decimal(n);
    let whole = array(items) + tail;
    let body = bulks(items) + tail;
    lemma_marked_number_no_crlf('*' as u8, n);
    assert(whole =~= opening + crlf() + body);
    lemma_split_once_terminated(opening, body);
    assert(opening.skip(1) =~= decimal(n));
    lemma_parse_decimal(n, u64::MAX as nat);
    lemma_splitn_bulks(items, tail);
    lemma_lines_of_len(items);
}

/// The texts of a command that comes back as written hold no CRLF.
proof fn lemma_tokens_no_crlf(command: CommandView)
    requires
        round_trips(command),
    ensures
        no_crlf(tokens(command)),
        tokens(command).len() <= 5,
{
    match command {
        CommandView::Error(_) => {},
        CommandView::Commands | CommandView::Ping | CommandView::Replconf => {
            lemma_match_bare(command);
        },
        CommandView::Echo(_) | CommandView::Get(_) => {
            lemma_match_unary(command);
        },
        CommandView::SetKey(key, value, None) => {
            lemma_match_set(key, value);
        },
        CommandView::SetKey(key, value, Some(ttl)) => {
            lemma_match_set_px(key, value, ttl);
        },
        CommandView::Info(section) => {
            lemma_match_info(section);
        },
        CommandView::Psync(_, _) => {
            lemma_match_psync();
        },
    }
}

/// What is written is a whole frame: the frame of a command whose texts hold
/// no CRLF is recognised as whole whatever follows it, and on its own it is
/// released to the parser at once.
pub proof fn thm_encoded_frame_is_whole(command: CommandView, tail: Seq<u8>)
    requires
        round_trips(command),
    ensures
        first_frame(encode(command) + tail) == Extent::Complete(encode(command).len() as int),
        ready_len(encode(command)) == encode(command).len(),
{
    lemma_encoded_frame_is_whole(command, tail);
    lemma_encoded_frame_is_whole(command, Seq::empty());
    let frame = encode(command);
    assert(frame + Seq::<u8>::empty() =~= frame);
    let after = frame.skip(frame.len() as int);
    assert(after.len() == 0);
    assert(first_frame(after) == Extent::Incomplete);
    assert(ready_len(after) == 0);
    assert(ready_len(frame) == frame.len() + ready_len(after));
}

/// The frame of a command whose texts hold no CRLF is whole.
proof fn lemma_encoded_frame_is_whole(command: CommandView, tail: Seq<u8>)
    requires
        round_trips(command),
    ensures
        first_frame(encode(command) + tail) == Extent::Complete(encode(command).len() as int),
        encode(command).len() > 0,
{
    match command {
        CommandView::Error(message) => {
            let line = seq!['-' as u8] + message;
            assert(encode(command) + tail =~= line + crlf() + tail);
            assert forall|i: int| !crlf_at(line, i) by {
                if crlf_at(line, i) {
                    assert(i > 0);
                    assert(crlf_at(message, i - 1));
                }
            }
            lemma_split_once_terminated(line, tail);
        },
        _ => {
            lemma_tokens_no_crlf(command);
            lemma_array_is_whole(tokens(command), tail);
        },
    }
}

/// The text before the first CRLF holds no CRLF.
proof fn lemma_first_line_no_crlf(s: Seq<u8>)
    requires
        has_crlf(s),
    ensures
        !has_crlf(split_once(s).unwrap().0),
{
    lemma_first_crlf_exists(s);
    let i = first_crlf(s);
    let line = s.subrange(0, i);
    assert forall|j: int| !crlf_at(line, j) by {
        if crlf_at(line, j) {
            assert(crlf_at(s, j));
        }
    }
}

/// Of the pieces that input is cut into, only the last can hold a CRLF.
proof fn lemma_pieces_no_crlf(s: Seq<u8>, n: nat, i: int)
    requires
        0 <= i < splitn(s, n).len() - 1,
    ensures
        !has_crlf(splitn(s, n)[i]),
    decreases n,
{
    if n >= 2 && has_crlf(s) {
        let (head, tail) = split_once(s).unwrap();
        lemma_first_line_no_crlf(s);
        if i > 0 {
            lemma_pieces_no_crlf(tail, (n - 1) as nat, i - 1);
        }
    }
}

/// Whatever the parser reads can be written and read back: the texts of a
/// command that was parsed hold no CRLF, and the only `PSYNC` that is parsed
/// asks for a full resynchronisation.
pub proof fn thm_parsed_round_trips(s: Seq<u8>)
    ensures
        spec_parse_cmd(s) matches Ok((command, _)) ==> round_trips(command),
{
    if let Ok((command, _)) = spec_parse_cmd(s) {
        let (line, rest) = split_once(s).unwrap();
        lemma_first_line_no_crlf(s);
        if line[0] == '-' as u8 {
            let message = line.skip(1);
            assert forall|j: int| !crlf_at(message, j) by {
                if crlf_at(message, j) {
                    assert(crlf_at(line, j + 1));
                }
            }
        } else {
            let count = parse_unsigned(line.skip(1), u64::MAX as nat).unwrap();
            let tbl = splitn(rest, 2 * count + 1);
            let xs = tbl.subrange(2, tbl.len() - 1);
            assert forall|j: int| 0 <= j < xs.len() implies !has_crlf(#[trigger] xs[j]) by {
                lemma_pieces_no_crlf(rest, 2 * count + 1, j + 2);
            }
            if xs.len() >= 2 {
                assert(!has_crlf(xs[1]));
            }
            if xs.len() >= 4 {
                assert(!has_crlf(xs[3]));
            }
        }
    }
}

/// Reading is not changed by writing in between: the command that the
/// parser reads from any input, written as a frame, is read as that command
/// again.
pub proof fn thm_parse_encode_parse(s: Seq<u8>)
    ensures
        spec_parse_cmd(s) matches Ok((command, _)) ==> spec_parse_cmd(encode(command)) == Ok::<
            (CommandView, Seq<u8>),
            ParseError,
        >((command, Seq::empty())),
{
    if let Ok((command, _)) = spec_parse_cmd(s) {
        thm_parsed_round_trips(s);
        thm_encode_then_parse(command, Seq::empty());
        assert(encode(command) + Seq::<u8>::empty() =~= encode(command));
    }
}

/// The frames of `commands`, one after the other.
pub open spec fn encode_all(commands: Seq<CommandView>) -> Seq<u8>
    decreases commands.len(),
{
    if commands.len() == 0 {
        Seq::empty()
    } else {
        encode(commands.first()) + encode_all(commands.drop_first())
    }
}

/// A pipeline is read back command by command: the frames of commands whose
/// texts hold no CRLF, written one after the other, are read as those
/// commands in their order, and nothing else.
pub proof fn thm_pipeline_reads_back(commands: Seq<CommandView>)
    requires
        forall|i: int| 0 <= i < commands.len() ==> round_trips(#[trigger] commands[i]),
    ensures
        decode_all(encode_all(commands)) == Seq::new(
            commands.len(),
            |i: int| Ok::<CommandView, ParseError>(commands[i]),
        ),
    decreases commands.len(),
{
    let expected = Seq::new(commands.len(), |i: int| Ok::<CommandView, ParseError>(commands[i]));
    if commands.len() == 0 {
        assert(decode_all(encode_all(commands)) =~= expected);
    } else {
        let first = commands.first();
        let rest = commands.drop_first();
        let tail = encode_all(rest);
        let input = encode(first) + tail;
        assert(round_trips(commands[0]));
        assert forall|i: int| 0 <= i < rest.len() implies round_trips(#[trigger] rest[i]) by {
            assert(rest[i] == commands[i + 1]);
        }
        thm_pipeline_reads_back(rest);
        thm_encode_then_parse(first, tail);
        lemma_encoded_frame_is_whole(first, tail);
        assert(input[0] == encode(first)[0]);
        assert(input[0] == '*' as u8 || input[0] == '-' as u8);
        assert(!is_exhausted(input));
        assert(seq![Ok::<CommandView, ParseError>(first)] + Seq::new(
            rest.len(),
            |i: int| Ok::<CommandView, ParseError>(rest[i]),
        ) =~= expected);
    }
}

} // verus!
