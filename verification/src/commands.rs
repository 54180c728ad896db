//! The command parser: from the text of one read to typed commands.

use vstd::prelude::*;
use vstd::slice::slice_subrange;
use vstd::string::StringSliceAdditionalSpecFns;
use crate::lines::{
    crlf, eq_ignore_case, is_keyword, lemma_first_crlf_exists, lemma_splitn_len, push_crlf,
    split_after, split_line, split_once, splitn, str_eq,
};
use crate::decimal::{
    decimal, parse_u64, parse_unsigned, push_decimal, push_signed_decimal, signed_decimal,
};
use crate::resp::{array, slices_bytes, texts_bytes, Resp};

verus! {

/// A section of the `INFO` report.
#[derive(Debug, PartialEq, Eq, Clone, Copy, Structural)]
pub enum Section {
    Replication,
}

/// A command, borrowing its texts from the input it was parsed from.
#[derive(Debug, PartialEq, Eq)]
pub enum Command<'a> {
    /// `COMMAND`
    Commands,
    /// `PING`
    Ping,
    /// `ECHO <text>`
    Echo(&'a str),
    /// An inline error frame `-<message>`, as a primary sends to a replica.
    Error(&'a str),
    /// `GET <key>`
    Get(&'a str),
    /// `SET <key> <value> [PX <milliseconds>]`
    SetKey(&'a str, &'a str, Option<u64>),
    /// `INFO [replication]`
    Info(Option<Section>),
    /// `REPLCONF ...`, whose arguments are not interpreted.
    Replconf,
    /// `PSYNC <replica id> <offset>`; `? -1` asks for a full resynchronisation.
    Psync(Option<&'a str>, i32),
}

/// A command with each text as the sequence of its bytes.
pub enum CommandView {
    Commands,
    Ping,
    Echo(Seq<u8>),
    Error(Seq<u8>),
    Get(Seq<u8>),
    SetKey(Seq<u8>, Seq<u8>, Option<u64>),
    Info(Option<Section>),
    Replconf,
    Psync(Option<Seq<u8>>, i32),
}

impl<'a> View for Command<'a> {
    type V = CommandView;

    open spec fn view(&self) -> CommandView {
        match *self {
            Command::Commands => CommandView::Commands,
            Command::Ping => CommandView::Ping,
            Command::Echo(text) => CommandView::Echo(text.spec_bytes()),
            Command::Error(message) => CommandView::Error(message.spec_bytes()),
            Command::Get(key) => CommandView::Get(key.spec_bytes()),
            Command::SetKey(key, value, ttl) => CommandView::SetKey(
                key.spec_bytes(),
                value.spec_bytes(),
                ttl,
            ),
            Command::Info(section) => CommandView::Info(section),
            Command::Replconf => CommandView::Replconf,
            Command::Psync(id, offset) => CommandView::Psync(
                match id {
                    Some(id) => Some(id.spec_bytes()),
                    None => None,
                },
                offset,
            ),
        }
    }
}

/// Why a piece of input is not a command.
#[derive(Debug, PartialEq, Eq, Clone, Copy, Structural)]
pub enum ParseError {
    /// The input holds no CRLF.
    NeedTwoLines,
    /// The first line is empty.
    EmptyFirstLine,
    /// The first line starts with neither `*` nor `-`.
    UnknownType,
    /// The count after `*` is not an unsigned number.
    BadArraySize,
    /// The array holds no complete command token.
    MissingCommand,
    /// The time to live after `PX` is not an unsigned 64-bit number.
    TimeoutNotNumber,
    /// The argument of `INFO` is not a known section.
    InvalidSection,
    /// The command token is unknown, or its arguments do not fit it.
    CommandFailed,
}

impl ParseError {
    /// The text of the message that describes the error.
    pub open spec fn text(self) -> Seq<char> {
        match self {
            ParseError::NeedTwoLines => "need 2 or more lines"@,
            ParseError::EmptyFirstLine => "need 1 char on first line"@,
            ParseError::UnknownType => "unknown RESP type"@,
            ParseError::BadArraySize => "array size is not a number"@,
            ParseError::MissingCommand => "malformed array: can't find command"@,
            ParseError::TimeoutNotNumber => "timeout is not a number"@,
            ParseError::InvalidSection => "info: invalid section "@,
            ParseError::CommandFailed => "command parsing failed"@,
        }
    }

    /// The message that describes the error.
    pub fn message(&self) -> (r: &'static str)
        ensures
            r@ == self.text(),
    {
        match self {
            ParseError::NeedTwoLines => "need 2 or more lines",
            ParseError::EmptyFirstLine => "need 1 char on first line",
            ParseError::UnknownType => "unknown RESP type",
            ParseError::BadArraySize => "array size is not a number",
            ParseError::MissingCommand => "malformed array: can't find command",
            ParseError::TimeoutNotNumber => "timeout is not a number",
            ParseError::InvalidSection => "info: invalid section ",
            ParseError::CommandFailed => "command parsing failed",
        }
    }
}

/// The section that the arguments of `INFO` name. `xs` holds, for each
/// argument, its length line and then its text.
pub open spec fn spec_match_info_section(xs: Seq<Seq<u8>>) -> Result<Option<Section>, ParseError> {
    if xs.len() == 0 {
        Ok(None)
    } else if xs.len() == 2 && eq_ignore_case(xs[1], "replication".spec_bytes()) {
        Ok(Some(Section::Replication))
    } else {
        Err(ParseError::InvalidSection)
    }
}

/// The arguments of `PSYNC ? -1`, with their length lines.
pub open spec fn full_resync_request() -> Seq<Seq<u8>> {
    seq!["$1".spec_bytes(), "?".spec_bytes(), "$2".spec_bytes(), "-1".spec_bytes()]
}

/// The command that the token `cmd` and the lines `xs` after it stand for.
/// `xs` holds, for each argument, its length line and then its text; the
/// length lines are not interpreted, except for `PSYNC`.
pub open spec fn spec_match_result(cmd: Seq<u8>, xs: Seq<Seq<u8>>) -> Result<
    CommandView,
    ParseError,
> {
    if eq_ignore_case(cmd, "command".spec_bytes()) {
        Ok(CommandView::Commands)
    } else if eq_ignore_case(cmd, "ping".spec_bytes()) {
        Ok(CommandView::Ping)
    } else if eq_ignore_case(cmd, "echo".spec_bytes()) && xs.len() == 2 {
        Ok(CommandView::Echo(xs[1]))
    } else if eq_ignore_case(cmd, "get".spec_bytes()) && xs.len() == 2 {
        Ok(CommandView::Get(xs[1]))
    } else if eq_ignore_case(cmd, "set".spec_bytes()) && xs.len() == 4 {
        Ok(CommandView::SetKey(xs[1], xs[3], None))
    } else if eq_ignore_case(cmd, "set".spec_bytes()) && xs.len() == 8 && eq_ignore_case(
        xs[5],
        "px".spec_bytes(),
    ) {
        match parse_unsigned(xs[7], u64::MAX as nat) {
            Some(ttl) => Ok(CommandView::SetKey(xs[1], xs[3], Some(ttl as u64))),
            None => Err(ParseError::TimeoutNotNumber),
        }
    } else if eq_ignore_case(cmd, "info".spec_bytes()) {
        match spec_match_info_section(xs) {
            Ok(section) => Ok(CommandView::Info(section)),
            Err(e) => Err(e),
        }
    } else if eq_ignore_case(cmd, "replconf".spec_bytes()) {
        Ok(CommandView::Replconf)
    } else if eq_ignore_case(cmd, "psync".spec_bytes()) && xs == full_resync_request() {
        Ok(CommandView::Psync(None, -1i32))
    } else {
        Err(ParseError::CommandFailed)
    }
}

/// The first frame of `s` and the input that follows it.
///
/// The first line, up to the first CRLF, decides: `-<message>` is an
/// inline error; `*<count>` opens an array, of which the `2 * count` lines
/// that follow are taken, as far as there are that many: a length line and a
/// text for the command token and for each argument. Whatever follows the last
/// line taken is the rest.
pub open spec fn spec_parse_cmd(s: Seq<u8>) -> Result<(CommandView, Seq<u8>), ParseError> {
    match split_once(s) {
        None => Err(ParseError::NeedTwoLines),
        Some((line, rest)) => {
            if line.len() == 0 {
                Err(ParseError::EmptyFirstLine)
            } else if line[0] == '-' as u8 {
                Ok((CommandView::Error(line.skip(1)), rest))
            } else if line[0] != '*' as u8 {
                Err(ParseError::UnknownType)
            } else {
                match parse_unsigned(line.skip(1), u64::MAX as nat) {
                    None => Err(ParseError::BadArraySize),
                    Some(count) => {
                        let tbl = splitn(rest, 2 * count + 1);
                        if tbl.len() < 3 {
                            Err(ParseError::MissingCommand)
                        } else {
                            match spec_match_result(tbl[1], tbl.subrange(2, tbl.len() - 1)) {
                                Ok(command) => Ok((command, tbl.last())),
                                Err(e) => Err(e),
                            }
                        }
                    },
                }
            }
        },
    }
}

/// The texts of the array frame that writes `command`: its token, then its
/// arguments. (An inline error is no array and has none.)
pub open spec fn tokens(command: CommandView) -> Seq<Seq<u8>> {
    match command {
        CommandView::Commands => seq!["COMMAND".spec_bytes()],
        CommandView::Ping => seq!["PING".spec_bytes()],
        CommandView::Echo(text) => seq!["ECHO".spec_bytes(), text],
        CommandView::Error(_) => Seq::empty(),
        CommandView::Get(key) => seq!["GET".spec_bytes(), key],
        CommandView::SetKey(key, value, None) => seq!["SET".spec_bytes(), key, value],
        CommandView::SetKey(key, value, Some(ttl)) => seq![
            "SET".spec_bytes(),
            key,
            value,
            "PX".spec_bytes(),
            decimal(ttl as nat),
        ],
        CommandView::Info(None) => seq!["INFO".spec_bytes()],
        CommandView::Info(Some(Section::Replication)) => seq![
            "INFO".spec_bytes(),
            "replication".spec_bytes(),
        ],
        CommandView::Replconf => seq!["REPLCONF".spec_bytes()],
        CommandView::Psync(None, offset) => seq![
            "PSYNC".spec_bytes(),
            "?".spec_bytes(),
            signed_decimal(offset as int),
        ],
        CommandView::Psync(Some(id), offset) => seq![
            "PSYNC".spec_bytes(),
            id,
            signed_decimal(offset as int),
        ],
    }
}

/// The frame that writes `command`: an array of bulk strings, or for an
/// inline error `-<message>\r\n`.
pub open spec fn encode(command: CommandView) -> Seq<u8> {
    match command {
        CommandView::Error(message) => seq!['-' as u8] + message + crlf(),
        _ => array(tokens(command)),
    }
}

/// The section that the arguments of `INFO` name.
pub fn match_info_section(xs: &[&str]) -> (r: Result<Option<Section>, ParseError>)
    ensures
        r == spec_match_info_section(texts_bytes(xs@)),
{
    if xs.len() == 0 {
        Ok(None)
    } else if xs.len() == 2 && is_keyword(xs[1], "replication") {
        Ok(Some(Section::Replication))
    } else {
        Err(ParseError::InvalidSection)
    }
}

/// Whether `xs` is the argument list of `PSYNC ? -1`.
fn is_full_resync_request(xs: &[&str]) -> (r: bool)
    ensures
        r == (texts_bytes(xs@) == full_resync_request()),
{
    if xs.len() == 4 && str_eq(xs[0], "$1") && str_eq(xs[1], "?") && str_eq(xs[2], "$2") && str_eq(
        xs[3],
        "-1",
    ) {
        assert(texts_bytes(xs@) =~= full_resync_request());
        true
    } else {
        let ghost t = texts_bytes(xs@);
        let ghost q = full_resync_request();
        assert(t != q) by {
            if t == q {
                assert(t.len() == 4);
                assert(t[0] == q[0] && t[1] == q[1] && t[2] == q[2] && t[3] == q[3]);
            }
        }
        false
    }
}

/// The command that the token `cmd` and the lines `xs` after it stand for.
pub fn match_result<'a>(cmd: &'a str, xs: &[&'a str]) -> (r: Result<Command<'a>, ParseError>)
    ensures
        match r {
            Ok(command) => spec_match_result(cmd.spec_bytes(), texts_bytes(xs@)) == Ok::<
                CommandView,
                ParseError,
            >(command@),
            Err(e) => spec_match_result(cmd.spec_bytes(), texts_bytes(xs@)) == Err::<
                CommandView,
                ParseError,
            >(e),
        },
{
    if is_keyword(cmd, "command") {
        Ok(Command::Commands)
    } else if is_keyword(cmd, "ping") {
        Ok(Command::Ping)
    } else if is_keyword(cmd, "echo") && xs.len() == 2 {
        Ok(Command::Echo(xs[1]))
    } else if is_keyword(cmd, "get") && xs.len() == 2 {
        Ok(Command::Get(xs[1]))
    } else if is_keyword(cmd, "set") && xs.len() == 4 {
        Ok(Command::SetKey(xs[1], xs[3], None))
    } else if is_keyword(cmd, "set") && xs.len() == 8 && is_keyword(xs[5], "px") {
        match parse_u64(xs[7].as_bytes()) {
            Some(ttl) => Ok(Command::SetKey(xs[1], xs[3], Some(ttl))),
            None => Err(ParseError::TimeoutNotNumber),
        }
    } else if is_keyword(cmd, "info") {
        match match_info_section(xs) {
            Ok(section) => Ok(Command::Info(section)),
            Err(e) => Err(e),
        }
    } else if is_keyword(cmd, "replconf") {
        Ok(Command::Replconf)
    } else if is_keyword(cmd, "psync") && is_full_resync_request(xs) {
        Ok(Command::Psync(None, -1))
    } else {
        Err(ParseError::CommandFailed)
    }
}

/// Splits `s` as `str::splitn(limit, "\r\n")` does. All pieces but the last
/// come back in the vector, the last one beside it.
fn split_lines<'a>(s: &'a str, limit: u128) -> (r: (Vec<&'a str>, &'a str))
    requires
        limit >= 1,
    ensures
        splitn(s.spec_bytes(), limit as nat) == texts_bytes(r.0@).push(r.1.spec_bytes()),
{
    let mut pieces: Vec<&'a str> = Vec::new();
    let mut cur: &'a str = s;
    assert(texts_bytes(pieces@) + splitn(cur.spec_bytes(), limit as nat) =~= splitn(
        s.spec_bytes(),
        limit as nat,
    ));
    while (pieces.len() as u128) + 1 < limit
        invariant
            pieces@.len() < limit,
            splitn(s.spec_bytes(), limit as nat) == texts_bytes(pieces@) + splitn(
                cur.spec_bytes(),
                (limit - pieces@.len()) as nat,
            ),
        ensures
            pieces@.len() < limit,
            splitn(s.spec_bytes(), limit as nat) == texts_bytes(pieces@).push(cur.spec_bytes()),
        decreases limit - pieces@.len(),
    {
        let ghost before = texts_bytes(pieces@);
        match split_line(cur) {
            None => {
                assert(splitn(cur.spec_bytes(), (limit - pieces@.len()) as nat) =~= seq![
                    cur.spec_bytes(),
                ]);
                assert(before + seq![cur.spec_bytes()] =~= before.push(cur.spec_bytes()));
                break ;
            },
            Some((head, tail)) => {
                pieces.push(head);
                assert(texts_bytes(pieces@) =~= before.push(head.spec_bytes()));
                assert(before + (seq![head.spec_bytes()] + splitn(
                    tail.spec_bytes(),
                    (limit - pieces@.len()) as nat,
                )) =~= texts_bytes(pieces@) + splitn(
                    tail.spec_bytes(),
                    (limit - pieces@.len()) as nat,
                ));
                cur = tail;
            },
        }
    }
    proof {
        if pieces@.len() + 1 >= limit {
            assert(splitn(cur.spec_bytes(), (limit - pieces@.len()) as nat) =~= seq![
                cur.spec_bytes(),
            ]);
            assert(texts_bytes(pieces@) + seq![cur.spec_bytes()] =~= texts_bytes(pieces@).push(
                cur.spec_bytes(),
            ));
        }
    }
    (pieces, cur)
}

/// Parses the first frame of `s`; gives the command and the input after it.
pub fn parse_cmd<'a>(s: &'a str) -> (r: Result<(Command<'a>, &'a str), ParseError>)
    ensures
        match r {
            Ok((command, rest)) => spec_parse_cmd(s.spec_bytes()) == Ok::<
                (CommandView, Seq<u8>),
                ParseError,
            >((command@, rest.spec_bytes())),
            Err(e) => spec_parse_cmd(s.spec_bytes()) == Err::<(CommandView, Seq<u8>), ParseError>(
                e,
            ),
        },
{
    let (line, rest) = match split_line(s) {
        None => {
            return Err(ParseError::NeedTwoLines);
        },
        Some(parts) => parts,
    };
    let first: u8 = if line.as_bytes().len() == 0 {
        return Err(ParseError::EmptyFirstLine);
    } else {
        line.as_bytes()[0]
    };
    if first != '*' as u8 && first != '-' as u8 {
        return Err(ParseError::UnknownType);
    }
    let (_, number) = split_after(line, 0);
    if first == '-' as u8 {
        return Ok((Command::Error(number), rest));
    }
    let count: u64 = match parse_u64(number.as_bytes()) {
        None => {
            return Err(ParseError::BadArraySize);
        },
        Some(count) => count,
    };
    let (pieces, rest) = split_lines(rest, 2 * (count as u128) + 1);
    let ghost tbl = texts_bytes(pieces@).push(rest.spec_bytes());
    if pieces.len() < 2 {
        return Err(ParseError::MissingCommand);
    }
    let xs: &[&'a str] = slice_subrange(pieces.as_slice(), 2, pieces.len());
    assert(texts_bytes(xs@) =~= tbl.subrange(2, tbl.len() - 1));
    match match_result(pieces[1], xs) {
        Ok(command) => Ok((command, rest)),
        Err(e) => Err(e),
    }
}

impl<'a> Command<'a> {
    /// The frame that writes the command on the wire.
    pub fn encode(&self) -> (r: Resp)
        ensures
            r@ == encode(self@),
    {
        let mut digits: Vec<u8> = Vec::new();
        let mut items: Vec<&[u8]> = Vec::new();
        match *self {
            Command::Commands => {
                items.push("COMMAND".as_bytes());
            },
            Command::Ping => {
                items.push("PING".as_bytes());
            },
            Command::Echo(text) => {
                items.push("ECHO".as_bytes());
                items.push(text.as_bytes());
            },
            Command::Error(message) => {
                let mut v: Vec<u8> = Vec::new();
                v.push('-' as u8);
                v.extend_from_slice(message.as_bytes());
                push_crlf(&mut v);
                assert(v@ =~= encode(self@));
                return Resp::Array(v);
            },
            Command::Get(key) => {
                items.push("GET".as_bytes());
                items.push(key.as_bytes());
            },
            Command::SetKey(key, value, ttl) => {
                items.push("SET".as_bytes());
                items.push(key.as_bytes());
                items.push(value.as_bytes());
                match ttl {
                    Some(ms) => {
                        push_decimal(&mut digits, ms);
                        items.push("PX".as_bytes());
                        items.push(digits.as_slice());
                    },
                    None => {},
                }
            },
            Command::Info(section) => {
                items.push("INFO".as_bytes());
                match section {
                    Some(Section::Replication) => {
                        items.push("replication".as_bytes());
                    },
                    None => {},
                }
            },
            Command::Replconf => {
                items.push("REPLCONF".as_bytes());
            },
            Command::Psync(id, offset) => {
                push_signed_decimal(&mut digits, offset);
                items.push("PSYNC".as_bytes());
                match id {
                    Some(id) => {
                        items.push(id.as_bytes());
                    },
                    None => {
                        items.push("?".as_bytes());
                    },
                }
                items.push(digits.as_slice());
            },
        }
        assert(slices_bytes(items@) =~= tokens(self@));
        Resp::array(items.as_slice())
    }
}

impl<'a> TryFrom<&'a str> for Command<'a> {
    type Error = ParseError;

    /// Parses the first frame of `s` and leaves the rest of `s` aside.
    fn try_from(s: &'a str) -> (r: Result<Command<'a>, ParseError>)
        ensures
            match r {
                Ok(command) => spec_parse_cmd(s.spec_bytes()) matches Ok((c, _)) && c == command@,
                Err(e) => spec_parse_cmd(s.spec_bytes()) == Err::<
                    (CommandView, Seq<u8>),
                    ParseError,
                >(e),
            },
    {
        match parse_cmd(s) {
            Ok((command, _)) => Ok(command),
            Err(e) => Err(e),
        }
    }
}

/// What the conversion returns is stated by the contract of the conversion
/// itself, over the view of the result.
impl<'a> vstd::std_specs::convert::TryFromSpecImpl<&'a str> for Command<'a> {
    open spec fn obeys_try_from_spec() -> bool {
        false
    }

    open spec fn try_from_spec(s: &'a str) -> Result<Command<'a>, ParseError> {
        arbitrary()
    }
}

/// The commands of one read, handed out one at a time.
#[derive(Debug)]
pub struct CommandIter<'a> {
    s: &'a str,
}

impl<'a> View for CommandIter<'a> {
    type V = Seq<u8>;

    /// The input that is left.
    closed spec fn view(&self) -> Seq<u8> {
        self.s.spec_bytes()
    }
}

impl<'a> From<&'a str> for CommandIter<'a> {
    /// An iterator over the commands of `s`.
    fn from(s: &'a str) -> (r: CommandIter<'a>)
        ensures
            r@ == s.spec_bytes(),
    {
        CommandIter { s }
    }
}

impl<'a> vstd::std_specs::convert::FromSpecImpl<&'a str> for CommandIter<'a> {
    open spec fn obeys_from_spec() -> bool {
        true
    }

    closed spec fn from_spec(s: &'a str) -> CommandIter<'a> {
        CommandIter { s }
    }
}

/// The input holds no further frame: it is empty, or one bare CRLF.
pub open spec fn is_exhausted(s: Seq<u8>) -> bool {
    s.len() == 0 || s == crlf()
}

/// Every frame that is read leaves less input than it was read from.
pub proof fn lemma_parse_consumes(s: Seq<u8>)
    ensures
        spec_parse_cmd(s) matches Ok((_, rest)) ==> rest.len() < s.len(),
{
    if let Ok((_, rest)) = spec_parse_cmd(s) {
        lemma_first_crlf_exists(s);
        let (line, after) = split_once(s).unwrap();
        if line[0] == '*' as u8 {
            let count = parse_unsigned(line.skip(1), u64::MAX as nat).unwrap();
            lemma_splitn_len(after, 2 * count + 1);
        }
    }
}

/// All that an iteration over the input `s` hands out: the commands of `s`
/// one after the other, up to the end of the input or to the first error.
pub open spec fn decode_all(s: Seq<u8>) -> Seq<Result<CommandView, ParseError>>
    decreases s.len(),
{
    if is_exhausted(s) {
        Seq::empty()
    } else {
        match spec_parse_cmd(s) {
            Ok((command, rest)) => if rest.len() < s.len() {
                seq![Ok(command)] + decode_all(rest)
            } else {
                seq![Ok(command)]
            },
            Err(e) => seq![Err(e)],
        }
    }
}

impl<'a> CommandIter<'a> {
    /// The next command of the input, or the error that ends the iteration.
    ///
    /// Nothing is left after an error: what follows a malformed frame is
    /// dropped.
    pub fn next(&mut self) -> (r: Option<Result<Command<'a>, ParseError>>)
        ensures
            is_exhausted(old(self)@) ==> r is None && final(self)@ == old(self)@,
            r is Some ==> final(self)@.len() < old(self)@.len(),
            !is_exhausted(old(self)@) ==> match r {
                Some(Ok(command)) => spec_parse_cmd(old(self)@) == Ok::<
                    (CommandView, Seq<u8>),
                    ParseError,
                >((command@, final(self)@)),
                Some(Err(e)) => spec_parse_cmd(old(self)@) == Err::<
                    (CommandView, Seq<u8>),
                    ParseError,
                >(e) && final(self)@.len() == 0,
                None => false,
            },
    {
        proof {
            reveal_strlit("\r\n");
            vstd::string::is_ascii_spec_bytes("\r\n");
            assert("\r\n".spec_bytes() =~= crlf());
        }
        if self.s.as_bytes().len() == 0 || str_eq(self.s, "\r\n") {
            return None;
        }
        proof {
            lemma_parse_consumes(self.s.spec_bytes());
        }
        match parse_cmd(self.s) {
            Ok((command, rest)) => {
                self.s = rest;
                Some(Ok(command))
            },
            Err(e) => {
                proof {
                    reveal_strlit("");
                    vstd::string::is_ascii_spec_bytes("");
                }
                self.s = "";
                Some(Err(e))
            },
        }
    }
}

} // verus!
