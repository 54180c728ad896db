//! The words of the protocol, byte by byte: which command token each of
//! the words that are written on the wire is read as.

use vstd::prelude::*;
use vstd::string::{is_ascii_spec_bytes, StringSliceAdditionalSpecFns};
use crate::lines::{crlf_at, eq_ignore_case, has_crlf, lower};

verus! {

/// The bytes of `command`.
proof fn lemma_spell_command()
    ensures
        "command".spec_bytes() == seq![
            'c' as u8, 'o' as u8, 'm' as u8, 'm' as u8, 'a' as u8, 'n' as u8, 'd' as u8,
        ],
{
    reveal_strlit("command");
    is_ascii_spec_bytes("command");
    assert("command".spec_bytes() =~= seq![
        'c' as u8, 'o' as u8, 'm' as u8, 'm' as u8, 'a' as u8, 'n' as u8, 'd' as u8,
    ]);
}

/// The bytes of `COMMAND`.
proof fn lemma_spell_command_upper()
    ensures
        "COMMAND".spec_bytes() == seq![
            'C' as u8, 'O' as u8, 'M' as u8, 'M' as u8, 'A' as u8, 'N' as u8, 'D' as u8,
        ],
{
    reveal_strlit("COMMAND");
    is_ascii_spec_bytes("COMMAND");
    assert("COMMAND".spec_bytes() =~= seq![
        'C' as u8, 'O' as u8, 'M' as u8, 'M' as u8, 'A' as u8, 'N' as u8, 'D' as u8,
    ]);
}

/// The bytes of `ping`.
proof fn lemma_spell_ping()
    ensures
        "ping".spec_bytes() == seq!['p' as u8, 'i' as u8, 'n' as u8, 'g' as u8],
{
    reveal_strlit("ping");
    is_ascii_spec_bytes("ping");
    assert("ping".spec_bytes() =~= seq!['p' as u8, 'i' as u8, 'n' as u8, 'g' as u8]);
}

/// The bytes of `PING`.
proof fn lemma_spell_ping_upper()
    ensures
        "PING".spec_bytes() == seq!['P' as u8, 'I' as u8, 'N' as u8, 'G' as u8],
{
    reveal_strlit("PING");
    is_ascii_spec_bytes("PING");
    assert("PING".spec_bytes() =~= seq!['P' as u8, 'I' as u8, 'N' as u8, 'G' as u8]);
}

/// The bytes of `echo`.
proof fn lemma_spell_echo()
    ensures
        "echo".spec_bytes() == seq!['e' as u8, 'c' as u8, 'h' as u8, 'o' as u8],
{
    reveal_strlit("echo");
    is_ascii_spec_bytes("echo");
    assert("echo".spec_bytes() =~= seq!['e' as u8, 'c' as u8, 'h' as u8, 'o' as u8]);
}

/// The bytes of `ECHO`.
proof fn lemma_spell_echo_upper()
    ensures
        "ECHO".spec_bytes() == seq!['E' as u8, 'C' as u8, 'H' as u8, 'O' as u8],
{
    reveal_strlit("ECHO");
    is_ascii_spec_bytes("ECHO");
    assert("ECHO".spec_bytes() =~= seq!['E' as u8, 'C' as u8, 'H' as u8, 'O' as u8]);
}

/// The bytes of `get`.
proof fn lemma_spell_get()
    ensures
        "get".spec_bytes() == seq!['g' as u8, 'e' as u8, 't' as u8],
{
    reveal_strlit("get");
    is_ascii_spec_bytes("get");
    assert("get".spec_bytes() =~= seq!['g' as u8, 'e' as u8, 't' as u8]);
}

/// The bytes of `GET`.
proof fn lemma_spell_get_upper()
    ensures
        "GET".spec_bytes() == seq!['G' as u8, 'E' as u8, 'T' as u8],
{
    reveal_strlit("GET");
    is_ascii_spec_bytes("GET");
    assert("GET".spec_bytes() =~= seq!['G' as u8, 'E' as u8, 'T' as u8]);
}

/// The bytes of `set`.
proof fn lemma_spell_set()
    ensures
        "set".spec_bytes() == seq!['s' as u8, 'e' as u8, 't' as u8],
{
    reveal_strlit("set");
    is_ascii_spec_bytes("set");
    assert("set".spec_bytes() =~= seq!['s' as u8, 'e' as u8, 't' as u8]);
}

/// The bytes of `SET`.
proof fn lemma_spell_set_upper()
    ensures
        "SET".spec_bytes() == seq!['S' as u8, 'E' as u8, 'T' as u8],
{
    reveal_strlit("SET");
    is_ascii_spec_bytes("SET");
    assert("SET".spec_bytes() =~= seq!['S' as u8, 'E' as u8, 'T' as u8]);
}

/// The bytes of `info`.
proof fn lemma_spell_info()
    ensures
        "info".spec_bytes() == seq!['i' as u8, 'n' as u8, 'f' as u8, 'o' as u8],
{
    reveal_strlit("info");
    is_ascii_spec_bytes("info");
    assert("info".spec_bytes() =~= seq!['i' as u8, 'n' as u8, 'f' as u8, 'o' as u8]);
}

/// The bytes of `INFO`.
proof fn lemma_spell_info_upper()
    ensures
        "INFO".spec_bytes() == seq!['I' as u8, 'N' as u8, 'F' as u8, 'O' as u8],
{
    reveal_strlit("INFO");
    is_ascii_spec_bytes("INFO");
    assert("INFO".spec_bytes() =~= seq!['I' as u8, 'N' as u8, 'F' as u8, 'O' as u8]);
}

/// The bytes of `replconf`.
proof fn lemma_spell_replconf()
    ensures
        "replconf".spec_bytes() == seq![
            'r' as u8, 'e' as u8, 'p' as u8, 'l' as u8, 'c' as u8, 'o' as u8, 'n' as u8, 'f' as
            u8,
        ],
{
    reveal_strlit("replconf");
    is_ascii_spec_bytes("replconf");
    assert("replconf".spec_bytes() =~= seq![
        'r' as u8, 'e' as u8, 'p' as u8, 'l' as u8, 'c' as u8, 'o' as u8, 'n' as u8, 'f' as u8,
    ]);
}

/// The bytes of `REPLCONF`.
proof fn lemma_spell_replconf_upper()
    ensures
        "REPLCONF".spec_bytes() == seq![
            'R' as u8, 'E' as u8, 'P' as u8, 'L' as u8, 'C' as u8, 'O' as u8, 'N' as u8, 'F' as
            u8,
        ],
{
    reveal_strlit("REPLCONF");
    is_ascii_spec_bytes("REPLCONF");
    assert("REPLCONF".spec_bytes() =~= seq![
        'R' as u8, 'E' as u8, 'P' as u8, 'L' as u8, 'C' as u8, 'O' as u8, 'N' as u8, 'F' as u8,
    ]);
}

/// The bytes of `psync`.
proof fn lemma_spell_psync()
    ensures
        "psync".spec_bytes() == seq!['p' as u8, 's' as u8, 'y' as u8, 'n' as u8, 'c' as u8],
{
    reveal_strlit("psync");
    is_ascii_spec_bytes("psync");
    assert("psync".spec_bytes() =~= seq!['p' as u8, 's' as u8, 'y' as u8, 'n' as u8, 'c' as u8]);
}

/// The bytes of `PSYNC`.
proof fn lemma_spell_psync_upper()
    ensures
        "PSYNC".spec_bytes() == seq!['P' as u8, 'S' as u8, 'Y' as u8, 'N' as u8, 'C' as u8],
{
    reveal_strlit("PSYNC");
    is_ascii_spec_bytes("PSYNC");
    assert("PSYNC".spec_bytes() =~= seq!['P' as u8, 'S' as u8, 'Y' as u8, 'N' as u8, 'C' as u8]);
}

/// The bytes of `px`.
proof fn lemma_spell_px()
    ensures
        "px".spec_bytes() == seq!['p' as u8, 'x' as u8],
{
    reveal_strlit("px");
    is_ascii_spec_bytes("px");
    assert("px".spec_bytes() =~= seq!['p' as u8, 'x' as u8]);
}

/// The bytes of `PX`.
proof fn lemma_spell_px_upper()
    ensures
        "PX".spec_bytes() == seq!['P' as u8, 'X' as u8],
{
    reveal_strlit("PX");
    is_ascii_spec_bytes("PX");
    assert("PX".spec_bytes() =~= seq!['P' as u8, 'X' as u8]);
}

/// The bytes of `replication`.
proof fn lemma_spell_replication()
    ensures
        "replication".spec_bytes() == seq![
            'r' as u8, 'e' as u8, 'p' as u8, 'l' as u8, 'i' as u8, 'c' as u8, 'a' as u8, 't' as
            u8, 'i' as u8, 'o' as u8, 'n' as u8,
        ],
{
    reveal_strlit("replication");
    is_ascii_spec_bytes("replication");
    assert("replication".spec_bytes() =~= seq![
        'r' as u8, 'e' as u8, 'p' as u8, 'l' as u8, 'i' as u8, 'c' as u8, 'a' as u8, 't' as u8,
        'i' as u8, 'o' as u8, 'n' as u8,
    ]);
}

/// The lengths of the command tokens.
proof fn lemma_token_lengths()
    ensures
        "command".spec_bytes().len() == 7,
        "ping".spec_bytes().len() == 4,
        "echo".spec_bytes().len() == 4,
        "get".spec_bytes().len() == 3,
        "set".spec_bytes().len() == 3,
        "info".spec_bytes().len() == 4,
        "replconf".spec_bytes().len() == 8,
        "psync".spec_bytes().len() == 5,
{
    lemma_spell_command();
    lemma_spell_ping();
    lemma_spell_echo();
    lemma_spell_get();
    lemma_spell_set();
    lemma_spell_info();
    lemma_spell_replconf();
    lemma_spell_psync();
}

/// The word `COMMAND` holds no CRLF and is read as the token `command`.
pub proof fn lemma_reads_as_command()
    ensures
        eq_ignore_case("COMMAND".spec_bytes(), "command".spec_bytes()),
        !has_crlf("COMMAND".spec_bytes()),
{
    reveal(eq_ignore_case);
    lemma_token_lengths();
    lemma_spell_command_upper();
    lemma_spell_command();
    assert forall|i: int| !crlf_at("COMMAND".spec_bytes(), i) by {}
}

/// The word `PING` holds no CRLF and is read as the token `ping`,
/// and as none of the tokens that are tried before it.
pub proof fn lemma_reads_as_ping()
    ensures
        !eq_ignore_case("PING".spec_bytes(), "command".spec_bytes()),
        eq_ignore_case("PING".spec_bytes(), "ping".spec_bytes()),
        !has_crlf("PING".spec_bytes()),
{
    reveal(eq_ignore_case);
    lemma_token_lengths();
    lemma_spell_ping_upper();
    lemma_spell_ping();
    assert forall|i: int| !crlf_at("PING".spec_bytes(), i) by {}
}

/// The word `ECHO` holds no CRLF and is read as the token `echo`,
/// and as none of the tokens that are tried before it.
pub proof fn lemma_reads_as_echo()
    ensures
        !eq_ignore_case("ECHO".spec_bytes(), "command".spec_bytes()),
        !eq_ignore_case("ECHO".spec_bytes(), "ping".spec_bytes()),
        eq_ignore_case("ECHO".spec_bytes(), "echo".spec_bytes()),
        !has_crlf("ECHO".spec_bytes()),
{
    reveal(eq_ignore_case);
    lemma_token_lengths();
    lemma_spell_echo_upper();
    lemma_spell_ping();
    assert(lower("ECHO".spec_bytes()[0]) != lower("ping".spec_bytes()[0]));
    lemma_spell_echo();
    assert forall|i: int| !crlf_at("ECHO".spec_bytes(), i) by {}
}

/// The word `GET` holds no CRLF and is read as the token `get`,
/// and as none of the tokens that are tried before it.
pub proof fn lemma_reads_as_get()
    ensures
        !eq_ignore_case("GET".spec_bytes(), "command".spec_bytes()),
        !eq_ignore_case("GET".spec_bytes(), "ping".spec_bytes()),
        !eq_ignore_case("GET".spec_bytes(), "echo".spec_bytes()),
        eq_ignore_case("GET".spec_bytes(), "get".spec_bytes()),
        !has_crlf("GET".spec_bytes()),
{
    reveal(eq_ignore_case);
    lemma_token_lengths();
    lemma_spell_get_upper();
    lemma_spell_get();
    assert forall|i: int| !crlf_at("GET".spec_bytes(), i) by {}
}

/// The word `SET` holds no CRLF and is read as the token `set`,
/// and as none of the tokens that are tried before it.
pub proof fn lemma_reads_as_set()
    ensures
        !eq_ignore_case("SET".spec_bytes(), "command".spec_bytes()),
        !eq_ignore_case("SET".spec_bytes(), "ping".spec_bytes()),
        !eq_ignore_case("SET".spec_bytes(), "echo".spec_bytes()),
        !eq_ignore_case("SET".spec_bytes(), "get".spec_bytes()),
        eq_ignore_case("SET".spec_bytes(), "set".spec_bytes()),
        !has_crlf("SET".spec_bytes()),
{
    reveal(eq_ignore_case);
    lemma_token_lengths();
    lemma_spell_set_upper();
    lemma_spell_get();
    assert(lower("SET".spec_bytes()[0]) != lower("get".spec_bytes()[0]));
    lemma_spell_set();
    assert forall|i: int| !crlf_at("SET".spec_bytes(), i) by {}
}

/// The word `INFO` holds no CRLF and is read as the token `info`,
/// and as none of the tokens that are tried before it.
pub proof fn lemma_reads_as_info()
    ensures
        !eq_ignore_case("INFO".spec_bytes(), "command".spec_bytes()),
        !eq_ignore_case("INFO".spec_bytes(), "ping".spec_bytes()),
        !eq_ignore_case("INFO".spec_bytes(), "echo".spec_bytes()),
        !eq_ignore_case("INFO".spec_bytes(), "get".spec_bytes()),
        !eq_ignore_case("INFO".spec_bytes(), "set".spec_bytes()),
        eq_ignore_case("INFO".spec_bytes(), "info".spec_bytes()),
        !has_crlf("INFO".spec_bytes()),
{
    reveal(eq_ignore_case);
    lemma_token_lengths();
    lemma_spell_info_upper();
    lemma_spell_ping();
    assert(lower("INFO".spec_bytes()[0]) != lower("ping".spec_bytes()[0]));
    lemma_spell_echo();
    assert(lower("INFO".spec_bytes()[0]) != lower("echo".spec_bytes()[0]));
    lemma_spell_info();
    assert forall|i: int| !crlf_at("INFO".spec_bytes(), i) by {}
}

/// The word `REPLCONF` holds no CRLF and is read as the token `replconf`,
/// and as none of the tokens that are tried before it.
pub proof fn lemma_reads_as_replconf()
    ensures
        !eq_ignore_case("REPLCONF".spec_bytes(), "command".spec_bytes()),
        !eq_ignore_case("REPLCONF".spec_bytes(), "ping".spec_bytes()),
        !eq_ignore_case("REPLCONF".spec_bytes(), "echo".spec_bytes()),
        !eq_ignore_case("REPLCONF".spec_bytes(), "get".spec_bytes()),
        !eq_ignore_case("REPLCONF".spec_bytes(), "set".spec_bytes()),
        !eq_ignore_case("REPLCONF".spec_bytes(), "info".spec_bytes()),
        eq_ignore_case("REPLCONF".spec_bytes(), "replconf".spec_bytes()),
        !has_crlf("REPLCONF".spec_bytes()),
{
    reveal(eq_ignore_case);
    lemma_token_lengths();
    lemma_spell_replconf_upper();
    lemma_spell_replconf();
    assert forall|i: int| !crlf_at("REPLCONF".spec_bytes(), i) by {}
}

/// The word `PSYNC` holds no CRLF and is read as the token `psync`,
/// and as none of the tokens that are tried before it.
pub proof fn lemma_reads_as_psync()
    ensures
        !eq_ignore_case("PSYNC".spec_bytes(), "command".spec_bytes()),
        !eq_ignore_case("PSYNC".spec_bytes(), "ping".spec_bytes()),
        !eq_ignore_case("PSYNC".spec_bytes(), "echo".spec_bytes()),
        !eq_ignore_case("PSYNC".spec_bytes(), "get".spec_bytes()),
        !eq_ignore_case("PSYNC".spec_bytes(), "set".spec_bytes()),
        !eq_ignore_case("PSYNC".spec_bytes(), "info".spec_bytes()),
        !eq_ignore_case("PSYNC".spec_bytes(), "replconf".spec_bytes()),
        eq_ignore_case("PSYNC".spec_bytes(), "psync".spec_bytes()),
        !has_crlf("PSYNC".spec_bytes()),
{
    reveal(eq_ignore_case);
    lemma_token_lengths();
    lemma_spell_psync_upper();
    lemma_spell_psync();
    assert forall|i: int| !crlf_at("PSYNC".spec_bytes(), i) by {}
}

/// The word `PX` holds no CRLF and is read as the option `px`.
pub proof fn lemma_reads_as_px()
    ensures
        eq_ignore_case("PX".spec_bytes(), "px".spec_bytes()),
        !has_crlf("PX".spec_bytes()),
{
    reveal(eq_ignore_case);
    lemma_spell_px();
    lemma_spell_px_upper();
    assert forall|i: int| !crlf_at("PX".spec_bytes(), i) by {}
}

/// The word `replication` holds no CRLF and is read as the section it names.
pub proof fn lemma_reads_as_replication()
    ensures
        eq_ignore_case("replication".spec_bytes(), "replication".spec_bytes()),
        !has_crlf("replication".spec_bytes()),
{
    reveal(eq_ignore_case);
    lemma_spell_replication();
    assert forall|i: int| !crlf_at("replication".spec_bytes(), i) by {}
}

} // verus!
