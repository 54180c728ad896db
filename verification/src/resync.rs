//! The two sides of a full resynchronisation fit together: a primary reads
//! what the handshake of a replica writes, and the handshake reads what a
//! primary replies.

use vstd::prelude::*;
use vstd::string::{is_ascii_spec_bytes, StringSliceAdditionalSpecFns};
use crate::lines::{crlf, crlf_at, has_crlf, lemma_split_once_terminated, split_once};
use crate::decimal::{
    decimal, is_digit, lemma_decimal_value, lemma_digits_no_crlf, lemma_parse_decimal,
};
use crate::resp::{array, full_resync_line, snapshot_header};
use crate::commands::{spec_parse_cmd, CommandView, ParseError};
use crate::keywords::lemma_reads_as_replconf;
use crate::roundtrip::{lemma_parse_array, no_crlf, thm_encode_then_parse};
use crate::replica::{
    capa_frame, is_first_space, listening_port_frame, parse_full_resync, ping_frame, psync_frame,
    spec_receive, HandshakeError, HandshakeState, HandshakeView, StepView, Transfer,
};

verus! {

/// A replication id that a `+FULLRESYNC` line can carry: not empty, and
/// without space or CRLF.
pub open spec fn is_replication_id(id: Seq<u8>) -> bool {
    id.len() > 0 && !has_crlf(id) && forall|i: int| 0 <= i < id.len() ==> id[i] != ' ' as u8
}

/// The arguments of the handshake's `REPLCONF` hold no CRLF.
proof fn lemma_handshake_words()
    ensures
        !has_crlf("listening-port".spec_bytes()),
        !has_crlf("capa".spec_bytes()),
        !has_crlf("psync2".spec_bytes()),
{
    reveal_strlit("listening-port");
    is_ascii_spec_bytes("listening-port");
    reveal_strlit("capa");
    is_ascii_spec_bytes("capa");
    reveal_strlit("psync2");
    is_ascii_spec_bytes("psync2");
    assert forall|i: int| !crlf_at("listening-port".spec_bytes(), i) by {}
    assert forall|i: int| !crlf_at("capa".spec_bytes(), i) by {}
    assert forall|i: int| !crlf_at("psync2".spec_bytes(), i) by {}
}

/// A `REPLCONF` with two arguments is read as `REPLCONF`.
proof fn lemma_parse_replconf(first: Seq<u8>, second: Seq<u8>, tail: Seq<u8>)
    requires
        !has_crlf(first),
        !has_crlf(second),
    ensures
        spec_parse_cmd(array(seq!["REPLCONF".spec_bytes(), first, second]) + tail)
            == Ok::<(CommandView, Seq<u8>), ParseError>((CommandView::Replconf, tail)),
{
    lemma_reads_as_replconf();
    let items = seq!["REPLCONF".spec_bytes(), first, second];
    assert(no_crlf(items));
    lemma_parse_array(items, tail);
}

/// A primary reads what the handshake writes: `PING` as `PING`, the two
/// `REPLCONF` as `REPLCONF`, and `PSYNC ? -1` as the request for a full
/// resynchronisation, each whatever follows it.
pub proof fn thm_primary_reads_the_handshake(port: u16, tail: Seq<u8>)
    ensures
        spec_parse_cmd(ping_frame() + tail) == Ok::<(CommandView, Seq<u8>), ParseError>(
            (CommandView::Ping, tail),
        ),
        spec_parse_cmd(listening_port_frame(port) + tail) == Ok::<
            (CommandView, Seq<u8>),
            ParseError,
        >((CommandView::Replconf, tail)),
        spec_parse_cmd(capa_frame() + tail) == Ok::<(CommandView, Seq<u8>), ParseError>(
            (CommandView::Replconf, tail),
        ),
        spec_parse_cmd(psync_frame() + tail) == Ok::<(CommandView, Seq<u8>), ParseError>(
            (CommandView::Psync(None, -1i32), tail),
        ),
{
    thm_encode_then_parse(CommandView::Ping, tail);
    lemma_handshake_words();
    lemma_decimal_value(port as nat);
    lemma_digits_no_crlf(decimal(port as nat));
    lemma_parse_replconf("listening-port".spec_bytes(), decimal(port as nat), tail);
    lemma_parse_replconf("capa".spec_bytes(), "psync2".spec_bytes(), tail);
    thm_encode_then_parse(CommandView::Psync(None, -1i32), tail);
}

/// The `+FULLRESYNC` line of a primary is read back as its id and offset.
pub proof fn lemma_full_resync_line(id: Seq<u8>, offset: u64, tail: Seq<u8>)
    requires
        is_replication_id(id),
    ensures
        split_once(full_resync_line(id, offset as nat) + tail) == Some(
            ("+FULLRESYNC ".spec_bytes() + id + seq![' ' as u8] + decimal(offset as nat), tail),
        ),
        parse_full_resync(
            "+FULLRESYNC ".spec_bytes() + id + seq![' ' as u8] + decimal(offset as nat),
        ) == Some((id, offset)),
{
    let prefix = "+FULLRESYNC ".spec_bytes();
    reveal_strlit("+FULLRESYNC ");
    is_ascii_spec_bytes("+FULLRESYNC ");
    assert(prefix.len() == 12);
    let number = decimal(offset as nat);
    lemma_decimal_value(offset as nat);
    lemma_parse_decimal(offset as nat, u64::MAX as nat);
    let line = prefix + id + seq![' ' as u8] + number;
    assert forall|i: int| !crlf_at(line, i) by {
        if crlf_at(line, i) {
            if i < 12 {
                assert(line[i] == prefix[i]);
            } else if i < 12 + id.len() {
                assert(line[i] == id[i - 12]);
                if i + 1 < 12 + id.len() {
                    assert(line[i + 1] == id[i + 1 - 12]);
                    assert(crlf_at(id, i - 12));
                } else {
                    assert(line[i + 1] == ' ' as u8);
                }
            } else if i == 12 + id.len() {
                assert(line[i] == ' ' as u8);
            } else {
                assert(line[i] == number[i - 13 - id.len()]);
                assert(is_digit(number[i - 13 - id.len()]));
            }
        }
    }
    assert(full_resync_line(id, offset as nat) + tail =~= line + crlf() + tail);
    lemma_split_once_terminated(line, tail);
    assert(prefix.is_prefix_of(line)) by {
        assert(line.subrange(0, 12) =~= prefix);
    }
    let rest = line.skip(12);
    assert(rest =~= id + seq![' ' as u8] + number);
    let at = id.len() as int;
    assert(is_first_space(rest, at)) by {
        assert(rest[at] == ' ' as u8);
        assert forall|j: int| 0 <= j < at implies rest[j] != ' ' as u8 by {
            assert(rest[j] == id[j]);
        }
    }
    let chosen = choose|i: int| is_first_space(rest, i);
    if chosen < at {
        assert(rest[chosen] != ' ' as u8);
    }
    if at < chosen {
        assert(rest[at] != ' ' as u8);
    }
    assert(rest.skip(at + 1) =~= number);
    assert(rest.subrange(0, at) =~= id);
}

/// The handshake reads what a primary replies to `PSYNC`: fed the
/// `+FULLRESYNC` line, the header of the snapshot and the snapshot, it ends in
/// `Streaming`, and what the primary sent after the snapshot is handed out as
/// the beginning of the command stream.
pub proof fn thm_handshake_reads_the_primary(
    port: u16,
    id: Seq<u8>,
    offset: u64,
    snapshot: Seq<u8>,
    stream: Seq<u8>,
)
    requires
        is_replication_id(id),
        snapshot.len() <= u64::MAX,
    ensures
        spec_receive(
            HandshakeView {
                state: HandshakeState::PsyncSent,
                port,
                transfer: Transfer::Line,
                pending: Seq::empty(),
            },
            full_resync_line(id, offset as nat) + snapshot_header(snapshot.len()) + snapshot
                + stream,
        ) == (
            HandshakeView {
                state: HandshakeState::Streaming,
                port,
                transfer: Transfer::Body(0),
                pending: Seq::empty(),
            },
            Ok::<StepView, HandshakeError>(StepView::Streaming(stream)),
        ),
{
    let h = HandshakeView {
        state: HandshakeState::PsyncSent,
        port,
        transfer: Transfer::Line,
        pending: Seq::empty(),
    };
    let chunk = full_resync_line(id, offset as nat) + snapshot_header(snapshot.len()) + snapshot
        + stream;
    let after_line = snapshot_header(snapshot.len()) + snapshot + stream;
    let body = snapshot + stream;
    assert(h.pending + chunk =~= full_resync_line(id, offset as nat) + after_line);
    lemma_full_resync_line(id, offset, after_line);
    let header = seq!['$' as u8] + decimal(snapshot.len());
    lemma_decimal_value(snapshot.len());
    assert forall|i: int| !crlf_at(header, i) by {
        if crlf_at(header, i) {
            if i > 0 {
                assert(is_digit(decimal(snapshot.len())[i - 1]));
            }
        }
    }
    assert(after_line =~= header + crlf() + body);
    lemma_split_once_terminated(header, body);
    assert(header.skip(1) =~= decimal(snapshot.len()));
    lemma_parse_decimal(snapshot.len(), u64::MAX as nat);
    assert(body.skip(snapshot.len() as int) =~= stream);
}

} // verus!
