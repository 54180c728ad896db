use redis_lite::replica::{
    is_full_resync, snapshot_len, starts_with, Handshake, HandshakeError, HandshakeState, Step,
};

const PORT: u16 = 6380;
const ID: &str = "8371b4fb1155b71f4a04d3e1bc3e18c4a990aeeb";

fn sent(step: Result<Step, HandshakeError>) -> Vec<u8> {
    match step {
        Ok(Step::Send(frame)) => frame.as_bytes().to_vec(),
        Ok(Step::Wait) => panic!("a frame was expected, the handshake waits"),
        Ok(Step::Streaming(_)) => panic!("a frame was expected, the handshake is over"),
        Err(e) => panic!("a frame was expected, the handshake failed: {}", e.message()),
    }
}

fn waits(step: Result<Step, HandshakeError>) {
    assert!(matches!(step, Ok(Step::Wait)));
}

fn streams(step: Result<Step, HandshakeError>) -> Vec<u8> {
    match step {
        Ok(Step::Streaming(rest)) => rest,
        _ => panic!("the end of the handshake was expected"),
    }
}

fn fails(step: Result<Step, HandshakeError>) -> HandshakeError {
    match step {
        Err(e) => e,
        Ok(_) => panic!("a failure was expected"),
    }
}

fn started() -> Handshake {
    let mut h = Handshake::new(PORT);
    h.start().unwrap();
    h
}

fn after_psync() -> Handshake {
    let mut h = started();
    sent(h.receive(b"+PONG\r\n"));
    sent(h.receive(b"+OK\r\n"));
    sent(h.receive(b"+OK\r\n"));
    assert_eq!(h.state(), HandshakeState::PsyncSent);
    h
}

#[test]
fn handshake_starts_with_ping() {
    let mut h = Handshake::new(PORT);
    assert_eq!(h.state(), HandshakeState::Connected);
    let ping = h.start().unwrap();
    assert_eq!(ping.as_bytes(), b"*1\r\n$4\r\nPING\r\n");
    assert_eq!(h.state(), HandshakeState::PingSent);
    assert!(h.start().is_none());
    assert_eq!(h.state(), HandshakeState::PingSent);
}

#[test]
fn handshake_goes_through_its_states_in_order() {
    let mut h = started();
    assert_eq!(
        sent(h.receive(b"+PONG\r\n")),
        b"*3\r\n$8\r\nREPLCONF\r\n$14\r\nlistening-port\r\n$4\r\n6380\r\n"
    );
    assert_eq!(h.state(), HandshakeState::ListeningPortSent);
    assert_eq!(
        sent(h.receive(b"+OK\r\n")),
        b"*3\r\n$8\r\nREPLCONF\r\n$4\r\ncapa\r\n$6\r\npsync2\r\n"
    );
    assert_eq!(h.state(), HandshakeState::CapaSent);
    assert_eq!(sent(h.receive(b"+OK\r\n")), b"*3\r\n$5\r\nPSYNC\r\n$1\r\n?\r\n$2\r\n-1\r\n");
    assert_eq!(h.state(), HandshakeState::PsyncSent);
    waits(h.receive(format!("+FULLRESYNC {ID} 0\r\n").as_bytes()));
    assert_eq!(h.state(), HandshakeState::PsyncSent);
    waits(h.receive(b"$5\r\n"));
    assert_eq!(h.state(), HandshakeState::PsyncSent);
    assert_eq!(streams(h.receive(b"REDIS")), b"");
    assert_eq!(h.state(), HandshakeState::Streaming);
}

#[test]
fn snapshot_has_no_terminator() {
    let mut h = after_psync();
    let input = format!("+FULLRESYNC {ID} 0\r\n$5\r\nREDIS*1\r\n$4\r\nPING\r\n");
    assert_eq!(streams(h.receive(input.as_bytes())), b"*1\r\n$4\r\nPING\r\n");
    assert_eq!(h.state(), HandshakeState::Streaming);
}

#[test]
fn streaming_passes_input_through() {
    let mut h = after_psync();
    streams(h.receive(format!("+FULLRESYNC {ID} 0\r\n$0\r\n").as_bytes()));
    assert_eq!(streams(h.receive(b"*1\r\n$4\r\nPI")), b"*1\r\n$4\r\nPI");
    assert_eq!(streams(h.receive(b"")), b"");
    assert_eq!(h.state(), HandshakeState::Streaming);
}

#[test]
fn replies_may_arrive_in_pieces() {
    let mut h = started();
    waits(h.receive(b"+PO"));
    waits(h.receive(b""));
    waits(h.receive(b"NG\r"));
    sent(h.receive(b"\n"));
    waits(h.receive(b"+"));
    sent(h.receive(b"OK\r\n"));
    waits(h.receive(b"+OK\r"));
    sent(h.receive(b"\n"));
    let mut input = format!("+FULLRESYNC {ID} 0\r\n$11\r\n").into_bytes();
    let snapshot_ends = input.len() + 11;
    input.extend_from_slice(b"REDIS0011\xfa\xff*1\r\n");
    let mut rest = Vec::new();
    for (i, b) in input.iter().enumerate() {
        match h.receive(&[*b]) {
            Ok(Step::Wait) => assert!(i + 1 < snapshot_ends),
            Ok(Step::Streaming(more)) => {
                assert!(i + 1 >= snapshot_ends);
                rest.extend(more);
            }
            _ => panic!("the handshake neither waits nor streams"),
        }
    }
    assert_eq!(h.state(), HandshakeState::Streaming);
    assert_eq!(rest, b"*1\r\n");
}

#[test]
fn snapshot_may_hold_any_bytes() {
    let mut h = after_psync();
    waits(h.receive(format!("+FULLRESYNC {ID} 0\r\n$6\r\n\r\n").as_bytes()));
    waits(h.receive(b"\r\n\xff"));
    assert_eq!(streams(h.receive(b"\x00+OK")), b"+OK");
}

#[test]
fn input_before_ping_fails() {
    let mut h = Handshake::new(PORT);
    assert_eq!(fails(h.receive(b"+PONG\r\n")), HandshakeError::NotStarted);
    assert_eq!(h.state(), HandshakeState::Failed);
    assert!(h.start().is_none());
}

#[test]
fn anything_but_pong_fails() {
    for reply in ["+OK\r\n", "+PONG\r\n+OK\r\n", "+PONG\n", "-ERR\r\n", "+pong\r\n", "PONG\r\n"] {
        let mut h = started();
        assert_eq!(fails(h.receive(reply.as_bytes())), HandshakeError::BadPong, "{reply:?}");
        assert_eq!(h.state(), HandshakeState::Failed);
    }
}

#[test]
fn anything_but_ok_fails() {
    let mut h = started();
    sent(h.receive(b"+PONG\r\n"));
    assert_eq!(fails(h.receive(b"+PONG\r\n")), HandshakeError::BadListeningPort);
    let mut h = started();
    sent(h.receive(b"+PONG\r\n"));
    sent(h.receive(b"+OK\r\n"));
    assert_eq!(fails(h.receive(b"-ERR unknown\r\n")), HandshakeError::BadCapa);
    assert_eq!(h.state(), HandshakeState::Failed);
}

#[test]
fn a_failure_is_final() {
    let mut h = started();
    assert_eq!(fails(h.receive(b"nope")), HandshakeError::BadPong);
    assert_eq!(fails(h.receive(b"+PONG\r\n")), HandshakeError::AlreadyFailed);
    assert_eq!(fails(h.receive(b"")), HandshakeError::AlreadyFailed);
    assert_eq!(h.state(), HandshakeState::Failed);
}

#[test]
fn full_resync_line_must_be_well_formed() {
    for line in [
        "+OK\r\n",
        "+FULLRESYNC\r\n",
        "+FULLRESYNC  0\r\n",
        "+FULLRESYNC id\r\n",
        "+FULLRESYNC id \r\n",
        "+FULLRESYNC id x\r\n",
        "+FULLRESYNC id 0 \r\n",
        "+FULLRESYNC id 0 0\r\n",
        "+FULLRESYNC id -1\r\n",
        "+fullresync id 0\r\n",
        "+CONTINUE\r\n",
        "\r\n",
    ] {
        let mut h = after_psync();
        assert_eq!(fails(h.receive(line.as_bytes())), HandshakeError::BadFullResync, "{line:?}");
        assert_eq!(h.state(), HandshakeState::Failed);
    }
}

#[test]
fn snapshot_header_must_announce_a_length() {
    for header in ["+OK\r\n", "$\r\n", "$-1\r\n", "$x\r\n", "5\r\n", "\r\n", "$5 \r\n"] {
        let mut h = after_psync();
        let input = format!("+FULLRESYNC {ID} 0\r\n{header}");
        assert_eq!(
            fails(h.receive(input.as_bytes())),
            HandshakeError::BadSnapshotHeader,
            "{header:?}"
        );
        assert_eq!(h.state(), HandshakeState::Failed);
    }
}

#[test]
fn is_full_resync_reads_id_and_offset() {
    assert!(is_full_resync(format!("+FULLRESYNC {ID} 0").as_bytes()));
    assert!(is_full_resync(b"+FULLRESYNC x 18446744073709551615"));
    assert!(!is_full_resync(b"+FULLRESYNC x 18446744073709551616"));
    assert!(!is_full_resync(b"+FULLRESYNC x"));
    assert!(!is_full_resync(b"+FULLRESYN"));
    assert!(!is_full_resync(b""));
}

#[test]
fn snapshot_len_reads_the_header() {
    assert_eq!(snapshot_len(b"$88"), Some(88));
    assert_eq!(snapshot_len(b"$0"), Some(0));
    assert_eq!(snapshot_len(b"$"), None);
    assert_eq!(snapshot_len(b"88"), None);
    assert_eq!(snapshot_len(b""), None);
}

#[test]
fn starts_with_compares_the_beginning() {
    assert!(starts_with(b"+FULLRESYNC x", b"+FULLRESYNC "));
    assert!(starts_with(b"abc", b""));
    assert!(starts_with(b"abc", b"abc"));
    assert!(!starts_with(b"ab", b"abc"));
    assert!(!starts_with(b"abd", b"abc"));
}

#[test]
fn handshake_errors_have_messages() {
    assert_eq!(HandshakeError::NotStarted.message(), "handshake not started");
    assert_eq!(HandshakeError::BadPong.message(), "bad pong handshake");
    assert_eq!(
        HandshakeError::BadListeningPort.message(),
        "bad REPLCONF listening-port handshake"
    );
    assert_eq!(HandshakeError::BadCapa.message(), "bad capa handshake");
    assert_eq!(HandshakeError::BadFullResync.message(), "bad PSYNC handshake");
    assert_eq!(HandshakeError::BadSnapshotHeader.message(), "bad snapshot header");
    assert_eq!(HandshakeError::AlreadyFailed.message(), "handshake failed");
}
