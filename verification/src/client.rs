//! The decisions of a session: what each command of a connection calls for,
//! and what is replied.
//!
//! A session owns no socket and no store. For each command it says what is
//! to be done; the caller does it and, where the store is involved, comes back
//! for the reply.

use vstd::prelude::*;
use vstd::string::StringSliceAdditionalSpecFns;
use vstd::utf8::encode_utf8;
use crate::lines::{crlf, push_crlf};
use crate::decimal::{decimal, push_decimal};
use crate::resp::{bulk, error_frame, full_resync_line, push_bulk, snapshot_header, Resp};
use crate::commands::{Command, CommandView, ParseError};
use crate::conf::{Conf, Role, RoleView};
use crate::store::Origin;

verus! {

/// One connection, as far as decisions depend on it.
pub struct Client {
    /// The configuration of the server.
    pub conf: Conf,
    /// Whether the peer is the primary that this server replicates.
    pub replica: bool,
}

/// What a command calls for.
pub enum Action<'a> {
    /// Write this frame to the peer.
    Reply(Resp),
    /// Look the key up in the store; `handle_get` makes the reply.
    Get(&'a str),
    /// Bind the key in the store; `handle_set` makes the reply.
    SetKey(&'a str, &'a str, Option<u64>, Origin),
    /// The peer asks to become a replica: `handle_master` makes the reply,
    /// and the session ends there.
    Resync,
    /// Nothing is replied.
    Nothing,
}

/// An action with its frame and texts as sequences of bytes.
pub enum ActionView {
    Reply(Seq<u8>),
    Get(Seq<u8>),
    SetKey(Seq<u8>, Seq<u8>, Option<u64>, Origin),
    Resync,
    Nothing,
}

impl<'a> View for Action<'a> {
    type V = ActionView;

    open spec fn view(&self) -> ActionView {
        match *self {
            Action::Reply(frame) => ActionView::Reply(frame@),
            Action::Get(key) => ActionView::Get(key.spec_bytes()),
            Action::SetKey(key, value, ttl, origin) => ActionView::SetKey(
                key.spec_bytes(),
                value.spec_bytes(),
                ttl,
                origin,
            ),
            Action::Resync => ActionView::Resync,
            Action::Nothing => ActionView::Nothing,
        }
    }
}

/// What is parsed from a connection: a command, or the error that ends the
/// read.
pub open spec fn item_view<'a>(item: Result<Command<'a>, ParseError>) -> Result<
    CommandView,
    ParseError,
> {
    match item {
        Ok(command) => Ok(command@),
        Err(e) => Err(e),
    }
}

/// Where the mutations of a connection come from.
pub open spec fn origin_of(replica: bool) -> Origin {
    if replica {
        Origin::Primary
    } else {
        Origin::Client
    }
}

/// The text of the replication section of `INFO`, each line ended by CRLF.
pub open spec fn info_text(role: RoleView) -> Seq<u8> {
    match role {
        RoleView::Master { repl_id, repl_offset } => "role:master\r\nmaster_replid:".spec_bytes()
            + encode_utf8(repl_id) + "\r\nmaster_repl_offset:".spec_bytes() + decimal(
            repl_offset as nat,
        ) + crlf(),
        RoleView::Servant { host, port } => "role:slave\r\nmaster_host:".spec_bytes() + encode_utf8(
            host,
        ) + "\r\nmaster_port:".spec_bytes() + decimal(port as nat) + crlf(),
    }
}

/// What the item `item` calls for on a connection of a server in role `role`.
///
/// `COMMAND` and `REPLCONF` are acknowledged, `PING` is answered, `ECHO`
/// gets its text back, `INFO` the replication section. `GET` and `SET` go to
/// the store. `PSYNC` starts a resynchronisation. An inline error is passed
/// over. What could not be parsed is reported to the peer.
pub open spec fn spec_handle(
    replica: bool,
    role: RoleView,
    item: Result<CommandView, ParseError>,
) -> ActionView {
    match item {
        Ok(CommandView::Commands) => ActionView::Reply("+OK\r\n".spec_bytes()),
        Ok(CommandView::Ping) => ActionView::Reply("+PONG\r\n".spec_bytes()),
        Ok(CommandView::Echo(text)) => ActionView::Reply(bulk(text)),
        Ok(CommandView::Get(key)) => ActionView::Get(key),
        Ok(CommandView::SetKey(key, value, ttl)) => ActionView::SetKey(
            key,
            value,
            ttl,
            origin_of(replica),
        ),
        Ok(CommandView::Info(_)) => ActionView::Reply(bulk(info_text(role))),
        Ok(CommandView::Replconf) => ActionView::Reply("+OK\r\n".spec_bytes()),
        Ok(CommandView::Psync(_, _)) => ActionView::Resync,
        Ok(CommandView::Error(_)) => ActionView::Nothing,
        Err(e) => ActionView::Reply(error_frame(encode_utf8(e.text()))),
    }
}

/// The reply to `GET`: the value as a bulk string, or nil.
pub open spec fn get_reply(value: Option<Seq<u8>>) -> Seq<u8> {
    match value {
        Some(value) => bulk(value),
        None => "$-1\r\n".spec_bytes(),
    }
}

/// The reply to `PSYNC`: a primary sends the `+FULLRESYNC` line, the length
/// header of the snapshot and the snapshot's bytes, with nothing after them.
/// Any other server refuses.
pub open spec fn master_reply(role: RoleView, snapshot: Seq<u8>) -> Result<Seq<u8>, Seq<u8>> {
    match role {
        RoleView::Master { repl_id, repl_offset } => Ok(
            full_resync_line(encode_utf8(repl_id), repl_offset as nat) + snapshot_header(
                snapshot.len(),
            ) + snapshot,
        ),
        RoleView::Servant { .. } => Err(error_frame("I'm not a master".spec_bytes())),
    }
}

impl Client {
    /// The session of a connection: `replica` tells whether the peer is the
    /// primary that this server replicates.
    pub fn new(conf: Conf, replica: bool) -> (client: Client)
        ensures
            client.conf == conf,
            client.replica == replica,
    {
        Client { conf, replica }
    }

    /// What `item`, the next thing parsed from the connection, calls for.
    pub fn handle<'a>(&self, item: Result<Command<'a>, ParseError>) -> (action: Action<'a>)
        ensures
            action@ == spec_handle(self.replica, self.conf@.role, item_view(item)),
    {
        match item {
            Ok(Command::Commands) => Action::Reply(Resp::ok()),
            Ok(Command::Ping) => Action::Reply(Resp::pong()),
            Ok(Command::Echo(msg)) => Action::Reply(Resp::from(msg)),
            Ok(Command::Get(key)) => Action::Get(key),
            Ok(Command::SetKey(key, value, timeout)) => Action::SetKey(
                key,
                value,
                timeout,
                self.origin(),
            ),
            Ok(Command::Info(_)) => Action::Reply(self.handle_info()),
            Ok(Command::Replconf) => Action::Reply(Resp::ok()),
            Ok(Command::Psync(_, _)) => Action::Resync,
            Ok(Command::Error(_)) => Action::Nothing,
            Err(e) => Action::Reply(Resp::error(e.message())),
        }
    }

    /// Where the mutations of this connection come from.
    pub fn origin(&self) -> (origin: Origin)
        ensures
            origin == origin_of(self.replica),
    {
        if self.replica {
            Origin::Primary
        } else {
            Origin::Client
        }
    }

    /// The reply to `INFO`: the replication section as a bulk string.
    pub fn handle_info(&self) -> (r: Resp)
        ensures
            r@ == bulk(info_text(self.conf@.role)),
    {
        let mut text: Vec<u8> = Vec::new();
        match &self.conf.role {
            Role::Master { repl_id, repl_offset } => {
                text.extend_from_slice("role:master\r\nmaster_replid:".as_bytes());
                text.extend_from_slice(repl_id.as_str().as_bytes());
                text.extend_from_slice("\r\nmaster_repl_offset:".as_bytes());
                push_decimal(&mut text, *repl_offset as u64);
            },
            Role::Servant { host, port } => {
                text.extend_from_slice("role:slave\r\nmaster_host:".as_bytes());
                text.extend_from_slice(host.as_str().as_bytes());
                text.extend_from_slice("\r\nmaster_port:".as_bytes());
                push_decimal(&mut text, *port as u64);
            },
        }
        push_crlf(&mut text);
        assert(text@ =~= info_text(self.conf@.role));
        let mut v: Vec<u8> = Vec::new();
        push_bulk(&mut v, text.as_slice());
        Resp::Array(v)
    }

    /// The reply to `GET`, once the store has looked the key up.
    pub fn handle_get(&self, value: Option<&str>) -> (r: Resp)
        ensures
            r@ == get_reply(
                match value {
                    Some(value) => Some(value.spec_bytes()),
                    None => None,
                },
            ),
    {
        match value {
            Some(value) => Resp::from(value),
            None => Resp::nil(),
        }
    }

    /// The reply to `SET`, once the store has bound the key: `+OK`, unless
    /// the command came from the primary, which is not answered.
    pub fn handle_set(&self) -> (r: Option<Resp>)
        ensures
            self.replica ==> r is None,
            !self.replica ==> (r matches Some(frame) && frame@ == "+OK\r\n".spec_bytes()),
    {
        if !self.replica {
            Some(Resp::ok())
        } else {
            None
        }
    }

    /// The reply to `PSYNC`, given the snapshot of the data set: what a
    /// primary sends before it registers the connection as a replica, or the
    /// error frame with which any other server refuses.
    pub fn handle_master(&self, snapshot: &[u8]) -> (r: Result<Vec<u8>, Resp>)
        ensures
            match r {
                Ok(reply) => master_reply(self.conf@.role, snapshot@) == Ok::<Seq<u8>, Seq<u8>>(
                    reply@,
                ),
                Err(refusal) => master_reply(self.conf@.role, snapshot@) == Err::<
                    Seq<u8>,
                    Seq<u8>,
                >(refusal@),
            },
    {
        match &self.conf.role {
            Role::Master { repl_id, repl_offset } => {
                let line = Resp::full_resync(repl_id.as_str(), *repl_offset);
                let header = Resp::snapshot_header(snapshot.len());
                let mut reply: Vec<u8> = Vec::new();
                reply.extend_from_slice(line.as_bytes());
                reply.extend_from_slice(header.as_bytes());
                reply.extend_from_slice(snapshot);
                assert(reply@ =~= line@ + header@ + snapshot@);
                Ok(reply)
            },
            Role::Servant { .. } => Err(Resp::error("I'm not a master")),
        }
    }
}

} // verus!
