//! The configuration of a server: its port and its role in replication.

use vstd::prelude::*;
use crate::lines::str_eq;
use crate::decimal::{parse_u16, parse_unsigned};

verus! {

/// The port a server listens on when none is given.
pub const DEFAULT_PORT: u16 = 6379;

/// The role of a server in replication.
#[derive(Debug)]
pub enum Role {
    /// A primary, with its replication id (40 hexadecimal digits) and offset.
    Master { repl_id: String, repl_offset: usize },
    /// A replica of the primary at `host:port`.
    Servant { host: String, port: u16 },
}

/// The configuration of a server.
#[derive(Debug)]
pub struct Conf {
    pub port: u16,
    pub role: Role,
}

/// A role with its texts as sequences of characters.
pub enum RoleView {
    Master { repl_id: Seq<char>, repl_offset: usize },
    Servant { host: Seq<char>, port: u16 },
}

/// A configuration with its texts as sequences of characters.
pub struct ConfView {
    pub port: u16,
    pub role: RoleView,
}

impl View for Role {
    type V = RoleView;

    open spec fn view(&self) -> RoleView {
        match self {
            Role::Master { repl_id, repl_offset } => RoleView::Master {
                repl_id: repl_id@,
                repl_offset: *repl_offset,
            },
            Role::Servant { host, port } => RoleView::Servant { host: host@, port: *port },
        }
    }
}

impl View for Conf {
    type V = ConfView;

    open spec fn view(&self) -> ConfView {
        ConfView { port: self.port, role: self.role@ }
    }
}

impl Clone for Role {
    fn clone(&self) -> (r: Role)
        ensures
            r == *self,
    {
        match self {
            Role::Master { repl_id, repl_offset } => Role::Master {
                repl_id: repl_id.clone(),
                repl_offset: *repl_offset,
            },
            Role::Servant { host, port } => Role::Servant { host: host.clone(), port: *port },
        }
    }
}

impl Clone for Conf {
    fn clone(&self) -> (r: Conf)
        ensures
            r == *self,
    {
        Conf { port: self.port, role: self.role.clone() }
    }
}

/// Why a command line is refused.
#[derive(Debug, PartialEq, Eq, Clone, Copy, Structural)]
pub enum ConfError {
    /// `--port` is the last argument.
    PortNeedsNumber,
    /// `--replicaof` is the last argument.
    ReplicaofNeedsHost,
    /// `--replicaof` is followed by a host only.
    ReplicaofNeedsPort,
    /// A port is not an unsigned 16-bit number.
    InvalidPort,
    /// The argument is not an option of the server.
    UnknownOption,
}

impl ConfError {
    /// The text of the message that describes the error.
    pub open spec fn text(self) -> Seq<char> {
        match self {
            ConfError::PortNeedsNumber => "--port needs a port number"@,
            ConfError::ReplicaofNeedsHost => "--replicaof needs a host"@,
            ConfError::ReplicaofNeedsPort => "--replicaof needs a port"@,
            ConfError::InvalidPort => "invalid port number"@,
            ConfError::UnknownOption => "unknown option"@,
        }
    }

    /// The message that describes the error.
    pub fn message(&self) -> (r: &'static str)
        ensures
            r@ == self.text(),
    {
        match self {
            ConfError::PortNeedsNumber => "--port needs a port number",
            ConfError::ReplicaofNeedsHost => "--replicaof needs a host",
            ConfError::ReplicaofNeedsPort => "--replicaof needs a port",
            ConfError::InvalidPort => "invalid port number",
            ConfError::UnknownOption => "unknown option",
        }
    }
}

/// The replication id of a primary.
pub open spec fn repl_id() -> Seq<char> {
    "8371b4fb1155b71f4a04d3e1bc3e18c4a990aeeb"@
}

/// The configuration of a server started without options: a primary on the
/// default port, at offset 0.
pub open spec fn default_conf() -> ConfView {
    ConfView {
        port: DEFAULT_PORT,
        role: RoleView::Master { repl_id: repl_id(), repl_offset: 0 },
    }
}

/// The texts of `args`.
pub open spec fn args_view(args: Seq<String>) -> Seq<Seq<char>> {
    Seq::new(args.len(), |i: int| args[i]@)
}

/// The port that the text `s` writes, if it is an unsigned 16-bit number.
pub open spec fn parse_port(s: Seq<char>) -> Option<u16> {
    match parse_unsigned(vstd::utf8::encode_utf8(s), u16::MAX as nat) {
        Some(p) => Some(p as u16),
        None => None,
    }
}

/// The configuration that the options `args[i..]` make of `conf`, read from
/// left to right: `--port <port>` sets the port, `--replicaof <host> <port>`
/// makes the server a replica. A later option overrides an earlier one.
pub open spec fn parse_options(args: Seq<Seq<char>>, i: int, conf: ConfView) -> Result<
    ConfView,
    ConfError,
>
    decreases args.len() - i,
{
    if i < 0 || i >= args.len() {
        Ok(conf)
    } else if args[i] == "--port"@ {
        if i + 1 >= args.len() {
            Err(ConfError::PortNeedsNumber)
        } else {
            match parse_port(args[i + 1]) {
                None => Err(ConfError::InvalidPort),
                Some(port) => parse_options(args, i + 2, ConfView { port, ..conf }),
            }
        }
    } else if args[i] == "--replicaof"@ {
        if i + 1 >= args.len() {
            Err(ConfError::ReplicaofNeedsHost)
        } else if i + 2 >= args.len() {
            Err(ConfError::ReplicaofNeedsPort)
        } else {
            match parse_port(args[i + 2]) {
                None => Err(ConfError::InvalidPort),
                Some(port) => parse_options(
                    args,
                    i + 3,
                    ConfView { role: RoleView::Servant { host: args[i + 1], port }, ..conf },
                ),
            }
        }
    } else {
        Err(ConfError::UnknownOption)
    }
}

/// The configuration that a command line asks for. `args[0]` is the name of
/// the program and is passed over.
pub open spec fn spec_from_args(args: Seq<Seq<char>>) -> Result<ConfView, ConfError> {
    parse_options(args, 1, default_conf())
}

/// The port that the text `s` writes.
fn port_of(s: &str) -> (r: Option<u16>)
    ensures
        r == parse_port(s@),
{
    parse_u16(s.as_bytes())
}

/// The configuration that the command line `args` asks for.
pub fn from_args(args: &[String]) -> (r: Result<Conf, ConfError>)
    ensures
        match r {
            Ok(conf) => spec_from_args(args_view(args@)) == Ok::<ConfView, ConfError>(conf@),
            Err(e) => spec_from_args(args_view(args@)) == Err::<ConfView, ConfError>(e),
        },
{
    let ghost texts = args_view(args@);
    let mut port: u16 = DEFAULT_PORT;
    let mut role: Role = Role::Master {
        repl_id: "8371b4fb1155b71f4a04d3e1bc3e18c4a990aeeb".to_owned(),
        repl_offset: 0,
    };
    let n: usize = args.len();
    let mut i: usize = 1;
    while i < n
        invariant
            1 <= i,
            n == args@.len(),
            texts == args_view(args@),
            spec_from_args(texts) == parse_options(texts, i as int, ConfView { port, role: role@ }),
        decreases n - i,
    {
        let opt: &str = args[i].as_str();
        assert(opt@ == texts[i as int]);
        if str_eq(opt, "--port") {
            if i + 1 >= n {
                return Err(ConfError::PortNeedsNumber);
            }
            assert(args@[i + 1]@ == texts[i + 1]);
            match port_of(args[i + 1].as_str()) {
                None => {
                    return Err(ConfError::InvalidPort);
                },
                Some(p) => {
                    port = p;
                },
            }
            i = i + 2;
        } else if str_eq(opt, "--replicaof") {
            if i + 1 >= n {
                return Err(ConfError::ReplicaofNeedsHost);
            }
            if i + 2 >= n {
                return Err(ConfError::ReplicaofNeedsPort);
            }
            assert(args@[i + 1]@ == texts[i + 1]);
            assert(args@[i + 2]@ == texts[i + 2]);
            match port_of(args[i + 2].as_str()) {
                None => {
                    return Err(ConfError::InvalidPort);
                },
                Some(p) => {
                    role = Role::Servant { host: args[i + 1].clone(), port: p };
                },
            }
            i = i + 3;
        } else {
            return Err(ConfError::UnknownOption);
        }
    }
    Ok(Conf { port, role })
}

impl Conf {
    /// Whether the server is a primary.
    pub fn is_master(&self) -> (r: bool)
        ensures
            r == (self@.role is Master),
    {
        match self.role {
            Role::Master { .. } => true,
            Role::Servant { .. } => false,
        }
    }
}

} // verus!
