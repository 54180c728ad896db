//! A small Redis-protocol key-value server core: wire codec, command parser,
//! keyspace with lazy expiry, and primary/replica replication.
//!
//! The library decides and computes; it owns no socket, no clock and no task.
//! Whoever runs it reads and writes the connections and hands in the time.
//!
//! - [`lines`], [`decimal`], [`resp`]: the bytes of the wire protocol.
//! - [`commands`], [`decoder`]: from the reads of a connection to commands.
//! - [`store`]: the keyspace and the registry of replicas.
//! - [`client`]: what each command of a connection calls for.
//! - [`replica`]: the handshake of a replica with its primary.
//! - [`conf`]: the configuration of a server.
//! - [`keywords`], [`roundtrip`], [`history`], [`resync`]: what is proved of
//!   all of these together.

pub mod lines;
pub mod decimal;
pub mod resp;
pub mod commands;
pub mod decoder;
pub mod store;
pub mod client;
pub mod replica;
pub mod conf;
pub mod keywords;
pub mod roundtrip;
pub mod history;
pub mod resync;
