//! Core of an HTTP/1.x server connection: an incremental message parser,
//! framed body writers and readers, a transport lease, and the
//! per-connection state machine that ties them together.
//!
//! The engine itself does no I/O: inbound bytes arrive through
//! [`conn::Conn::on_data`], and outbound bytes accumulate in a
//! [`transport::Transport`] queue that the surrounding reactor drains.

pub mod ascii;
pub mod conn;
pub mod date;
pub mod error;
pub mod headers;
pub mod message;
pub mod method;
pub mod parse;
pub mod parse_laws;
pub mod read;
pub mod request;
pub mod response;
pub mod server_conn;
pub mod status;
pub mod transfer;
pub mod transport;
pub mod write;
pub mod uri;
pub mod version;

use vstd::prelude::*;

verus! {

/// Maximum number of bytes the parse buffer may hold while a head is
/// still incomplete; beyond this the connection fails with `TooLarge`.
pub const MAX_BUFFER_SIZE: usize = 8192 + 4096 * 100;

} // verus!
