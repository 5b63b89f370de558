//! Connection setup for a PostgreSQL client that is independent of the async runtime:
//! the ordered fallback over candidate hosts, the names of local sockets, the TLS
//! server name, and the buffer bookkeeping of the stream adapter.

pub mod handshake;
pub mod host;
pub mod resolve;
pub mod stream;
