//! The server side of a small chat service: registered users, channels that
//! users join and leave, and the messages posted to them, together with the
//! line-based command protocol that the TCP front end speaks.

pub mod error;
pub mod laws;
pub mod model;
pub mod session;
pub mod state;
pub mod text;

use vstd::prelude::*;

verus! {

/// Default host to bind (server) or connect to (client).
pub const DEFAULT_HOST: &'static str = "127.0.0.1";

/// Default port for HTTP connections.
pub const DEFAULT_HTTP_PORT: u16 = 8000;

/// Default port for raw TCP connections.
pub const DEFAULT_TCP_PORT: u16 = 8001;

} // verus!
