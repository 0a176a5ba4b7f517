//! A reliable, ordered byte stream carried over datagrams, with the pieces of
//! a small file server that speaks over it.
//!
//! Nothing in this crate touches a socket, a file or a clock. The transport
//! is a set of state machines: each operation says what to send or to wait
//! for, takes the outcome, and says what comes next.

use vstd::prelude::*;

pub mod bullshit_scanner;
pub mod config;
pub mod errors;
pub mod handshake;
pub mod html;
pub mod listener;
pub mod packet;
pub mod parse;
pub mod sequencing;
pub mod server;
pub mod stream;
pub mod transport;
pub mod util;

verus! {

/// The address of the local host.
pub const LOCALHOST: &'static str = "127.0.0.1";

/// The port that the first examples used.
pub const NINE_THOUSAND: u16 = 9000;

/// The port that asks the system for any free port.
pub const ANY_PORT: u16 = 0;

/// The address to bind a socket at when any free port of the local host
/// will do.
pub fn random_udp_socket_addr() -> (addr: String)
    ensures
        addr@ == LOCALHOST@ + ":"@ + "0"@,
{
    String::from_str(LOCALHOST).concat(":").concat("0")
}

} // verus!
