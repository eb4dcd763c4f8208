//! The settings of a scanner run.
use vstd::prelude::*;

verus! {

/// The gateway port, the client id to connect with, and the port of the API server.
#[derive(Debug, Clone, Copy, PartialEq, Eq, Structural)]
pub struct Config {
    pub ib_port: u16,
    pub client_id: u16,
    pub server_port: u16,
}

} // verus!
