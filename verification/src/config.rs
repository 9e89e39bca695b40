//! The server's settings.

use vstd::prelude::*;

verus! {

/// The address of a network interface.
#[derive(Clone, Copy, Debug, PartialEq, Eq)]
pub enum HostAddress {
    /// An IPv4 address, by its four octets.
    V4([u8; 4]),
    /// An IPv6 address, by its eight segments.
    V6([u16; 8]),
}

/// The settings: where to listen, and which files may be uploaded.
#[derive(Clone, Debug)]
pub struct TomeConfig {
    /// The interface to listen on, if one is set.
    pub host: Option<HostAddress>,
    /// The port to listen on, if one is set.
    pub port: Option<u16>,
    /// The endings of the file names that are accepted as uploads.
    pub allowed_uploads: Vec<String>,
}

/// The port that is used where none is set.
pub const DEFAULT_PORT: u16 = 5422;

impl TomeConfig {
    /// The port to listen on: the one that is set, else [`DEFAULT_PORT`].
    pub open spec fn spec_listen_port(&self) -> u16 {
        match self.port {
            Some(port) => port,
            None => DEFAULT_PORT,
        }
    }

    /// The port to listen on: the one that is set, else [`DEFAULT_PORT`].
    #[verifier::when_used_as_spec(spec_listen_port)]
    pub fn listen_port(&self) -> (port: u16)
        ensures
            port == self.spec_listen_port(),
    {
        match self.port {
            Some(port) => port,
            None => DEFAULT_PORT,
        }
    }

    /// The interface to listen on: the one that is set, else every IPv4
    /// interface (`0.0.0.0`).
    pub fn listen_host(&self) -> (host: HostAddress)
        ensures
            match self.host {
                Some(set) => host == set,
                None => host matches HostAddress::V4(octets) && octets@ == seq![0u8, 0u8, 0u8, 0u8],
            },
    {
        match self.host {
            Some(host) => host,
            None => HostAddress::V4([0, 0, 0, 0]),
        }
    }
}

} // verus!
