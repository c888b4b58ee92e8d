//! The proxy protocols: SOCKS5 and HTTP CONNECT.

use crate::net::SocketAddress;
use std::sync::Arc;
use vstd::prelude::*;


pub mod handshake;
pub mod http;
pub mod socks;
pub mod socks5_udp;

pub use handshake::Handshake;

verus! {

pub const MAX_CREDENTIAL_COMPONENT: usize = 255;

/// Calls `zeroize` on a `Vec<u8>`: it overwrites the octets and leaves the
/// vector empty. Nothing is said of the memory that the octets lay in.
#[verifier::external_body]
pub(crate) fn wipe(bytes: &mut Vec<u8>)
    ensures
        final(bytes)@ == Seq::<u8>::empty(),
    opens_invariants none
    no_unwind
{
    zeroize::Zeroize::zeroize(bytes);
}

struct Secret {
    username: Vec<u8>,
    password: Vec<u8>,
}

impl Drop for Secret {
    fn drop(&mut self)
        opens_invariants none
        no_unwind
    {
        wipe(&mut self.username);
        wipe(&mut self.password);
    }
}

/// A user name and a password for a proxy.
pub struct Credentials(Arc<Secret>);

impl Clone for Credentials {
    fn clone(&self) -> (copy: Credentials)
        ensures
            copy == *self,
    {
        proof {
            use_type_invariant(self);
        }
        Credentials(Arc::clone(&self.0))
    }
}

/// Whether a user name or a password can be sent: SOCKS5 counts it in an octet.
pub open spec fn sendable(component: Seq<u8>) -> bool {
    0 < component.len() <= MAX_CREDENTIAL_COMPONENT
}

impl Credentials {
    pub closed spec fn name(&self) -> Seq<u8> {
        self.0.username@
    }

    pub closed spec fn secret(&self) -> Seq<u8> {
        self.0.password@
    }

    #[verifier::type_invariant]
    spec fn usable(self) -> bool {
        sendable(self.0.username@) && sendable(self.0.password@)
    }

    pub fn new(username: Vec<u8>, password: Vec<u8>) -> (result: Result<Credentials, Error>)
        ensures
            match result {
                Ok(credentials) => {
                    &&& sendable(username@) && sendable(password@)
                    &&& credentials.name() == username@
                    &&& credentials.secret() == password@
                },
                Err(error) => {
                    &&& !(sendable(username@) && sendable(password@))
                    &&& error == Error::InvalidCredentials
                },
            },
    {
        if username.len() == 0 || password.len() == 0 || username.len() > MAX_CREDENTIAL_COMPONENT
            || password.len() > MAX_CREDENTIAL_COMPONENT {
            return Err(Error::InvalidCredentials);
        }
        Ok(Credentials(Arc::new(Secret { username, password })))
    }

    #[must_use]
    pub fn username(&self) -> (username: &[u8])
        ensures
            username@ == self.name(),
            sendable(username@),
    {
        proof {
            use_type_invariant(self);
        }
        self.0.username.as_slice()
    }

    #[must_use]
    pub fn password(&self) -> (password: &[u8])
        ensures
            password@ == self.secret(),
            sendable(password@),
    {
        proof {
            use_type_invariant(self);
        }
        self.0.password.as_slice()
    }

    /// What is shown of credentials: nothing of what they hold.
    #[must_use]
    pub fn describe(&self) -> (text: &'static str)
        ensures
            text == "Credentials(REDACTED)",
    {
        "Credentials(REDACTED)"
    }
}

#[derive(Clone, Copy, Debug, PartialEq, Eq, Structural)]
pub enum Protocol {
    Socks5,
    HttpConnect,
}

#[derive(Clone, Copy, Debug, PartialEq, Eq, Structural)]
pub enum Command {
    Connect,
    UdpAssociate,
}

impl Command {
    pub open spec fn code(self) -> u8 {
        match self {
            Command::Connect => 1,
            Command::UdpAssociate => 3,
        }
    }

    #[must_use]
    pub fn socks_code(self) -> (code: u8)
        ensures
            code == self.code(),
    {
        match self {
            Command::Connect => 1,
            Command::UdpAssociate => 3,
        }
    }
}

#[derive(Clone, Debug, PartialEq, Eq)]
pub enum SocksAddress {
    Socket(SocketAddress),
    Domain { name: Vec<u8>, port: u16 },
}

/// A SOCKS address with its name as a sequence.
pub enum AddressModel {
    Socket(SocketAddress),
    Domain { name: Seq<u8>, port: u16 },
}

impl View for SocksAddress {
    type V = AddressModel;

    open spec fn view(&self) -> AddressModel {
        match *self {
            SocksAddress::Socket(address) => AddressModel::Socket(address),
            SocksAddress::Domain { name, port } => AddressModel::Domain { name: name@, port },
        }
    }
}

#[derive(Debug, PartialEq, Eq)]
pub enum Error {
    /// A user name and a password must each have 1 to 255 octets.
    InvalidCredentials,
    /// The handshake was moved on in a state that does not allow it.
    InvalidState,
    /// The response is not encoded as the protocol has it.
    InvalidResponse(&'static str),
    /// HTTP CONNECT does not have the command.
    UnsupportedCommand,
    /// The SOCKS5 proxy chose an authentication method that was not offered.
    UnsupportedSocksMethod(u8),
    /// The SOCKS5 proxy asks for a user name and a password.
    SocksAuthenticationRequired,
    /// The SOCKS5 proxy did not take the user name and the password.
    SocksAuthenticationFailed,
    /// The SOCKS5 proxy answered the command with this reply code.
    SocksCommandFailed(u8),
    /// The headers of the HTTP response have more than 8192 octets.
    HttpHeaderTooLarge,
    /// The HTTP proxy answered with this status.
    HttpConnectFailed(u16),
}

/// A user name or a password has 1 to 255 octets.
pub proof fn law_credentials_have_a_length(component: Seq<u8>)
    ensures
        sendable(component) <==> 1 <= component.len() <= 255,
{
}

} // verus!
