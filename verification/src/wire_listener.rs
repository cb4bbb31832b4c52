//! What the listeners of the proxy share.
use vstd::prelude::*;

verus! {

/// The port on which clients are accepted.
pub const DEFAULT_WIRE_PORT: u16 = 6432;

/// Accepts clients of the proxy.
#[derive(Debug, Clone, Copy, PartialEq, Eq, Structural)]
pub struct WireListener {}

impl WireListener {
    pub fn new() -> (listener: WireListener)
        ensures
            listener == (WireListener {  }),
    {
        WireListener {  }
    }
}

/// Why a listener could not be opened.
#[derive(Debug)]
pub enum WireError {
    /// The address or the path could not be listened on.
    Listen(std::io::Error),
}

impl From<std::io::Error> for WireError {
    fn from(error: std::io::Error) -> (r: WireError)
        ensures
            r == WireError::Listen(error),
    {
        WireError::Listen(error)
    }
}

impl vstd::std_specs::convert::FromSpecImpl<std::io::Error> for WireError {
    open spec fn obeys_from_spec() -> bool {
        true
    }

    open spec fn from_spec(error: std::io::Error) -> WireError {
        WireError::Listen(error)
    }
}

/// The file that a Unix listener created.
#[derive(Debug, Clone, Copy, PartialEq, Eq, Structural)]
pub struct SocketIdentity {
    pub device: u64,
    pub inode: u64,
}

/// What stands at a path now.
#[derive(Debug, Clone, Copy, PartialEq, Eq, Structural)]
pub struct FoundFile {
    pub is_socket: bool,
    pub device: u64,
    pub inode: u64,
}

impl SocketIdentity {
    /// Whether the file at the listener's path is still the socket that the
    /// listener created. Only then may the listener remove it.
    pub fn owns(&self, found: Option<FoundFile>) -> (owned: bool)
        ensures
            owned == (found == Some(
                FoundFile { is_socket: true, device: self.device, inode: self.inode },
            )),
    {
        match found {
            Some(file) => file.is_socket && file.device == self.device && file.inode == self.inode,
            None => false,
        }
    }
}

/// A listener removes the socket that it created, and nothing else that may stand
/// at its path by now.
pub proof fn lemma_own_sockets(identity: SocketIdentity, found: Option<FoundFile>, owned: bool)
    requires
        call_ensures(SocketIdentity::owns, (&identity, found), owned),
    ensures
        found is None ==> !owned,
        found is Some && found->Some_0.is_socket && found->Some_0.device == identity.device
            && found->Some_0.inode == identity.inode ==> owned,
        found is Some && !found->Some_0.is_socket ==> !owned,
        found is Some && found->Some_0.device != identity.device ==> !owned,
        found is Some && found->Some_0.inode != identity.inode ==> !owned,
{
}

} // verus!
