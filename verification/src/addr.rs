//! Socket addresses of both families.

use vstd::prelude::*;

verus! {

/// An IPv4 address and a UDP or TCP number on it.
#[derive(Clone, Copy, Debug, PartialEq, Eq, Hash, Structural)]
pub struct SocketAddrV4 {
    pub ip: u32,
    pub port: u16,
}

/// An IPv6 address with its flow information and scope.
#[derive(Clone, Copy, Debug, PartialEq, Eq, Hash, Structural)]
pub struct SocketAddrV6 {
    pub ip: u128,
    pub port: u16,
    pub flowinfo: u32,
    pub scope_id: u32,
}

/// A socket address of either family.
#[derive(Clone, Copy, Debug, PartialEq, Eq, Hash, Structural)]
pub enum SocketAddr {
    V4(SocketAddrV4),
    V6(SocketAddrV6),
}

impl SocketAddr {
    /// Whether this is an IPv4 address.
    pub fn is_ipv4(&self) -> (b: bool)
        ensures
            b == (self is V4),
    {
        match self {
            SocketAddr::V4(_) => true,
            SocketAddr::V6(_) => false,
        }
    }

    /// Whether this is an IPv6 address.
    pub fn is_ipv6(&self) -> (b: bool)
        ensures
            b == (self is V6),
    {
        match self {
            SocketAddr::V4(_) => false,
            SocketAddr::V6(_) => true,
        }
    }
}

/// The address families that a compact node list can hold.
pub trait FromSocketAddr: Sized + Copy {
    /// The address of this family that `addr` is, if it is one.
    spec fn of_addr(addr: SocketAddr) -> Option<Self>;

    /// The address of this family that `addr` is, if it is one.
    fn from_socket_addr(addr: SocketAddr) -> (a: Option<Self>)
        ensures
            a == Self::of_addr(addr),
    ;
}

impl FromSocketAddr for SocketAddrV4 {
    open spec fn of_addr(addr: SocketAddr) -> Option<Self> {
        match addr {
            SocketAddr::V4(a) => Some(a),
            SocketAddr::V6(_) => None,
        }
    }

    fn from_socket_addr(addr: SocketAddr) -> (a: Option<Self>) {
        match addr {
            SocketAddr::V4(a) => Some(a),
            SocketAddr::V6(_) => None,
        }
    }
}

impl FromSocketAddr for SocketAddrV6 {
    open spec fn of_addr(addr: SocketAddr) -> Option<Self> {
        match addr {
            SocketAddr::V4(_) => None,
            SocketAddr::V6(a) => Some(a),
        }
    }

    fn from_socket_addr(addr: SocketAddr) -> (a: Option<Self>) {
        match addr {
            SocketAddr::V4(_) => None,
            SocketAddr::V6(a) => Some(a),
        }
    }
}

} // verus!
