//! Where a datagram goes.

use vstd::prelude::*;

verus! {

/// An IPv4 address and a port.
#[derive(Clone, Copy, PartialEq, Eq, Debug)]
pub struct Endpoint {
    pub addr: [u8; 4],
    pub port: u16,
}

/// The address that reaches every host on the local network.
pub const EVERYONE: [u8; 4] = [255, 255, 255, 255];

/// Whether two groups of four bytes are the same.
pub fn same_four(a: &[u8; 4], b: &[u8; 4]) -> (r: bool)
    ensures
        r == (*a == *b),
{
    let r: bool = a[0] == b[0] && a[1] == b[1] && a[2] == b[2] && a[3] == b[3];
    proof {
        if r {
            assert(a@ =~= b@);
            assert(*a == *b);
        }
    }
    r
}

} // verus!
