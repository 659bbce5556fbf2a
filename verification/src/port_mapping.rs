//! Port mapping: what the engine asks of the router, and the gateway guess
//! used when the router cannot be found.
use vstd::prelude::*;

verus! {

/// A request to the port-mapping service.
#[derive(Debug)]
pub enum NatCommand {
    MapPort { port: u16, description: String },
}

/// The router guessed for an IPv4 address: the same network, host 1.
pub fn gateway_guess(local: [u8; 4]) -> (r: [u8; 4])
    ensures
        r@ == local@.update(3, 1u8),
{
    let mut octets = local;
    octets[3] = 1;
    assert(octets@ =~= local@.update(3, 1u8));
    octets
}

} // verus!
