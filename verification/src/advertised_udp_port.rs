//! The UDP port that peers are told to reach the client by, on its own.
//!
//! A peer answers a reask only where the port that the datagram comes from is
//! the one it was told.
use vstd::prelude::*;

use crate::advertised_ports::{known_port, told_port};

verus! {

/// The UDP port seen from outside; zero where it is not known.
#[derive(Debug, Clone, Copy, PartialEq, Eq, Structural)]
pub struct AdvertisedUdpPort {
    pub external: u16,
}

impl Default for AdvertisedUdpPort {
    fn default() -> (r: Self)
        ensures
            r == (AdvertisedUdpPort { external: 0 }),
    {
        AdvertisedUdpPort { external: 0 }
    }
}

/// Notes the port seen from outside; zero to forget it.
pub fn set_advertised_external_udp_port(cell: &mut AdvertisedUdpPort, port: u16)
    ensures
        final(cell).external == port,
{
    cell.external = port;
}

/// The port seen from outside, where it is known.
pub fn advertised_external_udp_port(cell: &AdvertisedUdpPort) -> (r: Option<u16>)
    ensures
        r == known_port(cell.external),
{
    if cell.external == 0 {
        None
    } else {
        Some(cell.external)
    }
}

/// The port to tell: the one seen from outside where it is known.
pub fn advertised_udp_port(cell: &AdvertisedUdpPort, internal_port: u16) -> (r: u16)
    ensures
        r == told_port(cell.external, internal_port),
{
    match advertised_external_udp_port(cell) {
        Some(port) => port,
        None => internal_port,
    }
}

} // verus!
