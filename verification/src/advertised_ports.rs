//! The ports that peers and servers are told to reach the client by.
//!
//! Behind a gateway the port seen from outside may differ from the port of the
//! socket. Where it is known, it is the one that is told.
use vstd::prelude::*;

verus! {

/// The ports seen from outside; zero where they are not known.
#[derive(Debug, Clone, Copy, PartialEq, Eq, Structural)]
pub struct AdvertisedPorts {
    pub external_tcp: u16,
    pub external_udp: u16,
}

impl Default for AdvertisedPorts {
    fn default() -> (r: Self)
        ensures
            r == (AdvertisedPorts { external_tcp: 0, external_udp: 0 }),
    {
        AdvertisedPorts { external_tcp: 0, external_udp: 0 }
    }
}

/// The port that `external` stands for, nothing where it is zero.
pub open spec fn known_port(external: u16) -> Option<u16> {
    if external == 0 {
        None
    } else {
        Some(external)
    }
}

/// The port to tell: the one seen from outside where it is known.
pub open spec fn told_port(external: u16, internal: u16) -> u16 {
    if external == 0 {
        internal
    } else {
        external
    }
}

/// Notes the TCP port seen from outside; zero to forget it.
pub fn set_advertised_external_tcp_port(ports: &mut AdvertisedPorts, port: u16)
    ensures
        *final(ports) == (AdvertisedPorts { external_tcp: port, ..*old(ports) }),
{
    ports.external_tcp = port;
}

/// Notes the UDP port seen from outside; zero to forget it.
pub fn set_advertised_external_udp_port(ports: &mut AdvertisedPorts, port: u16)
    ensures
        *final(ports) == (AdvertisedPorts { external_udp: port, ..*old(ports) }),
{
    ports.external_udp = port;
}

/// The TCP port seen from outside, where it is known.
pub fn advertised_external_tcp_port(ports: &AdvertisedPorts) -> (r: Option<u16>)
    ensures
        r == known_port(ports.external_tcp),
{
    if ports.external_tcp == 0 {
        None
    } else {
        Some(ports.external_tcp)
    }
}

/// The UDP port seen from outside, where it is known.
pub fn advertised_external_udp_port(ports: &AdvertisedPorts) -> (r: Option<u16>)
    ensures
        r == known_port(ports.external_udp),
{
    if ports.external_udp == 0 {
        None
    } else {
        Some(ports.external_udp)
    }
}

/// The TCP port to tell.
pub fn advertised_tcp_port(ports: &AdvertisedPorts, internal_port: u16) -> (r: u16)
    ensures
        r == told_port(ports.external_tcp, internal_port),
{
    match advertised_external_tcp_port(ports) {
        Some(port) => port,
        None => internal_port,
    }
}

/// The UDP port to tell.
pub fn advertised_udp_port(ports: &AdvertisedPorts, internal_port: u16) -> (r: u16)
    ensures
        r == told_port(ports.external_udp, internal_port),
{
    match advertised_external_udp_port(ports) {
        Some(port) => port,
        None => internal_port,
    }
}

/// A port that is learned is told from then on, until it is forgotten.
pub proof fn law_learned_port_is_told(learned: u16, internal: u16)
    ensures
        learned != 0 ==> told_port(learned, internal) == learned,
        told_port(0, internal) == internal,
        known_port(learned) is Some <==> learned != 0,
{
}

} // verus!
