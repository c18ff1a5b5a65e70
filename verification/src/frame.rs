//! The layered frame decoder: Ethernet, then IPv4, then UDP.
//!
//! A raw frame is peeled one header at a time. A frame whose declared
//! ether-type is not IPv4, whose IPv4 protocol is not UDP, or whose UDP
//! destination port is not 53 is discarded; so is any frame too short to hold
//! the header it claims. Discarding is expected filtering, never a fault.

use vstd::prelude::*;

verus! {

/// A two-byte big-endian field.
pub open spec fn be16(hi: u8, lo: u8) -> int {
    hi * 256 + lo
}

/// The frame is long enough for an Ethernet header and declares IPv4
/// (ether-type 0x0800) as its payload.
pub open spec fn eth_is_ipv4(f: Seq<u8>) -> bool {
    f.len() >= 14 && be16(f[12], f[13]) == 0x0800
}

/// The Ethernet payload of a frame: everything after the 14-byte header.
pub open spec fn eth_payload(f: Seq<u8>) -> Seq<u8> {
    f.skip(14)
}

/// The length in bytes of an IPv4 header: four times the IHL field, the low
/// nibble of the first byte.
pub open spec fn ipv4_header_len(h: Seq<u8>) -> int {
    (h[0] % 16) * 4
}

/// The bytes hold a well-formed IPv4 header (at least 20 bytes, with a header
/// length that is at least 20 and fits in the buffer) whose upper-layer
/// protocol is UDP (17).
pub open spec fn ipv4_is_udp(h: Seq<u8>) -> bool {
    &&& h.len() >= 20
    &&& 20 <= ipv4_header_len(h) <= h.len()
    &&& h[9] == 17
}

/// The IPv4 payload: everything after the variable-length header.
pub open spec fn ipv4_payload(h: Seq<u8>) -> Seq<u8> {
    h.skip(ipv4_header_len(h))
}

/// The bytes hold a UDP header whose destination port is 53, the DNS port.
pub open spec fn udp_is_dns(u: Seq<u8>) -> bool {
    u.len() >= 8 && be16(u[2], u[3]) == 53
}

/// The UDP payload: everything after the fixed 8-byte header.
pub open spec fn udp_payload(u: Seq<u8>) -> Seq<u8> {
    u.skip(8)
}

/// What the decoder yields for a frame: the UDP payload bytes if the frame is
/// Ethernet carrying IPv4 carrying UDP addressed to port 53, and nothing
/// otherwise.
pub open spec fn spec_decode(f: Seq<u8>) -> Option<Seq<u8>> {
    if eth_is_ipv4(f) {
        let h = eth_payload(f);
        if ipv4_is_udp(h) {
            let u = ipv4_payload(h);
            if udp_is_dns(u) {
                Some(udp_payload(u))
            } else {
                None
            }
        } else {
            None
        }
    } else {
        None
    }
}

/// Decodes one raw frame down to a DNS-bound UDP payload, checking each
/// header's bounds before reading it. Returns the payload bytes — borrowed
/// from the frame, nothing is copied — exactly when the frame matches the
/// Ethernet/IPv4/UDP-port-53 stack.
pub fn decode(frame: &[u8]) -> (r: Option<&[u8]>)
    ensures
        match r {
            Some(p) => spec_decode(frame@) == Some(p@),
            None => spec_decode(frame@) is None,
        },
{
    if frame.len() < 14 {
        return None;
    }
    let ethertype: u32 = (frame[12] as u32) * 256 + (frame[13] as u32);
    if ethertype != 0x0800 {
        return None;
    }
    let ip: &[u8] = &frame[14..frame.len()];
    proof {
        assert(ip@ =~= eth_payload(frame@));
    }
    if ip.len() < 20 {
        return None;
    }
    let header_len: usize = ((ip[0] % 16) as usize) * 4;
    if header_len < 20 || header_len > ip.len() {
        return None;
    }
    if ip[9] != 17 {
        return None;
    }
    let udp: &[u8] = &ip[header_len..ip.len()];
    proof {
        assert(udp@ =~= ipv4_payload(ip@));
    }
    if udp.len() < 8 {
        return None;
    }
    let port: u32 = (udp[2] as u32) * 256 + (udp[3] as u32);
    if port != 53 {
        return None;
    }
    let payload: &[u8] = &udp[8..udp.len()];
    proof {
        assert(payload@ =~= udp_payload(udp@));
    }
    Some(payload)
}

} // verus!
