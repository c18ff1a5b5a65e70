use dns_sniffer::frame::decode;
use dns_sniffer::registry::DomainRegistry;
use dns_sniffer::sniff::{observe_frame, process_frame};

/// A full Ethernet/IPv4/UDP frame around `payload`.
fn build_frame(ethertype: u16, protocol: u8, dest_port: u16, payload: &[u8]) -> Vec<u8> {
    let mut f = Vec::new();
    // Ethernet: destination and source addresses, then the ether-type.
    f.extend_from_slice(&[0u8; 12]);
    f.push((ethertype >> 8) as u8);
    f.push((ethertype & 0xff) as u8);
    // IPv4: version 4, header length 5 words; protocol at offset 9.
    let mut ip = vec![0u8; 20];
    ip[0] = 0x45;
    ip[9] = protocol;
    f.extend_from_slice(&ip);
    // UDP: source port, destination port, length, checksum.
    let mut udp = vec![0u8; 8];
    udp[2] = (dest_port >> 8) as u8;
    udp[3] = (dest_port & 0xff) as u8;
    f.extend_from_slice(&udp);
    f.extend_from_slice(payload);
    f
}

fn dns_query_payload() -> Vec<u8> {
    let mut p = vec![0u8; 12];
    p[5] = 1;
    p.push(7);
    p.extend_from_slice(b"example");
    p.push(3);
    p.extend_from_slice(b"com");
    p.push(0);
    p
}

#[test]
fn decode_yields_udp_payload() {
    let payload = dns_query_payload();
    let frame = build_frame(0x0800, 17, 53, &payload);
    assert_eq!(decode(&frame), Some(payload.as_slice()));
}

#[test]
fn decode_discards_non_ipv4_ethertype() {
    let frame = build_frame(0x86dd, 17, 53, &dns_query_payload());
    assert_eq!(decode(&frame), None);
}

#[test]
fn decode_discards_non_udp_protocol() {
    let frame = build_frame(0x0800, 6, 53, &dns_query_payload());
    assert_eq!(decode(&frame), None);
}

#[test]
fn decode_discards_other_ports() {
    let frame = build_frame(0x0800, 17, 80, &dns_query_payload());
    assert_eq!(decode(&frame), None);
}

#[test]
fn decode_discards_truncated_frames() {
    let frame = build_frame(0x0800, 17, 53, &dns_query_payload());
    assert_eq!(decode(&frame[..13]), None);
    assert_eq!(decode(&frame[..20]), None);
    assert_eq!(decode(&frame[..40]), None);
}

#[test]
fn process_frame_extracts_question_names() {
    let frame = build_frame(0x0800, 17, 53, &dns_query_payload());
    assert_eq!(process_frame(&frame), vec!["example.com".to_string()]);
}

#[test]
fn non_ipv4_frame_appends_nothing() {
    let mut registry = DomainRegistry::new();
    let frame = build_frame(0x86dd, 17, 53, &dns_query_payload());
    observe_frame(&mut registry, &frame);
    assert_eq!(registry.len(), 0);
    assert_eq!(registry.snapshot(), Vec::<String>::new());
}

#[test]
fn port_80_frame_appends_nothing() {
    let mut registry = DomainRegistry::new();
    let frame = build_frame(0x0800, 17, 80, &dns_query_payload());
    observe_frame(&mut registry, &frame);
    assert_eq!(registry.len(), 0);
}

#[test]
fn matching_frame_appends_names_in_order() {
    let mut registry = DomainRegistry::new();
    let frame = build_frame(0x0800, 17, 53, &dns_query_payload());
    observe_frame(&mut registry, &frame);
    observe_frame(&mut registry, &frame);
    assert_eq!(
        registry.snapshot(),
        vec!["example.com".to_string(), "example.com".to_string()]
    );
}
