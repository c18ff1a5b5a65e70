use dns_sniffer::dns::extract;

/// A 12-byte DNS header claiming `qdcount` questions.
fn header(qdcount: u16) -> Vec<u8> {
    let mut h = vec![0u8; 12];
    h[4] = (qdcount >> 8) as u8;
    h[5] = (qdcount & 0xff) as u8;
    h
}

fn question(labels: &[&[u8]]) -> Vec<u8> {
    let mut q = Vec::new();
    for l in labels {
        q.push(l.len() as u8);
        q.extend_from_slice(l);
    }
    q.push(0);
    q
}

#[test]
fn one_question_example_com() {
    let mut payload = header(1);
    payload.extend_from_slice(&question(&[b"example", b"com"]));
    assert_eq!(extract(&payload), vec!["example.com".to_string()]);
}

#[test]
fn two_questions_in_order() {
    let mut payload = header(2);
    payload.extend_from_slice(&question(&[b"example", b"com"]));
    payload.extend_from_slice(&question(&[b"a", b"b", b"c"]));
    assert_eq!(
        extract(&payload),
        vec!["example.com".to_string(), "a.b.c".to_string()]
    );
}

#[test]
fn short_payload_gives_nothing() {
    assert_eq!(extract(&[]), Vec::<String>::new());
    assert_eq!(extract(&[0, 0, 0, 0, 1]), Vec::<String>::new());
}

#[test]
fn qdcount_larger_than_encoded_keeps_decodable_names() {
    let mut payload = header(3);
    payload.extend_from_slice(&question(&[b"example", b"com"]));
    assert_eq!(extract(&payload), vec!["example.com".to_string()]);
}

#[test]
fn truncated_label_aborts_question() {
    let mut payload = header(1);
    payload.push(7);
    payload.extend_from_slice(b"exa");
    assert_eq!(extract(&payload), Vec::<String>::new());
}

#[test]
fn truncated_second_question_keeps_first() {
    let mut payload = header(2);
    payload.extend_from_slice(&question(&[b"example", b"com"]));
    payload.push(5);
    payload.extend_from_slice(b"ab");
    assert_eq!(extract(&payload), vec!["example.com".to_string()]);
}

#[test]
fn missing_terminator_gives_nothing() {
    let mut payload = header(1);
    payload.push(3);
    payload.extend_from_slice(b"com");
    assert_eq!(extract(&payload), Vec::<String>::new());
}

#[test]
fn invalid_utf8_label_becomes_placeholder() {
    let mut payload = header(1);
    payload.extend_from_slice(&question(&[&[0xff, 0xfe, 0xfd], b"com"]));
    assert_eq!(extract(&payload), vec!["<invalid>.com".to_string()]);
}

#[test]
fn root_name_is_empty_string() {
    let mut payload = header(1);
    payload.extend_from_slice(&question(&[]));
    assert_eq!(extract(&payload), vec!["".to_string()]);
}

#[test]
fn zero_qdcount_gives_nothing() {
    let mut payload = header(0);
    payload.extend_from_slice(&question(&[b"example", b"com"]));
    assert_eq!(extract(&payload), Vec::<String>::new());
}
