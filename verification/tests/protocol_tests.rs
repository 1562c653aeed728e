use nymx_mail::protocol::{
    build_chunk_header, build_handshake_payload, build_ready_payload, build_reply_payload,
    build_resend_request, classify_reply, is_handshake, is_ready_reply, parse_chunk_payload,
    parse_reply_payload, ReplyKind, FILE_TAG_LEN, HANDSHAKE_CHUNK_IDX, MAX_PAYLOAD_BYTES,
    MIN_CHUNK_PAYLOAD_LEN,
};

const TAG: &str = "AbCdEfGhIjKlMnOpQrStUv";

#[test]
fn handshake_layout() {
    let p = build_handshake_payload(TAG);
    let mut expected = vec![0xFF, 0xFF, 0xFF, 0xFF, 0, 0, 0, 0, 0, 0, 0, 0, 0, 0, 0, 0, 0, 0];
    expected.extend_from_slice(TAG.as_bytes());
    assert_eq!(p, expected);
    assert_eq!(p.len(), MIN_CHUNK_PAYLOAD_LEN);
}

#[test]
fn chunk_header_layout() {
    let h = build_chunk_header(0, 1, 5, "a.txt", TAG);
    let mut expected = vec![0, 0, 0, 0, 0, 0, 0, 1, 0, 0, 0, 0, 0, 0, 0, 5, 0, 5];
    expected.extend_from_slice(b"a.txt");
    expected.extend_from_slice(TAG.as_bytes());
    assert_eq!(h, expected);
}

#[test]
fn chunk_header_big_endian_fields() {
    let h = build_chunk_header(0x0102_0304, 0x0A0B_0C0D, 0x1122_3344_5566_7788, "", TAG);
    assert_eq!(&h[0..4], &[1, 2, 3, 4]);
    assert_eq!(&h[4..8], &[0x0A, 0x0B, 0x0C, 0x0D]);
    assert_eq!(&h[8..16], &[0x11, 0x22, 0x33, 0x44, 0x55, 0x66, 0x77, 0x88]);
    assert_eq!(&h[16..18], &[0, 0]);
}

#[test]
fn chunk_header_truncates_like_casts() {
    let big: usize = (u32::MAX as usize) + 6;
    let h = build_chunk_header(big, big, 0, "", TAG);
    assert_eq!(&h[0..4], &[0, 0, 0, 5]);
    assert_eq!(&h[4..8], &[0, 0, 0, 5]);
}

#[test]
fn chunk_roundtrip() {
    let mut p = build_chunk_header(3, 7, 200_000, "report.txt", TAG);
    p.extend_from_slice(b"hello");
    let (idx, total, size, name, tag, data) = parse_chunk_payload(&p).unwrap();
    assert_eq!(idx, 3);
    assert_eq!(total, 7);
    assert_eq!(size, 200_000);
    assert_eq!(name, "report.txt");
    assert_eq!(tag, TAG);
    assert_eq!(data, b"hello");
}

#[test]
fn handshake_parses_as_handshake() {
    let p = build_handshake_payload(TAG);
    let (idx, total, size, name, tag, data) = parse_chunk_payload(&p).unwrap();
    assert!(is_handshake(idx));
    assert_eq!(idx, HANDSHAKE_CHUNK_IDX as usize);
    assert_eq!((total, size), (0, 0));
    assert_eq!(name, "");
    assert_eq!(tag, TAG);
    assert!(data.is_empty());
    assert!(!is_handshake(0));
}

#[test]
fn chunk_too_short() {
    let p = vec![0u8; 39];
    assert_eq!(parse_chunk_payload(&p), Err("Chunk payload too short"));
    assert_eq!(parse_chunk_payload(&[]), Err("Chunk payload too short"));
}

#[test]
fn chunk_too_short_for_name() {
    let mut p = vec![0u8; 40];
    p[17] = 1; // announces a one-byte name that leaves no room for the tag
    assert_eq!(parse_chunk_payload(&p), Err("Chunk payload too short for header"));
    p.push(b'x');
    assert!(parse_chunk_payload(&p).is_ok());
}

#[test]
fn chunk_invalid_utf8_is_replaced() {
    let mut p = build_chunk_header(0, 1, 1, "ab", TAG);
    p[18] = 0xFF;
    let (_, _, _, name, _, _) = parse_chunk_payload(&p).unwrap();
    assert_eq!(name, "\u{FFFD}b");
}

#[test]
fn reply_roundtrip() {
    let p = build_reply_payload(TAG, "9c1185a5c5e9fc54612808977ee8f548b2258d31");
    assert_eq!(p.len(), FILE_TAG_LEN + 40);
    let (tag, hash) = parse_reply_payload(&p).unwrap();
    assert_eq!(tag, TAG);
    assert_eq!(hash, "9c1185a5c5e9fc54612808977ee8f548b2258d31");
}

#[test]
fn reply_too_short() {
    assert_eq!(parse_reply_payload(&[1u8; 21]), Err("Reply payload too short"));
    let (tag, hash) = parse_reply_payload(&[b'a'; 22]).unwrap();
    assert_eq!(tag, "a".repeat(22));
    assert_eq!(hash, "");
}

#[test]
fn ready_payload_and_check() {
    let p = build_ready_payload(TAG);
    assert_eq!(p, format!("READY:{}", TAG).into_bytes());
    assert!(is_ready_reply(&p, TAG));
    let mut longer = p.clone();
    longer.extend_from_slice(b" extra");
    assert!(is_ready_reply(&longer, TAG));
    assert!(!is_ready_reply(b"READY:other", TAG));
    assert!(!is_ready_reply(b"", TAG));
}

#[test]
fn resend_request_text() {
    assert_eq!(build_resend_request(0), b"RESEND:0".to_vec());
    assert_eq!(build_resend_request(42), b"RESEND:42".to_vec());
    assert_eq!(build_resend_request(1_000_007), b"RESEND:1000007".to_vec());
}

#[test]
fn replies_classified() {
    assert_eq!(classify_reply(b""), ReplyKind::Empty);
    assert_eq!(classify_reply(&build_resend_request(3)), ReplyKind::ResendRequest);
    assert_eq!(classify_reply(b"RESEND"), ReplyKind::Reply);
    assert_eq!(classify_reply(&build_reply_payload(TAG, "abc")), ReplyKind::Reply);
}

#[test]
fn payload_limit_value() {
    assert_eq!(MAX_PAYLOAD_BYTES, 15000);
}
