use nymx_mail::digest::ripemd160_bytes;
use nymx_mail::protocol::{
    build_chunk_header, build_handshake_payload, build_reply_payload, parse_chunk_payload,
};
use nymx_mail::receiver::{chunk_offset, expected_file_len, AfterSave, ChunkSlot, FileTransfer, Receiver};
use nymx_mail::sender::{confirm_delivery, prepare_message};

const TAG: &str = "0123456789abcdefABCDEF";

#[test]
fn prepared_message() {
    let out = prepare_message("hi there", "abc.txt", TAG).ok().unwrap();
    assert_eq!(out.handshake, build_handshake_payload(TAG));
    let mut chunk = build_chunk_header(0, 1, 8, "abc.txt", TAG);
    chunk.extend_from_slice(b"hi there");
    assert_eq!(out.chunk, chunk);
    assert_eq!(out.sender_hash, ripemd160_bytes(b"hi there"));
}

#[test]
fn message_size_limit() {
    let at_limit = "x".repeat(15000);
    assert!(prepare_message(&at_limit, "a.txt", TAG).is_ok());
    let over = "x".repeat(15001);
    assert_eq!(prepare_message(&over, "a.txt", TAG).err(), Some(15001));
}

#[test]
fn confirmation_checks_hash() {
    let hash = ripemd160_bytes(b"data");
    assert_eq!(confirm_delivery(&build_reply_payload(TAG, &hash), &hash), Ok(true));
    assert_eq!(confirm_delivery(&build_reply_payload(TAG, "other"), &hash), Ok(false));
    assert_eq!(confirm_delivery(b"short", &hash), Err("Reply payload too short"));
}

#[test]
fn message_delivered_end_to_end() {
    let message = "Grüße aus dem Mixnet";
    let out = prepare_message(message, "note.txt", TAG).ok().unwrap();

    let mut receiver: Receiver<u32, ()> = Receiver::new();
    let (idx, total, size, name, tag, data) = parse_chunk_payload(&out.chunk).unwrap();
    assert!(matches!(receiver.begin_chunk(&tag, 0), ChunkSlot::New));
    let mut stored = vec![0u8; expected_file_len(total) as usize];
    let i = receiver.open_transfer(FileTransfer::new(name, tag, total, size, (), 0));
    assert!(receiver.accept_chunk(i, idx, Some(1)));
    let offset = chunk_offset(idx) as usize;
    stored[offset..offset + data.len()].copy_from_slice(data);
    receiver.record_chunk(i, idx, 0);
    let done = match receiver.after_chunk_saved(i, 0) {
        AfterSave::Complete(t) => t,
        _ => panic!("one chunk completes the transfer"),
    };
    stored.truncate(done.original_file_size as usize);
    assert_eq!(stored, message.as_bytes());

    let reply = build_reply_payload(&done.app_tag, &ripemd160_bytes(&stored));
    assert_eq!(confirm_delivery(&reply, &out.sender_hash), Ok(true));
}
