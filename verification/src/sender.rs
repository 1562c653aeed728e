//! The sender's side of a message: what it sends and how it judges the
//! receiver's confirmation.
use vstd::prelude::*;
use vstd::utf8::{encode_utf8, valid_utf8, decode_utf8};
use crate::protocol::{
    MAX_PAYLOAD_BYTES, handshake, chunk_header, parse_reply, build_handshake_payload,
    build_chunk_header, parse_reply_payload,
};
use crate::digest::{fingerprint, ripemd160_bytes};
use crate::codec::extend_bytes;
use crate::text::{utf8_lossy, same_text};

verus! {

/// Everything the sender puts on the wire for one message, and the
/// fingerprint it expects back.
pub struct Outgoing {
    pub handshake: Vec<u8>,
    pub chunk: Vec<u8>,
    pub sender_hash: String,
}

/// Prepares the handshake and the single chunk that carry `message` as
/// file `filename` under tag `file_tag`, with the message's fingerprint.
/// A message of more than `MAX_PAYLOAD_BYTES` bytes is refused with its
/// size.
pub fn prepare_message(message: &str, filename: &str, file_tag: &str) -> (r: Result<
    Outgoing,
    usize,
>)
    ensures
        match r {
            Err(size) => size == encode_utf8(message@).len() && size > MAX_PAYLOAD_BYTES,
            Ok(out) => {
                &&& encode_utf8(message@).len() <= MAX_PAYLOAD_BYTES
                &&& out.handshake@ == handshake(encode_utf8(file_tag@))
                &&& out.chunk@ == chunk_header(
                    0,
                    1,
                    encode_utf8(message@).len(),
                    encode_utf8(filename@),
                    encode_utf8(file_tag@),
                ) + encode_utf8(message@)
                &&& out.sender_hash@ == fingerprint(encode_utf8(message@))
            },
        },
{
    let data = message.as_bytes();
    if data.len() > MAX_PAYLOAD_BYTES {
        return Err(data.len());
    }
    let sender_hash = ripemd160_bytes(data);
    let handshake = build_handshake_payload(file_tag);
    let mut chunk = build_chunk_header(0, 1, data.len() as u64, filename, file_tag);
    extend_bytes(&mut chunk, data);
    Ok(Outgoing { handshake, chunk, sender_hash })
}

/// Reads the receiver's confirmation and tells whether its hash is the
/// sender's.
pub fn confirm_delivery(reply: &[u8], sender_hash: &str) -> (r: Result<bool, &'static str>)
    ensures
        match r {
            Ok(matches) => {
                &&& parse_reply(reply@) matches Some((t, h))
                &&& matches == (utf8_lossy(h) == sender_hash@)
                &&& valid_utf8(h) ==> matches == (decode_utf8(h) == sender_hash@)
            },
            Err(e) => parse_reply(reply@) is None && e@ == "Reply payload too short"@,
        },
{
    match parse_reply_payload(reply) {
        Ok((_file_tag, reply_hash)) => Ok(same_text(reply_hash.as_str(), sender_hash)),
        Err(e) => Err(e),
    }
}

} // verus!
