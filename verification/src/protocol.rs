//! The payloads exchanged over the mixnet.
//!
//! A data chunk is `chunk index (4) | chunk count (4) | file size (8) |
//! name length (2) | name | file tag (22) | data`, all integers big-endian.
//! A handshake is a chunk header with index `0xFFFF_FFFF`, no name and no
//! data. The receiver answers a handshake with `READY:<tag>`, asks for a
//! missing chunk with `RESEND:<index>`, and confirms a complete file with
//! `<tag><hash>`.
use vstd::prelude::*;
use vstd::utf8::*;
use vstd::string::*;
use vstd::slice::{slice_subrange, slice_to_vec};
use crate::codec::{be_encode, be_value, pow256, lemma_be_value_bound, lemma_be_roundtrip_small, push_be, read_be, extend_bytes};
use crate::text::{utf8_lossy, decode_utf8_lossy, chars_of, string_from_chars, is_prefix_of, starts_with, extend_chars, decimal, push_decimal};

verus! {

/// Length in bytes of the tag that identifies one file transfer.
pub const FILE_TAG_LEN: usize = 22;

/// Chunk index that marks a handshake.
pub const HANDSHAKE_CHUNK_IDX: u32 = 0xFFFF_FFFF;

/// Largest message, in bytes, that the client sends.
pub const MAX_PAYLOAD_BYTES: usize = 15000;

/// Bytes of a chunk header before the file name.
pub const CHUNK_FIXED_HEADER_LEN: usize = 18;

/// Shortest payload that can hold a chunk header.
pub const MIN_CHUNK_PAYLOAD_LEN: usize = 40;

/// Header of a data chunk, as the sender lays it out.
pub open spec fn chunk_header(idx: nat, total: nat, size: nat, name: Seq<u8>, tag: Seq<u8>) -> Seq<u8> {
    be_encode(idx, 4) + be_encode(total, 4) + be_encode(size, 8) + be_encode(name.len(), 2) + name
        + tag
}

/// A handshake: the handshake index, zero count, zero size, empty name, tag.
pub open spec fn handshake(tag: Seq<u8>) -> Seq<u8> {
    be_encode(0xFFFF_FFFF, 4) + be_encode(0, 4) + be_encode(0, 8) + be_encode(0, 2) + tag
}

/// The fields of a chunk payload, as raw bytes and numbers.
pub struct ChunkFields {
    pub chunk_idx: nat,
    pub total_chunks: nat,
    pub file_size: nat,
    pub name: Seq<u8>,
    pub tag: Seq<u8>,
    pub data: Seq<u8>,
}

/// The name length that a payload announces.
pub open spec fn announced_name_len(p: Seq<u8>) -> nat {
    be_value(p.subrange(16, 18))
}

/// How the receiver reads a chunk payload; `None` when it is too short.
pub open spec fn parse_chunk(p: Seq<u8>) -> Option<ChunkFields> {
    if p.len() < 40 {
        None
    } else {
        let n = announced_name_len(p) as int;
        if p.len() < 40 + n {
            None
        } else {
            Some(
                ChunkFields {
                    chunk_idx: be_value(p.subrange(0, 4)),
                    total_chunks: be_value(p.subrange(4, 8)),
                    file_size: be_value(p.subrange(8, 16)),
                    name: p.subrange(18, 18 + n),
                    tag: p.subrange(18 + n, 40 + n),
                    data: p.subrange(40 + n, p.len() as int),
                },
            )
        }
    }
}

/// Whether a parsed chunk index marks a handshake.
pub fn is_handshake(chunk_idx: usize) -> (b: bool)
    ensures
        b == (chunk_idx == HANDSHAKE_CHUNK_IDX),
{
    chunk_idx == HANDSHAKE_CHUNK_IDX as usize
}

/// Builds the handshake that opens a transfer with tag `file_tag`.
pub fn build_handshake_payload(file_tag: &str) -> (payload: Vec<u8>)
    ensures
        payload@ == handshake(encode_utf8(file_tag@)),
{
    let mut payload: Vec<u8> = Vec::new();
    push_be(&mut payload, HANDSHAKE_CHUNK_IDX as u64, 4);
    push_be(&mut payload, 0, 4);
    push_be(&mut payload, 0, 8);
    push_be(&mut payload, 0, 2);
    extend_bytes(&mut payload, file_tag.as_bytes());
    payload
}

/// Builds the header of chunk `chunk_idx` of `total_chunks` of a file of
/// `file_size` bytes. Index and count keep their low 4 bytes, the name
/// length its low 2 bytes, as the casts to `u32` and `u16` do.
pub fn build_chunk_header(
    chunk_idx: usize,
    total_chunks: usize,
    file_size: u64,
    filename: &str,
    file_tag: &str,
) -> (header: Vec<u8>)
    ensures
        header@ == chunk_header(
            chunk_idx as nat,
            total_chunks as nat,
            file_size as nat,
            encode_utf8(filename@),
            encode_utf8(file_tag@),
        ),
{
    let mut header: Vec<u8> = Vec::new();
    push_be(&mut header, chunk_idx as u64, 4);
    push_be(&mut header, total_chunks as u64, 4);
    push_be(&mut header, file_size, 8);
    let name = filename.as_bytes();
    push_be(&mut header, name.len() as u64, 2);
    extend_bytes(&mut header, name);
    extend_bytes(&mut header, file_tag.as_bytes());
    header
}

/// Splits a chunk payload into chunk index, chunk count, file size, file
/// name, file tag and data.
pub fn parse_chunk_payload(payload: &[u8]) -> (r: Result<
    (usize, usize, u64, String, String, &[u8]),
    &'static str,
>)
    ensures
        match r {
            Ok((chunk_idx, total_chunks, file_size, filename, app_tag, chunk_data)) => {
                &&& parse_chunk(payload@) matches Some(f)
                &&& chunk_idx == f.chunk_idx
                &&& total_chunks == f.total_chunks
                &&& file_size == f.file_size
                &&& filename@ == utf8_lossy(f.name)
                &&& (valid_utf8(f.name) ==> filename@ == decode_utf8(f.name))
                &&& app_tag@ == utf8_lossy(f.tag)
                &&& (valid_utf8(f.tag) ==> app_tag@ == decode_utf8(f.tag))
                &&& chunk_data@ == f.data
            },
            Err(e) => {
                &&& parse_chunk(payload@) is None
                &&& payload@.len() < 40 ==> e@ == "Chunk payload too short"@
                &&& payload@.len() >= 40 ==> e@ == "Chunk payload too short for header"@
            },
        },
{
    let len: usize = payload.len();
    if len < CHUNK_FIXED_HEADER_LEN + FILE_TAG_LEN {
        return Err("Chunk payload too short");
    }
    proof {
        reveal_with_fuel(pow256, 5);
        lemma_be_value_bound(payload@.subrange(0, 4));
        lemma_be_value_bound(payload@.subrange(4, 8));
        lemma_be_value_bound(payload@.subrange(16, 18));
    }
    let chunk_idx = read_be(payload, 0, 4) as usize;
    let total_chunks = read_be(payload, 4, 4) as usize;
    let file_size = read_be(payload, 8, 8);
    let filename_len = read_be(payload, 16, 2) as usize;
    let filename_start: usize = CHUNK_FIXED_HEADER_LEN;
    let filename_end: usize = filename_start + filename_len;
    if len < filename_end + FILE_TAG_LEN {
        return Err("Chunk payload too short for header");
    }
    let filename = decode_utf8_lossy(slice_subrange(payload, filename_start, filename_end));
    let app_tag = decode_utf8_lossy(slice_subrange(payload, filename_end, filename_end + FILE_TAG_LEN));
    let chunk_data = slice_subrange(payload, filename_end + FILE_TAG_LEN, len);
    Ok((chunk_idx, total_chunks, file_size, filename, app_tag, chunk_data))
}

/// The text with which the receiver declares itself ready for `tag`.
pub open spec fn ready_chars(tag: Seq<char>) -> Seq<char> {
    seq!['R', 'E', 'A', 'D', 'Y', ':'] + tag
}

/// The prefix of a request to send a chunk again.
pub open spec fn resend_prefix() -> Seq<char> {
    seq!['R', 'E', 'S', 'E', 'N', 'D', ':']
}

/// The text of a request to send chunk `chunk_idx` again.
pub open spec fn resend_chars(chunk_idx: nat) -> Seq<char> {
    resend_prefix() + decimal(chunk_idx)
}

/// How the receiver reads a confirmation: tag and hash bytes, or `None`
/// when it is shorter than a tag.
pub open spec fn parse_reply(p: Seq<u8>) -> Option<(Seq<u8>, Seq<u8>)> {
    if p.len() < FILE_TAG_LEN {
        None
    } else {
        Some((p.subrange(0, FILE_TAG_LEN as int), p.subrange(FILE_TAG_LEN as int, p.len() as int)))
    }
}

fn push_ascii(out: &mut Vec<char>, c: char)
    ensures
        final(out)@ == old(out)@.push(c),
{
    out.push(c);
}

/// Builds the answer to a handshake with tag `app_tag`: `READY:<tag>`.
pub fn build_ready_payload(app_tag: &str) -> (payload: Vec<u8>)
    ensures
        payload@ == encode_utf8(ready_chars(app_tag@)),
{
    let mut chars: Vec<char> = Vec::new();
    push_ascii(&mut chars, 'R');
    push_ascii(&mut chars, 'E');
    push_ascii(&mut chars, 'A');
    push_ascii(&mut chars, 'D');
    push_ascii(&mut chars, 'Y');
    push_ascii(&mut chars, ':');
    let tag = chars_of(app_tag);
    extend_chars(&mut chars, tag.as_slice());
    assert(chars@ == ready_chars(app_tag@));
    let text = string_from_chars(chars.as_slice());
    slice_to_vec(text.as_str().as_bytes())
}

/// Builds the request to send chunk `chunk_idx` again: `RESEND:<index>`.
pub fn build_resend_request(chunk_idx: usize) -> (payload: Vec<u8>)
    ensures
        payload@ == encode_utf8(resend_chars(chunk_idx as nat)),
{
    let mut chars: Vec<char> = Vec::new();
    push_ascii(&mut chars, 'R');
    push_ascii(&mut chars, 'E');
    push_ascii(&mut chars, 'S');
    push_ascii(&mut chars, 'E');
    push_ascii(&mut chars, 'N');
    push_ascii(&mut chars, 'D');
    push_ascii(&mut chars, ':');
    push_decimal(&mut chars, chunk_idx);
    assert(chars@ == resend_chars(chunk_idx as nat));
    let text = string_from_chars(chars.as_slice());
    slice_to_vec(text.as_str().as_bytes())
}

/// Builds the confirmation of a complete file: tag followed by hash.
pub fn build_reply_payload(app_tag: &str, hash: &str) -> (payload: Vec<u8>)
    ensures
        payload@ == encode_utf8(app_tag@) + encode_utf8(hash@),
{
    let mut payload: Vec<u8> = Vec::new();
    extend_bytes(&mut payload, app_tag.as_bytes());
    extend_bytes(&mut payload, hash.as_bytes());
    payload
}

/// Splits a confirmation into file tag and hash.
pub fn parse_reply_payload(payload: &[u8]) -> (r: Result<(String, String), &'static str>)
    ensures
        match r {
            Ok((file_tag, hash)) => {
                &&& parse_reply(payload@) matches Some((t, h))
                &&& file_tag@ == utf8_lossy(t)
                &&& (valid_utf8(t) ==> file_tag@ == decode_utf8(t))
                &&& hash@ == utf8_lossy(h)
                &&& (valid_utf8(h) ==> hash@ == decode_utf8(h))
            },
            Err(e) => parse_reply(payload@) is None && e@ == "Reply payload too short"@,
        },
{
    let len: usize = payload.len();
    if len < FILE_TAG_LEN {
        return Err("Reply payload too short");
    }
    let file_tag = decode_utf8_lossy(slice_subrange(payload, 0, FILE_TAG_LEN));
    let hash = decode_utf8_lossy(slice_subrange(payload, FILE_TAG_LEN, len));
    Ok((file_tag, hash))
}

/// Whether `reply` is the receiver's answer to the handshake for
/// `file_tag`: its text starts with `READY:<tag>`.
pub fn is_ready_reply(reply: &[u8], file_tag: &str) -> (b: bool)
    ensures
        b == is_prefix_of(ready_chars(file_tag@), utf8_lossy(reply@)),
        valid_utf8(reply@) ==> b == is_prefix_of(ready_chars(file_tag@), decode_utf8(reply@)),
{
    let text = decode_utf8_lossy(reply);
    let text_chars = chars_of(text.as_str());
    let mut expected: Vec<char> = Vec::new();
    push_ascii(&mut expected, 'R');
    push_ascii(&mut expected, 'E');
    push_ascii(&mut expected, 'A');
    push_ascii(&mut expected, 'D');
    push_ascii(&mut expected, 'Y');
    push_ascii(&mut expected, ':');
    let tag = chars_of(file_tag);
    extend_chars(&mut expected, tag.as_slice());
    assert(expected@ == ready_chars(file_tag@));
    starts_with(text_chars.as_slice(), expected.as_slice())
}

/// What the sender makes of a message that arrives after its chunk.
#[derive(PartialEq, Eq, Structural, Debug, Clone, Copy)]
pub enum ReplyKind {
    /// An empty message, which is skipped.
    Empty,
    /// A request to send the chunk again.
    ResendRequest,
    /// The receiver's confirmation.
    Reply,
}

/// The kind of a message of `len` bytes whose text is `text`.
pub open spec fn reply_kind(len: nat, text: Seq<char>) -> ReplyKind {
    if len == 0 {
        ReplyKind::Empty
    } else if is_prefix_of(resend_prefix(), text) {
        ReplyKind::ResendRequest
    } else {
        ReplyKind::Reply
    }
}

/// Classifies a message that arrives while the sender waits for the
/// confirmation.
pub fn classify_reply(message: &[u8]) -> (k: ReplyKind)
    ensures
        k == reply_kind(message@.len(), utf8_lossy(message@)),
        valid_utf8(message@) ==> k == reply_kind(message@.len(), decode_utf8(message@)),
        (k == ReplyKind::Empty) <==> message@.len() == 0,
        (k == ReplyKind::ResendRequest) <==> (message@.len() > 0 && starts_with_resend(
            utf8_lossy(message@),
        )),
        (k == ReplyKind::Reply) <==> (message@.len() > 0 && !starts_with_resend(
            utf8_lossy(message@),
        )),
{
    proof {
        lemma_reply_kind_by_prefix(message@.len(), utf8_lossy(message@));
    }
    if message.len() == 0 {
        return ReplyKind::Empty;
    }
    let text = decode_utf8_lossy(message);
    let text_chars = chars_of(text.as_str());
    let mut prefix: Vec<char> = Vec::new();
    push_ascii(&mut prefix, 'R');
    push_ascii(&mut prefix, 'E');
    push_ascii(&mut prefix, 'S');
    push_ascii(&mut prefix, 'E');
    push_ascii(&mut prefix, 'N');
    push_ascii(&mut prefix, 'D');
    push_ascii(&mut prefix, ':');
    assert(prefix@ == resend_prefix());
    if starts_with(text_chars.as_slice(), prefix.as_slice()) {
        ReplyKind::ResendRequest
    } else {
        ReplyKind::Reply
    }
}

/// What the receiver reads from a chunk is what the sender wrote: header
/// fields, name, tag and data, provided each fits its field and the tag has
/// the tag length.
pub proof fn lemma_chunk_roundtrip(
    idx: nat,
    total: nat,
    size: nat,
    name: Seq<char>,
    tag: Seq<char>,
    data: Seq<u8>,
)
    requires
        idx < 0x1_0000_0000,
        total < 0x1_0000_0000,
        size < 0x1_0000_0000_0000_0000,
        encode_utf8(name).len() < 0x1_0000,
        encode_utf8(tag).len() == FILE_TAG_LEN,
    ensures
        parse_chunk(chunk_header(idx, total, size, encode_utf8(name), encode_utf8(tag)) + data)
            == Some(
            ChunkFields {
                chunk_idx: idx,
                total_chunks: total,
                file_size: size,
                name: encode_utf8(name),
                tag: encode_utf8(tag),
                data: data,
            },
        ),
        valid_utf8(encode_utf8(name)) && decode_utf8(encode_utf8(name)) == name,
        valid_utf8(encode_utf8(tag)) && decode_utf8(encode_utf8(tag)) == tag,
{
    let nb = encode_utf8(name);
    let tb = encode_utf8(tag);
    let p = chunk_header(idx, total, size, nb, tb) + data;
    let n = nb.len() as int;
    reveal_with_fuel(pow256, 9);
    lemma_be_roundtrip_small(idx, 4);
    lemma_be_roundtrip_small(total, 4);
    lemma_be_roundtrip_small(size, 8);
    lemma_be_roundtrip_small(n as nat, 2);
    assert(p.subrange(0, 4) == be_encode(idx, 4));
    assert(p.subrange(4, 8) == be_encode(total, 4));
    assert(p.subrange(8, 16) == be_encode(size, 8));
    assert(p.subrange(16, 18) == be_encode(n as nat, 2));
    assert(p.subrange(18, 18 + n) == nb);
    assert(p.subrange(18 + n, 40 + n) == tb);
    assert(p.subrange(40 + n, p.len() as int) == data);
    encode_utf8_valid_utf8(name);
    encode_utf8_decode_utf8(name);
    encode_utf8_valid_utf8(tag);
    encode_utf8_decode_utf8(tag);
}

/// A handshake is a chunk header with the handshake index, zero count and
/// size, and no name; the receiver reads it back as such, with no data.
pub proof fn lemma_handshake_is_chunk_header(tag: Seq<char>)
    requires
        encode_utf8(tag).len() == FILE_TAG_LEN,
    ensures
        handshake(encode_utf8(tag)) == chunk_header(
            HANDSHAKE_CHUNK_IDX as nat,
            0,
            0,
            Seq::empty(),
            encode_utf8(tag),
        ),
        handshake(encode_utf8(tag)).len() == MIN_CHUNK_PAYLOAD_LEN,
        parse_chunk(handshake(encode_utf8(tag))) == Some(
            ChunkFields {
                chunk_idx: HANDSHAKE_CHUNK_IDX as nat,
                total_chunks: 0,
                file_size: 0,
                name: Seq::empty(),
                tag: encode_utf8(tag),
                data: Seq::empty(),
            },
        ),
{
    let tb = encode_utf8(tag);
    let e: Seq<u8> = Seq::empty();
    assert(handshake(tb) == chunk_header(HANDSHAKE_CHUNK_IDX as nat, 0, 0, e, tb));
    assert(encode_utf8(Seq::<char>::empty()) == e);
    lemma_chunk_roundtrip(HANDSHAKE_CHUNK_IDX as nat, 0, 0, Seq::empty(), tag, e);
    assert(chunk_header(HANDSHAKE_CHUNK_IDX as nat, 0, 0, e, tb) + e == chunk_header(
        HANDSHAKE_CHUNK_IDX as nat,
        0,
        0,
        e,
        tb,
    ));
    crate::codec::lemma_be_encode_len(HANDSHAKE_CHUNK_IDX as nat, 4);
    crate::codec::lemma_be_encode_len(0, 4);
    crate::codec::lemma_be_encode_len(0, 8);
    crate::codec::lemma_be_encode_len(0, 2);
}

/// The sender reads back from a confirmation the tag and hash that the
/// receiver put in, provided the tag has the tag length.
pub proof fn lemma_reply_roundtrip(tag: Seq<char>, hash: Seq<char>)
    requires
        encode_utf8(tag).len() == FILE_TAG_LEN,
    ensures
        parse_reply(encode_utf8(tag) + encode_utf8(hash)) == Some((encode_utf8(tag), encode_utf8(hash))),
        valid_utf8(encode_utf8(tag)) && decode_utf8(encode_utf8(tag)) == tag,
        valid_utf8(encode_utf8(hash)) && decode_utf8(encode_utf8(hash)) == hash,
{
    let p = encode_utf8(tag) + encode_utf8(hash);
    assert(p.subrange(0, FILE_TAG_LEN as int) == encode_utf8(tag));
    assert(p.subrange(FILE_TAG_LEN as int, p.len() as int) == encode_utf8(hash));
    encode_utf8_valid_utf8(tag);
    encode_utf8_decode_utf8(tag);
    encode_utf8_valid_utf8(hash);
    encode_utf8_decode_utf8(hash);
}

/// The receiver's answer to a handshake is valid UTF-8 and passes the
/// sender's readiness check for the same tag.
pub proof fn lemma_ready_reply_accepted(tag: Seq<char>)
    ensures
        valid_utf8(encode_utf8(ready_chars(tag))),
        is_prefix_of(ready_chars(tag), decode_utf8(encode_utf8(ready_chars(tag)))),
{
    encode_utf8_valid_utf8(ready_chars(tag));
    encode_utf8_decode_utf8(ready_chars(tag));
    assert(ready_chars(tag).subrange(0, ready_chars(tag).len() as int) == ready_chars(tag));
}

/// A resend request is valid UTF-8 and the sender classifies it as one.
pub proof fn lemma_resend_request_recognized(chunk_idx: nat)
    ensures
        valid_utf8(encode_utf8(resend_chars(chunk_idx))),
        reply_kind(
            encode_utf8(resend_chars(chunk_idx)).len(),
            decode_utf8(encode_utf8(resend_chars(chunk_idx))),
        ) == ReplyKind::ResendRequest,
{
    let c = resend_chars(chunk_idx);
    encode_utf8_valid_utf8(c);
    encode_utf8_decode_utf8(c);
    assert(c.subrange(0, 7) == resend_prefix());
    if encode_utf8(c).len() == 0 {
        assert(decode_utf8(encode_utf8(c)).len() == 0);
    }
}

/// `text` starts with the seven characters `RESEND:`.
pub open spec fn starts_with_resend(text: Seq<char>) -> bool {
    &&& text.len() >= 7
    &&& text[0] == 'R'
    &&& text[1] == 'E'
    &&& text[2] == 'S'
    &&& text[3] == 'E'
    &&& text[4] == 'N'
    &&& text[5] == 'D'
    &&& text[6] == ':'
}

/// The sender skips only an empty message, takes a message for a resend
/// request exactly when its text starts with `RESEND:`, and takes every
/// other message, whatever its length, for the confirmation.
pub proof fn lemma_reply_kind_by_prefix(len: nat, text: Seq<char>)
    ensures
        (reply_kind(len, text) == ReplyKind::Empty) <==> len == 0,
        (reply_kind(len, text) == ReplyKind::ResendRequest) <==> (len > 0 && starts_with_resend(
            text,
        )),
        (reply_kind(len, text) == ReplyKind::Reply) <==> (len > 0 && !starts_with_resend(text)),
{
    if starts_with_resend(text) {
        assert(text.subrange(0, 7) == resend_prefix());
    }
    if text.len() >= 7 && text.subrange(0, 7) == resend_prefix() {
        assert(text[6] == text.subrange(0, 7)[6]);
        assert(text[0] == text.subrange(0, 7)[0]);
        assert(text[1] == text.subrange(0, 7)[1]);
        assert(text[2] == text.subrange(0, 7)[2]);
        assert(text[3] == text.subrange(0, 7)[3]);
        assert(text[4] == text.subrange(0, 7)[4]);
        assert(text[5] == text.subrange(0, 7)[5]);
    }
}

/// Encoding a text piece by piece gives the encoding of the whole.
pub proof fn lemma_encode_utf8_concat(a: Seq<char>, b: Seq<char>)
    ensures
        encode_utf8(a + b) == encode_utf8(a) + encode_utf8(b),
    decreases a.len(),
{
    if a.len() == 0 {
        assert(a + b == b);
    } else {
        lemma_encode_utf8_concat(a.drop_first(), b);
        assert((a + b).drop_first() == a.drop_first() + b);
        assert((a + b)[0] == a[0]);
    }
}

/// The confirmation that the receiver builds, a tag without `:` followed
/// by a hash, is valid UTF-8 and the sender takes it for the confirmation,
/// never for a resend request, whatever the hash.
pub proof fn lemma_confirmation_is_reply(tag: Seq<char>, hash: Seq<char>)
    requires
        tag.len() == FILE_TAG_LEN,
        forall|k: int| 0 <= k < tag.len() ==> tag[k] != ':',
    ensures
        valid_utf8(encode_utf8(tag) + encode_utf8(hash)),
        decode_utf8(encode_utf8(tag) + encode_utf8(hash)) == tag + hash,
        reply_kind(
            (encode_utf8(tag) + encode_utf8(hash)).len(),
            decode_utf8(encode_utf8(tag) + encode_utf8(hash)),
        ) == ReplyKind::Reply,
{
    lemma_encode_utf8_concat(tag, hash);
    encode_utf8_valid_utf8(tag + hash);
    encode_utf8_decode_utf8(tag + hash);
    let bytes = encode_utf8(tag) + encode_utf8(hash);
    let text = tag + hash;
    assert(text[6] == tag[6]);
    assert(!starts_with_resend(text));
    if bytes.len() == 0 {
        assert(decode_utf8(bytes).len() == 0);
    }
    lemma_reply_kind_by_prefix(bytes.len(), text);
}

} // verus!
