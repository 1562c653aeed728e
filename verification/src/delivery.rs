//! What the receiver's file holds once the chunks of a message are written,
//! and the end-to-end guarantee that a delivered message is confirmed with
//! the sender's own fingerprint.
//!
//! The receiver first sizes the file to `expected_file_len(total_chunks)`,
//! writes each new chunk at `chunk_offset(chunk_idx)`, and once every chunk
//! came cuts the file to the announced size.
use vstd::prelude::*;
use vstd::utf8::{encode_utf8, valid_utf8, decode_utf8};
use crate::receiver::CHUNK_SIZE;
use crate::protocol::{
    ChunkFields, FILE_TAG_LEN, MAX_PAYLOAD_BYTES, chunk_header, parse_chunk, parse_reply,
    lemma_chunk_roundtrip, lemma_reply_roundtrip,
};
use crate::digest::fingerprint;

verus! {

/// `file` after `set_len(len)`: cut, or extended with zeros.
pub open spec fn resized(file: Seq<u8>, len: nat) -> Seq<u8> {
    Seq::new(len, |k: int| if k < file.len() { file[k] } else { 0u8 })
}

/// `file` after writing `data` at `offset`: the bytes there are replaced,
/// and the file grows, zero-filled, when the data reaches past its end.
pub open spec fn written_at(file: Seq<u8>, offset: nat, data: Seq<u8>) -> Seq<u8> {
    let end = if file.len() >= offset + data.len() {
        file.len()
    } else {
        offset + data.len()
    };
    Seq::new(
        end,
        |k: int|
            if offset <= k < offset + data.len() {
                data[k - offset]
            } else if k < file.len() {
                file[k]
            } else {
                0u8
            },
    )
}

/// `min(a, b)`.
pub open spec fn min_nat(a: nat, b: nat) -> nat {
    if a <= b {
        a
    } else {
        b
    }
}

/// The part of `data` that chunk `i` carries.
pub open spec fn chunk_piece(data: Seq<u8>, i: nat) -> Seq<u8> {
    data.subrange(
        min_nat(i * (CHUNK_SIZE as nat), data.len()) as int,
        min_nat((i + 1) * (CHUNK_SIZE as nat), data.len()) as int,
    )
}

/// `file` after the chunks of `data` numbered by `order` were written, in
/// that order, each at its offset.
pub open spec fn write_chunks(file: Seq<u8>, data: Seq<u8>, order: Seq<nat>) -> Seq<u8>
    decreases order.len(),
{
    if order.len() == 0 {
        file
    } else {
        let i = order.last();
        written_at(write_chunks(file, data, order.drop_last()), i * (CHUNK_SIZE as nat), chunk_piece(data, i))
    }
}

proof fn lemma_chunk_of_position(p: int, j: int)
    requires
        0 <= p,
        0 <= j,
    ensures
        (j * (CHUNK_SIZE as nat) <= p < (j + 1) * (CHUNK_SIZE as nat)) <==> p / (CHUNK_SIZE as int) == j,
{
    let c = CHUNK_SIZE as int;
    assert(p == c * (p / c) + p % c) by (nonlinear_arith)
        requires
            c > 0,
    ;
    assert(0 <= p % c < c) by (nonlinear_arith)
        requires
            c > 0,
    ;
    if j * c <= p < (j + 1) * c {
        if p / c < j {
            assert(c * (p / c) <= c * (j - 1)) by (nonlinear_arith)
                requires
                    p / c <= j - 1,
                    c > 0,
            ;
        }
        if p / c > j {
            assert(c * (p / c) >= c * (j + 1)) by (nonlinear_arith)
                requires
                    p / c >= j + 1,
                    c > 0,
            ;
        }
    }
    if p / c == j {
        assert(c * (p / c) == j * c) by (nonlinear_arith)
            requires
                p / c == j,
        ;
    }
}

proof fn lemma_write_chunks_content(data: Seq<u8>, n: nat, order: Seq<nat>)
    requires
        data.len() <= n * (CHUNK_SIZE as nat),
        forall|k: int| 0 <= k < order.len() ==> #[trigger] order[k] < n,
    ensures
        write_chunks(resized(Seq::empty(), n * (CHUNK_SIZE as nat)), data, order).len() == n * (CHUNK_SIZE as nat),
        forall|p: int|
            0 <= p < n * (CHUNK_SIZE as nat) ==> #[trigger] write_chunks(
                resized(Seq::empty(), n * (CHUNK_SIZE as nat)),
                data,
                order,
            )[p] == if p < data.len() && order.contains((p / (CHUNK_SIZE as int)) as nat) {
                data[p]
            } else {
                0u8
            },
    decreases order.len(),
{
    let c = CHUNK_SIZE as int;
    let init = resized(Seq::empty(), n * (CHUNK_SIZE as nat));
    if order.len() == 0 {
        assert forall|p: int| 0 <= p < n * (CHUNK_SIZE as nat) implies #[trigger] init[p] == 0u8 by {}
    } else {
        let prev_order = order.drop_last();
        let j = order.last();
        lemma_write_chunks_content(data, n, prev_order);
        let prev = write_chunks(init, data, prev_order);
        let piece = chunk_piece(data, j);
        let lo = min_nat(j * (CHUNK_SIZE as nat), data.len());
        let hi = min_nat((j + 1) * (CHUNK_SIZE as nat), data.len());
        assert(j < n);
        assert((j + 1) * c <= n * c) by (nonlinear_arith)
            requires
                j + 1 <= n,
                c > 0,
        ;
        assert(j * c + piece.len() <= n * c);
        let cur = write_chunks(init, data, order);
        assert(cur == written_at(prev, j * (CHUNK_SIZE as nat), piece));
        assert forall|p: int| 0 <= p < n * (CHUNK_SIZE as nat) implies #[trigger] cur[p] == if p < data.len()
            && order.contains((p / c) as nat) {
            data[p]
        } else {
            0u8
        } by {
            lemma_chunk_of_position(p, j as int);
            let q = (p / c) as nat;
            assert(order.contains(q) <==> prev_order.contains(q) || q == j) by {
                if order.contains(q) && q != j {
                    let k = choose|k: int| 0 <= k < order.len() && order[k] == q;
                    assert(k < order.len() - 1);
                    assert(prev_order[k] == q);
                }
                if prev_order.contains(q) {
                    let k = choose|k: int| 0 <= k < prev_order.len() && prev_order[k] == q;
                    assert(order[k] == q);
                }
                if q == j {
                    assert(order[order.len() - 1] == q);
                }
            }
            if j * c <= p < j * c + piece.len() {
                assert(p < data.len());
                assert(piece[p - j * c] == data[p]);
            }
        }
    }
}

/// `file` after the chunks numbered by `order` were written, in that order,
/// each at its offset, chunk `i` carrying `pieces[i]`.
pub open spec fn write_pieces(file: Seq<u8>, pieces: Seq<Seq<u8>>, order: Seq<nat>) -> Seq<u8>
    decreases order.len(),
{
    if order.len() == 0 {
        file
    } else {
        let i = order.last();
        written_at(
            write_pieces(file, pieces, order.drop_last()),
            i * (CHUNK_SIZE as nat),
            pieces[i as int],
        )
    }
}

/// Whatever chunks arrive, in whatever order, each carrying at most a
/// chunk's worth of bytes: in the file sized for `n` chunks, each byte of
/// the region of chunk `q` holds what chunk `q` carried there when it came
/// and reached that far, and zero otherwise; the file keeps its size.
pub proof fn lemma_pieces_in_place(pieces: Seq<Seq<u8>>, n: nat, order: Seq<nat>)
    requires
        pieces.len() == n,
        forall|i: int| 0 <= i < n ==> #[trigger] pieces[i].len() <= CHUNK_SIZE,
        forall|k: int| 0 <= k < order.len() ==> #[trigger] order[k] < n,
    ensures
        write_pieces(resized(Seq::empty(), n * (CHUNK_SIZE as nat)), pieces, order).len() == n * (
        CHUNK_SIZE as nat),
        forall|p: int|
            0 <= p < n * (CHUNK_SIZE as nat) ==> {
                let q = p / (CHUNK_SIZE as int);
                let r = p - q * (CHUNK_SIZE as int);
                #[trigger] write_pieces(resized(Seq::empty(), n * (CHUNK_SIZE as nat)), pieces, order)[p]
                    == if order.contains(q as nat) && r < pieces[q].len() {
                    pieces[q][r]
                } else {
                    0u8
                }
            },
    decreases order.len(),
{
    let c = CHUNK_SIZE as int;
    let init = resized(Seq::empty(), n * (CHUNK_SIZE as nat));
    if order.len() == 0 {
        assert forall|p: int| 0 <= p < n * (CHUNK_SIZE as nat) implies #[trigger] init[p] == 0u8 by {}
    } else {
        let prev_order = order.drop_last();
        let j = order.last();
        assert forall|k: int| 0 <= k < prev_order.len() implies #[trigger] prev_order[k] < n by {
            assert(prev_order[k] == order[k]);
        }
        lemma_pieces_in_place(pieces, n, prev_order);
        let prev = write_pieces(init, pieces, prev_order);
        let piece = pieces[j as int];
        assert(j < n);
        assert((j + 1) * c <= n * c) by (nonlinear_arith)
            requires
                j + 1 <= n,
                c > 0,
        ;
        assert(j * c + piece.len() <= n * c);
        let cur = write_pieces(init, pieces, order);
        assert(cur == written_at(prev, j * (CHUNK_SIZE as nat), piece));
        assert forall|p: int| 0 <= p < n * (CHUNK_SIZE as nat) implies {
            let q = p / c;
            let r = p - q * c;
            #[trigger] cur[p] == if order.contains(q as nat) && r < pieces[q].len() {
                pieces[q][r]
            } else {
                0u8
            }
        } by {
            lemma_chunk_of_position(p, j as int);
            let q = p / c;
            assert(0 <= q) by (nonlinear_arith)
                requires
                    0 <= p,
                    q == p / c,
                    c > 0,
            ;
            assert(order.contains(q as nat) <==> prev_order.contains(q as nat) || q == j) by {
                if order.contains(q as nat) && q != j {
                    let k = choose|k: int| 0 <= k < order.len() && order[k] == q as nat;
                    assert(k < order.len() - 1);
                    assert(prev_order[k] == q as nat);
                }
                if prev_order.contains(q as nat) {
                    let k = choose|k: int| 0 <= k < prev_order.len() && prev_order[k] == q as nat;
                    assert(order[k] == q as nat);
                }
                if q == j {
                    assert(order[order.len() - 1] == q as nat);
                }
            }
            if q == j {
                assert(p - q * c == p - j * c);
            }
        }
    }
}

/// The received file, whatever each chunk carried: once every one of the
/// `n` chunks came, in any order, and the file is cut to `size` bytes, byte
/// `p` holds what its chunk carried at that place, or zero where the chunk
/// carried less.
pub proof fn lemma_received_file(pieces: Seq<Seq<u8>>, n: nat, order: Seq<nat>, size: nat)
    requires
        pieces.len() == n,
        forall|i: int| 0 <= i < n ==> #[trigger] pieces[i].len() <= CHUNK_SIZE,
        forall|k: int| 0 <= k < order.len() ==> #[trigger] order[k] < n,
        forall|i: nat| i < n ==> order.contains(i),
        size <= n * (CHUNK_SIZE as nat),
    ensures
        resized(write_pieces(resized(Seq::empty(), n * (CHUNK_SIZE as nat)), pieces, order), size).len()
            == size,
        forall|p: int|
            0 <= p < size ==> {
                let q = p / (CHUNK_SIZE as int);
                let r = p - q * (CHUNK_SIZE as int);
                #[trigger] resized(
                    write_pieces(resized(Seq::empty(), n * (CHUNK_SIZE as nat)), pieces, order),
                    size,
                )[p] == if r < pieces[q].len() {
                    pieces[q][r]
                } else {
                    0u8
                }
            },
{
    let c = CHUNK_SIZE as int;
    lemma_pieces_in_place(pieces, n, order);
    let file = write_pieces(resized(Seq::empty(), n * (CHUNK_SIZE as nat)), pieces, order);
    assert forall|p: int| 0 <= p < size implies {
        let q = p / c;
        let r = p - q * c;
        #[trigger] resized(file, size)[p] == if r < pieces[q].len() {
            pieces[q][r]
        } else {
            0u8
        }
    } by {
        let q = p / c;
        assert(0 <= q < n) by (nonlinear_arith)
            requires
                0 <= p < size,
                size <= n * c,
                q == p / c,
                c > 0,
        ;
        assert(order.contains(q as nat));
    }
}

/// Whatever the order in which the chunks of `data` arrive, once each of
/// the `n` chunks has been written into the file sized for `n` chunks and
/// the file is cut to the data's length, the file holds exactly `data`.
pub proof fn lemma_chunks_reassemble(data: Seq<u8>, n: nat, order: Seq<nat>)
    requires
        data.len() <= n * (CHUNK_SIZE as nat),
        forall|k: int| 0 <= k < order.len() ==> #[trigger] order[k] < n,
        forall|i: nat| i < n ==> order.contains(i),
    ensures
        resized(write_chunks(resized(Seq::empty(), n * (CHUNK_SIZE as nat)), data, order), data.len())
            == data,
{
    let c = CHUNK_SIZE as int;
    lemma_write_chunks_content(data, n, order);
    let file = write_chunks(resized(Seq::empty(), n * (CHUNK_SIZE as nat)), data, order);
    assert forall|p: int| 0 <= p < data.len() implies #[trigger] resized(file, data.len())[p]
        == data[p] by {
        let q = p / c;
        assert(q < n) by (nonlinear_arith)
            requires
                0 <= p < data.len(),
                data.len() <= n * c,
                q == p / c,
                c > 0,
        ;
        assert(0 <= q) by (nonlinear_arith)
            requires
                0 <= p,
                q == p / c,
                c > 0,
        ;
        assert(order.contains(q as nat));
    }
    assert(resized(file, data.len()) == data);
}

/// A message that the sender sends as one chunk is received intact and
/// confirmed with the sender's own fingerprint: the receiver reads the
/// chunk's fields back, its one-chunk file holds exactly the message, and
/// the sender reads back from the confirmation the tag and the fingerprint
/// of the message.
pub proof fn lemma_delivered_message_confirmed(
    message: Seq<char>,
    filename: Seq<char>,
    tag: Seq<char>,
)
    requires
        encode_utf8(message).len() <= MAX_PAYLOAD_BYTES,
        encode_utf8(filename).len() < 0x1_0000,
        encode_utf8(tag).len() == FILE_TAG_LEN,
    ensures
        ({
            let data = encode_utf8(message);
            let file = resized(
                write_chunks(resized(Seq::empty(), 1 * (CHUNK_SIZE as nat)), data, seq![0nat]),
                data.len(),
            );
            &&& parse_chunk(
                chunk_header(0, 1, data.len(), encode_utf8(filename), encode_utf8(tag)) + data,
            ) == Some(
                ChunkFields {
                    chunk_idx: 0,
                    total_chunks: 1,
                    file_size: data.len(),
                    name: encode_utf8(filename),
                    tag: encode_utf8(tag),
                    data: data,
                },
            )
            &&& file == data
            &&& parse_reply(encode_utf8(tag) + encode_utf8(fingerprint(file))) == Some(
                (encode_utf8(tag), encode_utf8(fingerprint(data))),
            )
            &&& valid_utf8(encode_utf8(fingerprint(data)))
            &&& decode_utf8(encode_utf8(fingerprint(data))) == fingerprint(data)
        }),
{
    let data = encode_utf8(message);
    lemma_chunk_roundtrip(0, 1, data.len(), filename, tag, data);
    let order = seq![0nat];
    assert(order.contains(0nat)) by {
        assert(order[0] == 0nat);
    }
    lemma_chunks_reassemble(data, 1, order);
    lemma_reply_roundtrip(tag, fingerprint(data));
}

} // verus!
