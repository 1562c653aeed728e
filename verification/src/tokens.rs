//! Random file tags and file names for outgoing messages.
use vstd::prelude::*;
use vstd::utf8::{encode_utf8, is_ascii_chars, is_ascii_chars_encode_utf8};
use rand::Rng;
use crate::protocol::FILE_TAG_LEN;
use crate::text::string_from_chars;

verus! {

/// Number of characters a file tag is drawn from: `A-Z`, `a-z`, `0-9`.
pub const FILE_TAG_CHARSET_LEN: usize = 62;

/// Number of characters a file name is drawn from: `a-z`, `0-9`.
pub const FILENAME_CHARSET_LEN: usize = 36;

/// Number of random characters in a file name, before its extension.
pub const RANDOM_NAME_LEN: usize = 12;

/// Character `i` of `ABCDEFGHIJKLMNOPQRSTUVWXYZabcdefghijklmnopqrstuvwxyz0123456789`.
pub open spec fn tag_charset_char(i: nat) -> char {
    if i < 26 {
        ((65 + i) as u8) as char
    } else if i < 52 {
        ((97 + i - 26) as u8) as char
    } else {
        ((48 + i - 52) as u8) as char
    }
}

/// Character `i` of `abcdefghijklmnopqrstuvwxyz0123456789`.
pub open spec fn name_charset_char(i: nat) -> char {
    if i < 26 {
        ((97 + i) as u8) as char
    } else {
        ((48 + i - 26) as u8) as char
    }
}

/// The characters that `indices` select from the tag character set.
pub open spec fn tag_chars(indices: Seq<usize>) -> Seq<char> {
    indices.map_values(|i: usize| tag_charset_char(i as nat))
}

/// The characters that `indices` select from the name character set.
pub open spec fn name_chars(indices: Seq<usize>) -> Seq<char> {
    indices.map_values(|i: usize| name_charset_char(i as nat))
}

/// `c` is an ASCII letter or digit.
pub open spec fn is_alphanumeric_ascii(c: char) -> bool {
    ('A' <= c <= 'Z') || ('a' <= c <= 'z') || ('0' <= c <= '9')
}

/// `c` is a lowercase ASCII letter or a digit.
pub open spec fn is_lower_alphanumeric_ascii(c: char) -> bool {
    ('a' <= c <= 'z') || ('0' <= c <= '9')
}

/// The tag character set is the 62 ASCII letters and digits, each once:
/// every index below `FILE_TAG_CHARSET_LEN` gives a letter or digit,
/// distinct indices give distinct characters, and every letter or digit is
/// given by some index.
pub proof fn lemma_tag_charset_whole(c: char)
    ensures
        forall|i: nat| i < FILE_TAG_CHARSET_LEN ==> is_alphanumeric_ascii(#[trigger] tag_charset_char(i)),
        forall|i: nat, j: nat|
            i < FILE_TAG_CHARSET_LEN && j < FILE_TAG_CHARSET_LEN && i != j ==> #[trigger] tag_charset_char(i)
                != #[trigger] tag_charset_char(j),
        is_alphanumeric_ascii(c) ==> exists|i: nat| i < FILE_TAG_CHARSET_LEN && #[trigger] tag_charset_char(i) == c,
{
    assert forall|i: nat| i < FILE_TAG_CHARSET_LEN implies (#[trigger] tag_charset_char(i)) as u32 == (if i < 26 {
        65int + i
    } else if i < 52 {
        97int + i - 26
    } else {
        48int + i - 52
    }) by {}
    if is_alphanumeric_ascii(c) {
        let v = c as u32;
        let i: nat = if 'A' <= c <= 'Z' {
            (v - 65) as nat
        } else if 'a' <= c <= 'z' {
            (v - 97 + 26) as nat
        } else {
            (v - 48 + 52) as nat
        };
        assert(tag_charset_char(i) as u32 == v);
        assert(tag_charset_char(i) == c);
    }
}

/// A uniformly drawn index below `bound`.
///
/// Calls `rand::Rng::gen_range` on `rand::thread_rng()`. Trusted: the result
/// is below `bound`; which value comes is chance.
#[verifier::external_body]
fn random_below(bound: usize) -> (i: usize)
    requires
        bound > 0,
    ensures
        i < bound,
{
    rand::thread_rng().gen_range(0..bound)
}

fn tag_charset_at(i: usize) -> (c: char)
    requires
        i < FILE_TAG_CHARSET_LEN,
    ensures
        c == tag_charset_char(i as nat),
{
    let b: u8 = i as u8;
    if b < 26 {
        (b + 65) as char
    } else if b < 52 {
        (b - 26 + 97) as char
    } else {
        (b - 52 + 48) as char
    }
}

fn name_charset_at(i: usize) -> (c: char)
    requires
        i < FILENAME_CHARSET_LEN,
    ensures
        c == name_charset_char(i as nat),
{
    let b: u8 = i as u8;
    if b < 26 {
        (b + 97) as char
    } else {
        (b - 26 + 48) as char
    }
}

/// The tag that `indices` select from the tag character set.
pub fn tag_from_indices(indices: &[usize]) -> (tag: String)
    requires
        forall|k: int| 0 <= k < indices@.len() ==> indices@[k] < FILE_TAG_CHARSET_LEN,
    ensures
        tag@ == tag_chars(indices@),
{
    let mut chars: Vec<char> = Vec::new();
    let n: usize = indices.len();
    let mut k: usize = 0;
    while k < n
        invariant
            n == indices@.len(),
            k <= n,
            forall|m: int| 0 <= m < indices@.len() ==> indices@[m] < FILE_TAG_CHARSET_LEN,
            chars@ == tag_chars(indices@.subrange(0, k as int)),
        decreases n - k,
    {
        chars.push(tag_charset_at(indices[k]));
        k = k + 1;
        assert(chars@ == tag_chars(indices@.subrange(0, k as int)));
    }
    assert(indices@.subrange(0, n as int) == indices@);
    string_from_chars(chars.as_slice())
}

/// The file name that `indices` select from the name character set,
/// followed by `.txt`.
pub fn filename_from_indices(indices: &[usize]) -> (name: String)
    requires
        forall|k: int| 0 <= k < indices@.len() ==> indices@[k] < FILENAME_CHARSET_LEN,
    ensures
        name@ == name_chars(indices@) + seq!['.', 't', 'x', 't'],
{
    let mut chars: Vec<char> = Vec::new();
    let n: usize = indices.len();
    let mut k: usize = 0;
    while k < n
        invariant
            n == indices@.len(),
            k <= n,
            forall|m: int| 0 <= m < indices@.len() ==> indices@[m] < FILENAME_CHARSET_LEN,
            chars@ == name_chars(indices@.subrange(0, k as int)),
        decreases n - k,
    {
        chars.push(name_charset_at(indices[k]));
        k = k + 1;
        assert(chars@ == name_chars(indices@.subrange(0, k as int)));
    }
    assert(indices@.subrange(0, n as int) == indices@);
    chars.push('.');
    chars.push('t');
    chars.push('x');
    chars.push('t');
    string_from_chars(chars.as_slice())
}

/// `r` is a value that a uniform draw below `bound` can give.
pub closed spec fn drawn_below(bound: usize, r: usize) -> bool {
    call_ensures(random_below, (bound,), r)
}

/// A value that a draw below `bound` gives is below `bound`.
pub proof fn lemma_drawn_below(bound: usize, r: usize)
    requires
        drawn_below(bound, r),
    ensures
        r < bound,
{
}

fn random_indices(count: usize, bound: usize) -> (indices: Vec<usize>)
    requires
        bound > 0,
    ensures
        indices@.len() == count,
        forall|k: int| 0 <= k < indices@.len() ==> #[trigger] drawn_below(bound, indices@[k]),
        forall|k: int| 0 <= k < indices@.len() ==> indices@[k] < bound,
{
    let draw = random_below;
    let mut indices: Vec<usize> = Vec::new();
    let mut k: usize = 0;
    while k < count
        invariant
            k <= count,
            bound > 0,
            indices@.len() == k,
            forall|m: int| 0 <= m < indices@.len() ==> #[trigger] drawn_below(bound, indices@[m]),
            forall|m: int| 0 <= m < indices@.len() ==> indices@[m] < bound,
        decreases count - k,
    {
        let r = draw(bound);
        indices.push(r);
        k = k + 1;
    }
    indices
}

/// A fresh random file tag: `FILE_TAG_LEN` ASCII letters and digits, so
/// also `FILE_TAG_LEN` bytes, each character the one at an index drawn
/// below `FILE_TAG_CHARSET_LEN`, over the whole tag character set.
pub fn generate_file_tag() -> (tag: String)
    ensures
        exists|idx: Seq<usize>|
            {
                &&& idx.len() == FILE_TAG_LEN
                &&& forall|k: int| 0 <= k < idx.len() ==> #[trigger] drawn_below(FILE_TAG_CHARSET_LEN, idx[k])
                &&& tag@ == tag_chars(idx)
            },
        tag@.len() == FILE_TAG_LEN,
        forall|k: int| 0 <= k < tag@.len() ==> is_alphanumeric_ascii(#[trigger] tag@[k]),
        encode_utf8(tag@).len() == FILE_TAG_LEN,
{
    let indices = random_indices(FILE_TAG_LEN, FILE_TAG_CHARSET_LEN);
    let tag = tag_from_indices(indices.as_slice());
    proof {
        assert forall|k: int| 0 <= k < tag@.len() implies is_alphanumeric_ascii(#[trigger] tag@[k]) && '\0' <= tag@[k] <= '\u{7f}' by {
            assert(tag@[k] == tag_charset_char(indices@[k] as nat));
        }
        assert(is_ascii_chars(tag@));
        is_ascii_chars_encode_utf8(tag@);
        assert(tag@ == tag_chars(indices@));
    }
    tag
}

/// A fresh random file name: `RANDOM_NAME_LEN` lowercase ASCII letters and
/// digits followed by `.txt`, each of them the one at an index drawn below
/// `FILENAME_CHARSET_LEN`, over the whole name character set.
pub fn generate_random_filename() -> (name: String)
    ensures
        exists|idx: Seq<usize>|
            {
                &&& idx.len() == RANDOM_NAME_LEN
                &&& forall|k: int| 0 <= k < idx.len() ==> #[trigger] drawn_below(FILENAME_CHARSET_LEN, idx[k])
                &&& name@ == name_chars(idx) + seq!['.', 't', 'x', 't']
            },
        name@.len() == RANDOM_NAME_LEN + 4,
        forall|k: int| 0 <= k < RANDOM_NAME_LEN ==> is_lower_alphanumeric_ascii(#[trigger] name@[k]),
        name@.subrange(RANDOM_NAME_LEN as int, RANDOM_NAME_LEN + 4) == seq!['.', 't', 'x', 't'],
        encode_utf8(name@).len() == RANDOM_NAME_LEN + 4,
{
    let indices = random_indices(RANDOM_NAME_LEN, FILENAME_CHARSET_LEN);
    let name = filename_from_indices(indices.as_slice());
    proof {
        let ext = seq!['.', 't', 'x', 't'];
        assert forall|k: int| 0 <= k < RANDOM_NAME_LEN implies is_lower_alphanumeric_ascii(#[trigger] name@[k]) by {
            assert(name@[k] == name_charset_char(indices@[k] as nat));
        }
        assert forall|k: int| 0 <= k < name@.len() implies '\0' <= #[trigger] name@[k] <= '\u{7f}' by {
            if k < RANDOM_NAME_LEN {
                assert(name@[k] == name_charset_char(indices@[k] as nat));
            } else {
                assert(name@[k] == ext[k - RANDOM_NAME_LEN]);
            }
        }
        assert(name@.subrange(RANDOM_NAME_LEN as int, RANDOM_NAME_LEN + 4) == ext);
        assert(is_ascii_chars(name@));
        is_ascii_chars_encode_utf8(name@);
        assert(name@ == name_chars(indices@) + ext);
    }
    name
}

} // verus!
