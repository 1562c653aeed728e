//! Text helpers: UTF-8 decoding and conversions between strings and
//! character sequences.
use vstd::prelude::*;
use vstd::utf8::*;
use vstd::slice::slice_subrange;

verus! {

/// What `String::from_utf8_lossy` makes of `bytes`: the UTF-8 decoding, with
/// each maximal invalid subsequence replaced by U+FFFD.
pub uninterp spec fn utf8_lossy(bytes: Seq<u8>) -> Seq<char>;

/// Decodes `bytes` as UTF-8, replacing invalid sequences.
///
/// Calls `String::from_utf8_lossy` (std). Trusted: its result is named
/// `utf8_lossy(bytes)`, and on valid UTF-8 it is the plain decoding, as the
/// std documentation states. What is made of invalid input is left unsaid.
#[verifier::external_body]
pub(crate) fn decode_utf8_lossy(bytes: &[u8]) -> (s: String)
    ensures
        s@ == utf8_lossy(bytes@),
        valid_utf8(bytes@) ==> s@ == decode_utf8(bytes@),
{
    String::from_utf8_lossy(bytes).into_owned()
}

/// The characters of `s`, in order.
pub(crate) fn chars_of(s: &str) -> (v: Vec<char>)
    ensures
        v@ == s@,
{
    broadcast use vstd::string::axiom_spec_iter;
    let mut v: Vec<char> = Vec::new();
    for c in it: s.chars()
        invariant
            it.seq() == s@,
            v@ == it.seq().take(it.index()),
    {
        v.push(c);
    }
    v
}

/// The string made of the characters `chars`, in order.
///
/// Collects the characters into a `String` (std). Trusted to give `chars@`.
#[verifier::external_body]
pub(crate) fn string_from_chars(chars: &[char]) -> (s: String)
    ensures
        s@ == chars@,
{
    chars.iter().collect()
}

/// `p` is a prefix of `s`.
pub open spec fn is_prefix_of(p: Seq<char>, s: Seq<char>) -> bool {
    p.len() <= s.len() && s.subrange(0, p.len() as int) == p
}

/// `p` is a suffix of `s`.
pub open spec fn is_suffix_of(p: Seq<char>, s: Seq<char>) -> bool {
    p.len() <= s.len() && s.subrange(s.len() - p.len(), s.len() as int) == p
}

/// Whether `s` starts with `p` (`str::starts_with` on characters).
pub fn starts_with(s: &[char], p: &[char]) -> (b: bool)
    ensures
        b == is_prefix_of(p@, s@),
{
    let n: usize = p.len();
    if n > s.len() {
        return false;
    }
    let mut i: usize = 0;
    while i < n
        invariant
            n == p@.len(),
            n <= s@.len(),
            i <= n,
            forall|j: int| 0 <= j < i ==> s@[j] == p@[j],
        decreases n - i,
    {
        if s[i] != p[i] {
            assert(s@.subrange(0, n as int)[i as int] != p@[i as int]);
            return false;
        }
        i = i + 1;
    }
    assert(s@.subrange(0, n as int) == p@);
    true
}

/// Whether `s` ends with `p` (`str::ends_with` on characters).
pub fn ends_with(s: &[char], p: &[char]) -> (b: bool)
    ensures
        b == is_suffix_of(p@, s@),
{
    let n: usize = p.len();
    let m: usize = s.len();
    if n > m {
        return false;
    }
    let off: usize = m - n;
    let mut i: usize = 0;
    while i < n
        invariant
            n == p@.len(),
            m == s@.len(),
            off == m - n,
            i <= n,
            forall|j: int| 0 <= j < i ==> s@[off + j] == p@[j],
        decreases n - i,
    {
        if s[off + i] != p[i] {
            assert(s@.subrange(off as int, m as int)[i as int] != p@[i as int]);
            return false;
        }
        i = i + 1;
    }
    assert(s@.subrange(off as int, m as int) == p@);
    true
}

/// Whether `a` and `b` hold the same characters.
pub fn same_chars(a: &[char], b: &[char]) -> (eq: bool)
    ensures
        eq == (a@ == b@),
{
    if a.len() != b.len() {
        return false;
    }
    let r = starts_with(a, b);
    assert(a@ == a@.subrange(0, b@.len() as int));
    if !r {
        assert(a@ != b@);
    }
    r
}

/// Whether `a` and `b` are the same text.
pub fn same_text(a: &str, b: &str) -> (eq: bool)
    ensures
        eq == (a@ == b@),
{
    let ca = chars_of(a);
    let cb = chars_of(b);
    same_chars(ca.as_slice(), cb.as_slice())
}

/// Appends the characters of `src` to `out`.
pub fn extend_chars(out: &mut Vec<char>, src: &[char])
    ensures
        final(out)@ == old(out)@ + src@,
{
    let n: usize = src.len();
    let mut i: usize = 0;
    while i < n
        invariant
            n == src@.len(),
            i <= n,
            out@ == old(out)@ + src@.subrange(0, i as int),
        decreases n - i,
    {
        out.push(src[i]);
        i = i + 1;
        assert(src@.subrange(0, i as int) == src@.subrange(0, i - 1).push(src@[i - 1]));
    }
    assert(src@.subrange(0, n as int) == src@);
}

/// The decimal digit for `d`.
pub open spec fn digit_char(d: nat) -> char {
    ((d + 48) as u8) as char
}

/// The decimal representation of `n`, without leading zeros
/// (what `format!("{}", n)` prints).
pub open spec fn decimal(n: nat) -> Seq<char>
    decreases n,
{
    if n < 10 {
        seq![digit_char(n)]
    } else {
        decimal(n / 10).push(digit_char(n % 10))
    }
}

/// Appends the decimal representation of `n` to `out`.
pub fn push_decimal(out: &mut Vec<char>, n: usize)
    ensures
        final(out)@ == old(out)@ + decimal(n as nat),
    decreases n,
{
    if n >= 10 {
        push_decimal(out, n / 10);
    }
    let d: u8 = (n % 10) as u8;
    out.push((d + 48) as char);
    if n >= 10 {
        assert(decimal(n as nat) == decimal((n / 10) as nat).push(digit_char((n % 10) as nat)));
    }
}

/// The Unicode `White_Space` characters, which `char::is_whitespace` and
/// `str::trim` go by.
pub open spec fn is_white_space(c: char) -> bool {
    ||| ('\u{9}' <= c <= '\u{d}')
    ||| c == ' '
    ||| c == '\u{85}'
    ||| c == '\u{a0}'
    ||| c == '\u{1680}'
    ||| ('\u{2000}' <= c <= '\u{200a}')
    ||| c == '\u{2028}'
    ||| c == '\u{2029}'
    ||| c == '\u{202f}'
    ||| c == '\u{205f}'
    ||| c == '\u{3000}'
}

/// Whether `c` is white space (what `char::is_whitespace` tells).
pub fn char_is_whitespace(c: char) -> (b: bool)
    ensures
        b == is_white_space(c),
{
    ('\u{9}' <= c && c <= '\u{d}') || c == ' ' || c == '\u{85}' || c == '\u{a0}'
        || c == '\u{1680}' || ('\u{2000}' <= c && c <= '\u{200a}') || c == '\u{2028}'
        || c == '\u{2029}' || c == '\u{202f}' || c == '\u{205f}' || c == '\u{3000}'
}

/// `s` without its leading white space.
pub open spec fn trim_start(s: Seq<char>) -> Seq<char>
    decreases s.len(),
{
    if s.len() > 0 && is_white_space(s[0]) {
        trim_start(s.drop_first())
    } else {
        s
    }
}

/// `s` without its trailing white space.
pub open spec fn trim_end(s: Seq<char>) -> Seq<char>
    decreases s.len(),
{
    if s.len() > 0 && is_white_space(s.last()) {
        trim_end(s.drop_last())
    } else {
        s
    }
}

/// `s` without leading and trailing white space (what `str::trim` gives).
pub open spec fn trim(s: Seq<char>) -> Seq<char> {
    trim_end(trim_start(s))
}

proof fn lemma_trim_start_skip(s: Seq<char>, i: int)
    requires
        0 <= i <= s.len(),
        forall|k: int| 0 <= k < i ==> is_white_space(#[trigger] s[k]),
    ensures
        trim_start(s) == trim_start(s.subrange(i, s.len() as int)),
    decreases i,
{
    if i > 0 {
        assert(s.drop_first().subrange(i - 1, s.drop_first().len() as int) == s.subrange(
            i,
            s.len() as int,
        ));
        lemma_trim_start_skip(s.drop_first(), i - 1);
    } else {
        assert(s.subrange(0, s.len() as int) == s);
    }
}

proof fn lemma_trim_end_cut(s: Seq<char>, j: int)
    requires
        0 <= j <= s.len(),
        forall|k: int| j <= k < s.len() ==> is_white_space(#[trigger] s[k]),
    ensures
        trim_end(s) == trim_end(s.subrange(0, j)),
    decreases s.len() - j,
{
    if j < s.len() {
        assert(s.drop_last().subrange(0, j) == s.subrange(0, j));
        lemma_trim_end_cut(s.drop_last(), j);
    } else {
        assert(s.subrange(0, j) == s);
    }
}

/// The characters of `s` without leading and trailing white space.
pub fn trim_chars(s: &[char]) -> (t: Vec<char>)
    ensures
        t@ == trim(s@),
{
    let n: usize = s.len();
    let mut i: usize = 0;
    while i < n && char_is_whitespace(s[i])
        invariant
            n == s@.len(),
            i <= n,
            forall|k: int| 0 <= k < i ==> is_white_space(#[trigger] s@[k]),
        decreases n - i,
    {
        i = i + 1;
    }
    proof {
        lemma_trim_start_skip(s@, i as int);
    }
    let ghost rest = s@.subrange(i as int, n as int);
    assert(rest.len() == 0 || !is_white_space(rest[0]));
    assert(trim_start(s@) == rest);
    let mut j: usize = n;
    while j > i && char_is_whitespace(s[j - 1])
        invariant
            n == s@.len(),
            i <= j <= n,
            rest == s@.subrange(i as int, n as int),
            forall|k: int| j - i <= k < rest.len() ==> is_white_space(#[trigger] rest[k]),
        decreases j,
    {
        j = j - 1;
    }
    proof {
        lemma_trim_end_cut(rest, j - i);
        let cut = rest.subrange(0, j - i);
        assert(cut.len() == 0 || !is_white_space(cut.last()));
        assert(cut == s@.subrange(i as int, j as int));
    }
    vstd::slice::slice_to_vec(slice_subrange(s, i, j))
}

/// Whether `s` holds nothing but white space.
pub fn is_blank(s: &str) -> (b: bool)
    ensures
        b == (trim(s@).len() == 0),
{
    let c = chars_of(s);
    let t = trim_chars(c.as_slice());
    t.len() == 0
}

/// The concatenation of `a`, `b` and `c`.
pub fn concat3(a: &str, b: &str, c: &str) -> (s: String)
    ensures
        s@ == a@ + b@ + c@,
{
    let mut chars = chars_of(a);
    let cb = chars_of(b);
    let cc = chars_of(c);
    extend_chars(&mut chars, cb.as_slice());
    extend_chars(&mut chars, cc.as_slice());
    string_from_chars(chars.as_slice())
}

/// `line` without a final carriage return.
pub open spec fn strip_cr(line: Seq<char>) -> Seq<char> {
    if line.len() > 0 && line.last() == '\r' {
        line.drop_last()
    } else {
        line
    }
}

/// The number of characters of `s` before its first newline, or its
/// length when it has none.
pub open spec fn until_newline(s: Seq<char>) -> nat
    decreases s.len(),
{
    if s.len() == 0 {
        0
    } else if s[0] == '\n' {
        0
    } else {
        1 + until_newline(s.drop_first())
    }
}

/// The lines of `s` (what `str::lines` gives): split at each newline, a
/// carriage return before the newline dropped, no line after a final
/// newline.
pub open spec fn lines(s: Seq<char>) -> Seq<Seq<char>>
    decreases s.len(),
{
    if s.len() == 0 {
        Seq::empty()
    } else {
        let k = until_newline(s);
        if k >= s.len() {
            seq![s]
        } else {
            seq![strip_cr(s.subrange(0, k as int))] + lines(s.subrange(k + 1int, s.len() as int))
        }
    }
}

proof fn lemma_until_newline(s: Seq<char>, k: int)
    requires
        0 <= k <= s.len(),
        forall|m: int| 0 <= m < k ==> #[trigger] s[m] != '\n',
        k < s.len() ==> s[k] == '\n',
    ensures
        until_newline(s) == k,
    decreases k,
{
    if k > 0 {
        lemma_until_newline(s.drop_first(), k - 1);
    }
}

/// The views of the strings in `v`.
pub open spec fn texts(v: Seq<String>) -> Seq<Seq<char>> {
    v.map_values(|s: String| s@)
}

/// The lines of `s`, as `str::lines` gives them.
pub fn split_lines(s: &str) -> (out: Vec<String>)
    ensures
        texts(out@) == lines(s@),
{
    let c = chars_of(s);
    let n: usize = c.len();
    let mut out: Vec<String> = Vec::new();
    let mut start: usize = 0;
    let mut j: usize = 0;
    assert(c@.subrange(0, n as int) == c@);
    while j < n
        invariant
            n == c@.len(),
            c@ == s@,
            start <= j <= n,
            forall|m: int| start <= m < j ==> #[trigger] c@[m] != '\n',
            lines(s@) == texts(out@) + lines(c@.subrange(start as int, n as int)),
        decreases n - j,
    {
        if c[j] == '\n' {
            let ghost rest = c@.subrange(start as int, n as int);
            proof {
                assert forall|m: int| 0 <= m < j - start implies #[trigger] rest[m] != '\n' by {
                    assert(rest[m] == c@[start + m]);
                }
                lemma_until_newline(rest, j - start);
                assert(rest.subrange(0, j - start) == c@.subrange(start as int, j as int));
                assert(rest.subrange(j - start + 1, rest.len() as int) == c@.subrange(
                    j + 1,
                    n as int,
                ));
            }
            let mut end: usize = j;
            if end > start && c[end - 1] == '\r' {
                end = end - 1;
            }
            assert(c@.subrange(start as int, end as int) == strip_cr(
                c@.subrange(start as int, j as int),
            ));
            let line = string_from_chars(slice_subrange(c.as_slice(), start, end));
            let ghost before = out@;
            out.push(line);
            assert(texts(out@) == texts(before).push(line@));
            start = j + 1;
        }
        j = j + 1;
    }
    if start < n {
        let ghost rest = c@.subrange(start as int, n as int);
        proof {
            assert forall|m: int| 0 <= m < rest.len() implies #[trigger] rest[m] != '\n' by {
                assert(rest[m] == c@[start + m]);
            }
            lemma_until_newline(rest, rest.len() as int);
        }
        let line = string_from_chars(slice_subrange(c.as_slice(), start, n));
        let ghost before = out@;
        out.push(line);
        assert(texts(out@) == texts(before).push(line@));
    } else {
        assert(c@.subrange(start as int, n as int).len() == 0);
    }
    out
}

/// `a` sorts before `b`: character by character by code point, a proper
/// prefix first (the order of `String`, whose bytewise UTF-8 order is the
/// code point order).
pub open spec fn text_lt(a: Seq<char>, b: Seq<char>) -> bool
    decreases a.len(),
{
    if a.len() == 0 {
        b.len() > 0
    } else if b.len() == 0 {
        false
    } else if a[0] != b[0] {
        (a[0] as u32) < (b[0] as u32)
    } else {
        text_lt(a.drop_first(), b.drop_first())
    }
}

/// Two texts that agree on their first `i` characters sort by what follows:
/// by the code points of their characters at `i` when both have one and
/// they differ, and with the text that ends at `i` first when the other
/// goes on.
pub proof fn lemma_text_lt_first_difference(a: Seq<char>, b: Seq<char>, i: int)
    requires
        0 <= i <= a.len(),
        i <= b.len(),
        forall|k: int| 0 <= k < i ==> a[k] == b[k],
    ensures
        i < a.len() && i < b.len() && a[i] != b[i] ==> (text_lt(a, b) <==> (a[i] as u32) < (
        b[i] as u32)),
        i == a.len() ==> (text_lt(a, b) <==> i < b.len()),
    decreases i,
{
    if i > 0 {
        assert(a[0] == b[0]);
        assert forall|k: int| 0 <= k < i - 1 implies a.drop_first()[k] == b.drop_first()[k] by {
            assert(a[k + 1] == b[k + 1]);
        }
        lemma_text_lt_first_difference(a.drop_first(), b.drop_first(), i - 1);
    }
}

/// One-character texts sort by code point: `[c]` comes before `[d]`
/// exactly when `c`'s code point is below `d`'s.
pub proof fn lemma_text_lt_single(c: char, d: char)
    ensures
        text_lt(seq![c], seq![d]) <==> (c as u32) < (d as u32),
{
    if c != d {
        lemma_text_lt_first_difference(seq![c], seq![d], 0);
    } else {
        lemma_text_lt_trichotomy(seq![c], seq![c]);
    }
}

/// Of two texts, exactly one sorts first unless they are equal.
pub proof fn lemma_text_lt_trichotomy(a: Seq<char>, b: Seq<char>)
    ensures
        !text_lt(a, a),
        a != b ==> (text_lt(a, b) || text_lt(b, a)),
        !(text_lt(a, b) && text_lt(b, a)),
    decreases a.len(),
{
    if a.len() > 0 && b.len() > 0 {
        lemma_text_lt_trichotomy(a.drop_first(), b.drop_first());
        lemma_text_lt_trichotomy(a.drop_first(), a.drop_first());
        if a[0] == b[0] && a != b {
            assert(a.drop_first() != b.drop_first()) by {
                if a.drop_first() == b.drop_first() {
                    assert(a == seq![a[0]] + a.drop_first());
                    assert(b == seq![b[0]] + b.drop_first());
                }
            }
        }
        if a[0] != b[0] {
            char_u32_cast(a[0], a[0] as u32);
            char_u32_cast(b[0], b[0] as u32);
            assert((a[0] as u32) != (b[0] as u32));
        }
    } else if a.len() > 0 {
        lemma_text_lt_trichotomy(a.drop_first(), a.drop_first());
    } else if b.len() == 0 {
        assert(a == b);
    }
}

/// Sorting before is transitive.
pub proof fn lemma_text_lt_transitive(a: Seq<char>, b: Seq<char>, c: Seq<char>)
    requires
        text_lt(a, b),
        text_lt(b, c),
    ensures
        text_lt(a, c),
    decreases a.len(),
{
    if a.len() > 0 && b.len() > 0 && c.len() > 0 {
        if a[0] == b[0] && b[0] == c[0] {
            lemma_text_lt_transitive(a.drop_first(), b.drop_first(), c.drop_first());
        }
    }
}

/// How two texts compare.
#[derive(PartialEq, Eq, Structural, Debug, Clone, Copy)]
pub enum TextOrder {
    Before,
    Same,
    After,
}

/// Compares `a` and `b` in text order.
pub fn compare_chars(a: &[char], b: &[char]) -> (o: TextOrder)
    ensures
        o == TextOrder::Before <==> text_lt(a@, b@),
        o == TextOrder::Same <==> a@ == b@,
        o == TextOrder::After <==> text_lt(b@, a@),
{
    let n: usize = a.len();
    let m: usize = b.len();
    let mut i: usize = 0;
    proof {
        lemma_text_lt_trichotomy(a@, b@);
        assert(a@.subrange(0, 0) == b@.subrange(0, 0));
        assert(a@.skip(0) == a@);
        assert(b@.skip(0) == b@);
    }
    while i < n && i < m && a[i] == b[i]
        invariant
            n == a@.len(),
            m == b@.len(),
            i <= n,
            i <= m,
            text_lt(a@, b@) == text_lt(a@.skip(i as int), b@.skip(i as int)),
            text_lt(b@, a@) == text_lt(b@.skip(i as int), a@.skip(i as int)),
            a@.subrange(0, i as int) == b@.subrange(0, i as int),
        decreases n - i,
    {
        assert(a@.skip(i as int).drop_first() == a@.skip(i + 1));
        assert(b@.skip(i as int).drop_first() == b@.skip(i + 1));
        assert(a@.subrange(0, i + 1) == a@.subrange(0, i as int).push(a@[i as int]));
        assert(b@.subrange(0, i + 1) == b@.subrange(0, i as int).push(b@[i as int]));
        i = i + 1;
    }
    if i == n && i == m {
        assert(a@ == a@.subrange(0, i as int));
        assert(b@ == b@.subrange(0, i as int));
        TextOrder::Same
    } else if i == n {
        assert(a@.skip(i as int).len() == 0);
        assert(a@ != b@);
        TextOrder::Before
    } else if i == m {
        assert(b@.skip(i as int).len() == 0);
        assert(a@ != b@);
        TextOrder::After
    } else {
        assert(a@.skip(i as int)[0] == a@[i as int]);
        assert(b@.skip(i as int)[0] == b@[i as int]);
        assert(a@ != b@) by {
            if a@ == b@ {
                assert(a@[i as int] == b@[i as int]);
            }
        }
        if (a[i] as u32) < (b[i] as u32) {
            TextOrder::Before
        } else {
            TextOrder::After
        }
    }
}

/// Compares the texts `a` and `b`.
pub fn compare_text(a: &str, b: &str) -> (o: TextOrder)
    ensures
        o == TextOrder::Before <==> text_lt(a@, b@),
        o == TextOrder::Same <==> a@ == b@,
        o == TextOrder::After <==> text_lt(b@, a@),
{
    let ca = chars_of(a);
    let cb = chars_of(b);
    compare_chars(ca.as_slice(), cb.as_slice())
}

} // verus!
