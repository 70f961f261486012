use vstd::prelude::*;

verus! {

/// The characters of `s`, in order.
pub fn chars_of(s: &str) -> (out: Vec<char>)
    ensures
        out@ == s@,
{
    let mut out: Vec<char> = Vec::new();
    for c in it: s.chars()
        invariant
            out@ == it.seq().take(it.index() as int),
    {
        out.push(c);
    }
    out
}

/// `String::push` appends one character at the end of the string.
#[verifier::external_body]
pub(crate) fn push_char(s: &mut String, c: char)
    ensures
        final(s)@ == old(s)@.push(c),
{
    s.push(c)
}

/// A fresh string holding the characters of `v`.
pub fn string_from_chars(v: &[char]) -> (out: String)
    ensures
        out@ == v@,
{
    let mut out = String::new();
    let n = v.len();
    for i in 0..n
        invariant
            n == v@.len(),
            out@ == v@.take(i as int),
    {
        push_char(&mut out, v[i]);
        assert(v@.take(i + 1) == v@.take(i as int).push(v@[i as int]));
    }
    assert(v@.take(n as int) == v@);
    out
}

/// Whether two texts hold the same characters.
pub fn text_eq(a: &str, b: &str) -> (same: bool)
    ensures
        same == (a@ == b@),
{
    let va = chars_of(a);
    let vb = chars_of(b);
    if va.len() != vb.len() {
        return false;
    }
    let n = va.len();
    for i in 0..n
        invariant
            n == va@.len(),
            n == vb@.len(),
            va@ == a@,
            vb@ == b@,
            forall|j: int| 0 <= j < i ==> va@[j] == vb@[j],
    {
        if va[i] != vb[i] {
            return false;
        }
    }
    assert(va@ =~= vb@);
    true
}

/// Lexicographic order on byte strings: `a` is a prefix of `b`, or at the
/// first position where they differ `a` holds the smaller byte.
pub open spec fn bytes_lex_le(a: Seq<u8>, b: Seq<u8>) -> bool {
    ||| (a.len() <= b.len() && a == b.take(a.len() as int))
    ||| exists|k: int|
        0 <= k < a.len() && k < b.len() && a.take(k) == b.take(k) && #[trigger] a[k] < b[k]
}

/// The order of `<=` on `str`: byte-wise lexicographic order of the UTF-8
/// encodings.
pub open spec fn text_le(a: Seq<char>, b: Seq<char>) -> bool {
    bytes_lex_le(vstd::utf8::encode_utf8(a), vstd::utf8::encode_utf8(b))
}

/// `a <= b` for texts, comparing their UTF-8 bytes lexicographically.
pub fn text_le_exec(a: &str, b: &str) -> (le: bool)
    ensures
        le == text_le(a@, b@),
{
    let x = a.as_bytes();
    let y = b.as_bytes();
    let ghost xs = x@;
    let ghost ys = y@;
    let mut i: usize = 0;
    while i < x.len() && i < y.len() && x[i] == y[i]
        invariant
            i <= x@.len(),
            i <= y@.len(),
            x@ == xs,
            y@ == ys,
            xs.take(i as int) == ys.take(i as int),
        decreases x@.len() - i,
    {
        assert(xs.take(i + 1) == xs.take(i as int).push(xs[i as int]));
        assert(ys.take(i + 1) == ys.take(i as int).push(ys[i as int]));
        i = i + 1;
    }
    if i == x.len() {
        assert(xs == xs.take(i as int));
        return true;
    }
    if i == y.len() {
        assert forall|k: int|
            0 <= k < xs.len() && k < ys.len() && xs.take(k) == ys.take(k) implies !(
            #[trigger] xs[k] < ys[k]) by {
            assert(xs[k] == xs.take(i as int)[k]);
            assert(ys[k] == ys.take(i as int)[k]);
        }
        return false;
    }
    if x[i] < y[i] {
        return true;
    }
    assert forall|k: int|
        0 <= k < xs.len() && k < ys.len() && xs.take(k) == ys.take(k) implies !(
        #[trigger] xs[k] < ys[k]) by {
        if k < i {
            assert(xs[k] == xs.take(i as int)[k]);
            assert(ys[k] == ys.take(i as int)[k]);
        } else if k > i {
            assert(xs[i as int] == xs.take(k)[i as int]);
            assert(ys[i as int] == ys.take(k)[i as int]);
        }
    }
    false
}

/// The Unicode `White_Space` property, which `char::is_whitespace` tests.
pub open spec fn is_white_space(c: char) -> bool {
    ||| '\u{9}' <= c <= '\u{d}'
    ||| c == ' '
    ||| c == '\u{85}'
    ||| c == '\u{a0}'
    ||| c == '\u{1680}'
    ||| '\u{2000}' <= c <= '\u{200a}'
    ||| c == '\u{2028}'
    ||| c == '\u{2029}'
    ||| c == '\u{202f}'
    ||| c == '\u{205f}'
    ||| c == '\u{3000}'
}

/// Whether `c` has the `White_Space` property.
pub fn white_space(c: char) -> (w: bool)
    ensures
        w == is_white_space(c),
{
    ('\u{9}' <= c && c <= '\u{d}') || c == ' ' || c == '\u{85}' || c == '\u{a0}' || c == '\u{1680}'
        || ('\u{2000}' <= c && c <= '\u{200a}') || c == '\u{2028}' || c == '\u{2029}' || c
        == '\u{202f}' || c == '\u{205f}' || c == '\u{3000}'
}

/// Whether `s` holds nothing but white space (so that trimming it leaves
/// nothing).
pub open spec fn is_blank(s: Seq<char>) -> bool {
    forall|i: int| 0 <= i < s.len() ==> #[trigger] is_white_space(s[i])
}

/// ASCII lower-casing of one character: `A`..`Z` become `a`..`z`, all else
/// stays.
pub open spec fn ascii_lower(c: char) -> char {
    if 'A' <= c <= 'Z' {
        ((c as u32) + 32) as char
    } else {
        c
    }
}

/// `str::to_ascii_lowercase`, character by character.
pub open spec fn ascii_lower_text(s: Seq<char>) -> Seq<char> {
    s.map_values(|c: char| ascii_lower(c))
}

} // verus!
