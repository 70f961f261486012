use vstd::prelude::*;
use vstd::string::*;

use crate::semver::{
    parse_range, parse_version, satisfies, semver_range_parses, semver_satisfies,
    semver_version_parses,
};
use crate::text::{
    ascii_lower, ascii_lower_text, chars_of, is_blank, is_white_space, string_from_chars, text_eq,
    white_space,
};

verus! {

/// What a range means once blank ranges are read as `*`: npm, pnpm and yarn
/// treat an empty or white-space-only range as "match any".
pub open spec fn normalized(range: Seq<char>) -> Seq<char> {
    if is_blank(range) {
        "*"@
    } else {
        range
    }
}

/// Whether `s` holds nothing but white space.
pub fn is_blank_text(s: &str) -> (blank: bool)
    ensures
        blank == is_blank(s@),
{
    let v = chars_of(s);
    let n = v.len();
    for i in 0..n
        invariant
            n == v@.len(),
            v@ == s@,
            forall|j: int| 0 <= j < i ==> #[trigger] is_white_space(v@[j]),
    {
        if !white_space(v[i]) {
            return false;
        }
    }
    true
}

/// An empty or white-space-only range becomes `*`; any other range is
/// returned unchanged.
pub fn normalize_range(range_str: &str) -> (out: &str)
    ensures
        out@ == normalized(range_str@),
{
    if is_blank_text(range_str) {
        "*"
    } else {
        range_str
    }
}

/// `s` begins with `prefix`.
pub open spec fn starts_with(s: Seq<char>, prefix: Seq<char>) -> bool {
    prefix.len() <= s.len() && s.take(prefix.len() as int) == prefix
}

/// `i` is the position of the last `c` in `s`.
pub open spec fn is_last_of(s: Seq<char>, c: char, i: int) -> bool {
    &&& 0 <= i < s.len()
    &&& s[i] == c
    &&& forall|j: int| i < j < s.len() ==> s[j] != c
}

/// `i` is the position of the first `c` in `s`.
pub open spec fn is_first_of(s: Seq<char>, c: char, i: int) -> bool {
    &&& 0 <= i < s.len()
    &&& s[i] == c
    &&& forall|j: int| 0 <= j < i ==> s[j] != c
}

/// The version tail of an alias spec: for `npm:<name>@<version>` or
/// `jsr:<name>@<version>` the part after the last `@`, provided that `@`
/// is not the first character after the prefix (that one belongs to a
/// scoped name). A spec that is no alias, or carries no version tail, is
/// its own tail.
pub open spec fn alias_tail(range: Seq<char>) -> Seq<char> {
    if starts_with(range, "npm:"@) || starts_with(range, "jsr:"@) {
        let rest = range.skip(4);
        if exists|at: int| is_last_of(rest, '@', at) && at > 0 {
            rest.skip((choose|at: int| is_last_of(rest, '@', at)) + 1)
        } else {
            range
        }
    } else {
        range
    }
}

/// Extract the trailing `@<version>` from an `npm:<name>@<version>` or
/// `jsr:<name>@<version>` alias spec. Returns the input unchanged when the
/// spec isn't an alias or doesn't carry a version tail.
pub fn strip_alias_prefix(range: &str) -> (tail: &str)
    ensures
        tail@ == alias_tail(range@),
{
    let v = chars_of(range);
    let n = v.len();
    proof {
        reveal_strlit("npm:");
        reveal_strlit("jsr:");
    }
    let is_alias = n >= 4 && ((v[0] == 'n' && v[1] == 'p' && v[2] == 'm' && v[3] == ':') || (
    v[0] == 'j' && v[1] == 's' && v[2] == 'r' && v[3] == ':'));
    if !is_alias {
        assert(!starts_with(range@, "npm:"@)) by {
            if starts_with(range@, "npm:"@) {
                assert(range@.take(4)[0] == 'n');
                assert(range@.take(4)[1] == 'p');
                assert(range@.take(4)[2] == 'm');
                assert(range@.take(4)[3] == ':');
            }
        }
        assert(!starts_with(range@, "jsr:"@)) by {
            if starts_with(range@, "jsr:"@) {
                assert(range@.take(4)[0] == 'j');
                assert(range@.take(4)[1] == 's');
                assert(range@.take(4)[2] == 'r');
                assert(range@.take(4)[3] == ':');
            }
        }
        return range;
    }
    assert(starts_with(range@, "npm:"@) || starts_with(range@, "jsr:"@)) by {
        if v@[0] == 'n' {
            assert(range@.take(4) =~= "npm:"@);
        } else {
            assert(range@.take(4) =~= "jsr:"@);
        }
    }
    let ghost rest = range@.skip(4);
    // Search for the last '@' after the prefix.
    let mut k: usize = n;
    while k > 4 && v[k - 1] != '@'
        invariant
            4 <= k <= n,
            n == v@.len(),
            v@ == range@,
            rest == range@.skip(4),
            forall|j: int| k <= j < n ==> v@[j] != '@',
        decreases k,
    {
        k = k - 1;
    }
    if k > 5 {
        // the last '@' sits at position k - 1 of the text, k - 5 of `rest`
        assert(is_last_of(rest, '@', k - 5));
        assert forall|at: int| is_last_of(rest, '@', at) implies at == k - 5 by {
            if at < k - 5 {
                assert(rest[k - 5] == v@[k - 1]);
            } else if at > k - 5 {
                assert(rest[at] == v@[at + 4]);
            }
        }
        let tail = range.substring_char(k, n);
        assert(tail@ =~= rest.skip((k - 5) + 1));
        tail
    } else {
        assert forall|at: int| is_last_of(rest, '@', at) implies at == 0 by {
            if at > 0 {
                assert(rest[at] == v@[at + 4]);
            }
        }
        range
    }
}

/// The protocol selectors that never name a registry range.
pub open spec fn is_protocol_name(t: Seq<char>) -> bool {
    ||| t == "workspace"@
    ||| t == "catalog"@
    ||| t == "npm"@
    ||| t == "jsr"@
    ||| t == "file"@
    ||| t == "link"@
    ||| t == "git"@
    ||| t == "git+ssh"@
    ||| t == "git+http"@
    ||| t == "git+https"@
    ||| t == "git+file"@
    ||| t == "ssh"@
    ||| t == "http"@
    ||| t == "https"@
    ||| t == "github"@
    ||| t == "gitlab"@
    ||| t == "bitbucket"@
    ||| t == "gist"@
}

/// `range` holds a `:`, and the part before the first one, lower-cased in
/// ASCII, is a protocol selector.
pub open spec fn protocol_like(range: Seq<char>) -> bool {
    exists|i: int|
        is_first_of(range, ':', i) && is_protocol_name(ascii_lower_text(range.take(i)))
}

/// True when `range_str` looks like a non-registry protocol selector
/// (workspace / catalog / file / link / npm-alias / jsr-alias / git /
/// http(s)). Lower-cased so that a dist-tag named `Workspace:*` cannot pass
/// for a range.
pub fn looks_like_protocol_range(range_str: &str) -> (protocol: bool)
    ensures
        protocol == protocol_like(range_str@),
{
    let v = chars_of(range_str);
    let n = v.len();
    let mut idx: usize = 0;
    while idx < n && v[idx] != ':'
        invariant
            idx <= n,
            n == v@.len(),
            v@ == range_str@,
            forall|j: int| 0 <= j < idx ==> v@[j] != ':',
        decreases n - idx,
    {
        idx = idx + 1;
    }
    if idx == n {
        assert forall|i: int| !is_first_of(range_str@, ':', i) by {}
        return false;
    }
    let ghost s = range_str@;
    assert(is_first_of(s, ':', idx as int));
    assert forall|i: int| is_first_of(s, ':', i) implies i == idx by {
        if i < idx {
        } else if i > idx {
            assert(s[idx as int] != ':');
        }
    }
    let mut lowered: Vec<char> = Vec::new();
    for i in 0..idx
        invariant
            idx <= n,
            n == v@.len(),
            v@ == s,
            lowered@ == ascii_lower_text(s.take(i as int)),
    {
        let c = v[i];
        let lc = if 'A' <= c && c <= 'Z' {
            char_shift_lower(c)
        } else {
            c
        };
        lowered.push(lc);
        assert(ascii_lower_text(s.take(i + 1)) =~= ascii_lower_text(s.take(i as int)).push(
            ascii_lower(c),
        ));
    }
    let prefix = string_from_chars(lowered.as_slice());
    let p = prefix.as_str();
    text_eq(p, "workspace") || text_eq(p, "catalog") || text_eq(p, "npm") || text_eq(p, "jsr")
        || text_eq(p, "file") || text_eq(p, "link") || text_eq(p, "git") || text_eq(p, "git+ssh")
        || text_eq(p, "git+http") || text_eq(p, "git+https") || text_eq(p, "git+file") || text_eq(
        p,
        "ssh",
    ) || text_eq(p, "http") || text_eq(p, "https") || text_eq(p, "github") || text_eq(p, "gitlab")
        || text_eq(p, "bitbucket") || text_eq(p, "gist")
}

/// The lower-case letter of an upper-case ASCII letter.
fn char_shift_lower(c: char) -> (lc: char)
    requires
        'A' <= c <= 'Z',
    ensures
        lc == ascii_lower(c),
{
    let code: u32 = (c as u32) + 32;
    assert(0x61 <= code <= 0x7a);
    char_from_ascii_code(code)
}

/// The `char` with a given code below 128.
fn char_from_ascii_code(code: u32) -> (c: char)
    requires
        code < 128,
    ensures
        c as u32 == code,
        c == code as char,
{
    let b: u8 = code as u8;
    b as char
}

/// The outcome of `version_satisfies`: the version and the (normalized)
/// range both parse, and the version lies in the range.
pub open spec fn satisfies_text(version: Seq<char>, range: Seq<char>) -> bool {
    &&& semver_version_parses(version)
    &&& semver_range_parses(normalized(range))
    &&& semver_satisfies(version, normalized(range))
}

/// Whether the version written `version` lies in the range written
/// `range_str`; a text that does not parse satisfies nothing, and a blank
/// range means `*`.
pub fn version_satisfies(version: &str, range_str: &str) -> (ok: bool)
    ensures
        ok == satisfies_text(version@, range_str@),
{
    let v = match parse_version(version) {
        Some(v) => v,
        None => return false,
    };
    let r = match parse_range(normalize_range(range_str)) {
        Some(r) => r,
        None => return false,
    };
    satisfies(&v, &r)
}

/// Normalizing twice is normalizing once: `*` is not blank.
pub proof fn law_normalize_idempotent(range: Seq<char>)
    ensures
        normalized(normalized(range)) == normalized(range),
{
    reveal_strlit("*");
    if is_blank(range) {
        assert(!is_white_space("*"@[0]));
    }
}

/// What `strip_alias_prefix` returns is a suffix of its input.
pub proof fn law_alias_tail_is_suffix(range: Seq<char>)
    ensures
        exists|k: int| 0 <= k <= range.len() && alias_tail(range) == #[trigger] range.skip(k),
{
    reveal_strlit("npm:");
    reveal_strlit("jsr:");
    if starts_with(range, "npm:"@) || starts_with(range, "jsr:"@) {
        let rest = range.skip(4);
        if exists|at: int| is_last_of(rest, '@', at) && at > 0 {
            let at = choose|at: int| is_last_of(rest, '@', at);
            assert(rest.skip(at + 1) =~= range.skip(at + 5));
        } else {
            assert(range == range.skip(0));
        }
    } else {
        assert(range == range.skip(0));
    }
}

/// The protocol check reads the part before the first `:` only: when
/// `range[i]` is a `:` and no `:` comes before it, the range is a protocol
/// selector exactly when that part, lower-cased, is a protocol name,
/// whatever follows (`github:a/b#semver:^1` is one).
pub proof fn law_protocol_check_reads_first_colon(range: Seq<char>, i: int)
    requires
        0 <= i < range.len(),
        range[i] == ':',
        forall|j: int| 0 <= j < i ==> range[j] != ':',
    ensures
        protocol_like(range) == is_protocol_name(ascii_lower_text(range.take(i))),
{
    assert(is_first_of(range, ':', i));
    if protocol_like(range) {
        let k = choose|k: int|
            is_first_of(range, ':', k) && is_protocol_name(ascii_lower_text(range.take(k)));
        assert(k == i) by {
            if k < i {
                assert(range[k] == ':');
            } else if k > i {
                assert(range[i] != ':');
            }
        }
    }
}

/// A range without any `:` is never a protocol selector.
pub proof fn law_no_colon_no_protocol(range: Seq<char>)
    requires
        forall|j: int| 0 <= j < range.len() ==> range[j] != ':',
    ensures
        !protocol_like(range),
{
}

/// For an `npm:` or `jsr:` alias whose last `@` stands at position `i`
/// after the first character following the prefix, the tail is what
/// follows that `@`; an alias with no `@` past that first character, and
/// any text without the prefix, comes back whole.
pub proof fn law_alias_tail_after_last_at(range: Seq<char>)
    ensures
        forall|i: int|
            5 <= i < range.len() && range[i] == '@' && (forall|j: int|
                i < j < range.len() ==> range[j] != '@') && (starts_with(range, "npm:"@)
                || starts_with(range, "jsr:"@)) ==> #[trigger] alias_tail(range) == range.skip(
                i + 1,
            ),
        (forall|j: int| 5 <= j < range.len() ==> range[j] != '@') ==> alias_tail(range) == range,
        !starts_with(range, "npm:"@) && !starts_with(range, "jsr:"@) ==> alias_tail(range) == range,
{
    reveal_strlit("npm:");
    reveal_strlit("jsr:");
    let rest = range.skip(4);
    assert forall|i: int|
        5 <= i < range.len() && range[i] == '@' && (forall|j: int|
            i < j < range.len() ==> range[j] != '@') && (starts_with(range, "npm:"@)
            || starts_with(range, "jsr:"@)) implies #[trigger] alias_tail(range) == range.skip(
        i + 1,
    ) by {
        assert(rest[i - 4] == range[i]);
        assert(is_last_of(rest, '@', i - 4));
        let at = choose|at: int| is_last_of(rest, '@', at);
        assert(at == i - 4) by {
            if at < i - 4 {
                assert(rest[i - 4] == '@');
            } else if at > i - 4 {
                assert(rest[at] == range[at + 4]);
            }
        }
        assert(rest.skip(at + 1) =~= range.skip(i + 1));
    }
    if (forall|j: int| 5 <= j < range.len() ==> range[j] != '@') && (starts_with(range, "npm:"@)
        || starts_with(range, "jsr:"@)) {
        assert forall|at: int| is_last_of(rest, '@', at) implies at <= 0 by {
            if at > 0 {
                assert(rest[at] == range[at + 4]);
            }
        }
    }
}

/// Lower-casing never adds nor removes a `:`, and lower-casing twice is
/// lower-casing once.
proof fn lemma_ascii_lower_facts(c: char)
    ensures
        (ascii_lower(c) == ':') == (c == ':'),
        ascii_lower(ascii_lower(c)) == ascii_lower(c),
{
}

/// Whether a range looks like a protocol selector does not depend on the
/// case of its ASCII letters: `Workspace:*` is caught like `workspace:*`.
pub proof fn law_protocol_check_ignores_case(range: Seq<char>)
    ensures
        protocol_like(ascii_lower_text(range)) == protocol_like(range),
{
    let low = ascii_lower_text(range);
    assert forall|i: int| 0 <= i < range.len() implies (#[trigger] low[i] == ':') == (range[i] == ':') by {
        lemma_ascii_lower_facts(range[i]);
    }
    assert forall|i: int| 0 <= i <= range.len() implies #[trigger] ascii_lower_text(low.take(i))
        == ascii_lower_text(range.take(i)) by {
        assert forall|j: int| 0 <= j < i implies ascii_lower_text(low.take(i))[j]
            == ascii_lower_text(range.take(i))[j] by {
            lemma_ascii_lower_facts(range[j]);
        }
        assert(ascii_lower_text(low.take(i)) =~= ascii_lower_text(range.take(i)));
    }
    assert forall|i: int| is_first_of(low, ':', i) == is_first_of(range, ':', i) by {
        if 0 <= i < range.len() {
            assert(forall|j: int| 0 <= j < i ==> (low[j] == ':') == (range[j] == ':'));
        }
    }
    if protocol_like(range) {
        let i = choose|i: int|
            is_first_of(range, ':', i) && is_protocol_name(ascii_lower_text(range.take(i)));
        assert(is_first_of(low, ':', i));
        assert(ascii_lower_text(low.take(i)) == ascii_lower_text(range.take(i)));
    }
    if protocol_like(low) {
        let i = choose|i: int|
            is_first_of(low, ':', i) && is_protocol_name(ascii_lower_text(low.take(i)));
        assert(is_first_of(range, ':', i));
        assert(ascii_lower_text(low.take(i)) == ascii_lower_text(range.take(i)));
    }
}

} // verus!
