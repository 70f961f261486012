use vstd::prelude::*;

use crate::packument::{Packument, find_key, is_first_key, key_index, lookup, value_at};
use crate::range::{looks_like_protocol_range, normalize_range, normalized, protocol_like};
use crate::semver::{
    SemRange, SemVersion, is_prerelease, parse_range, parse_version, satisfies, semver_is_prerelease,
    semver_less, semver_range_parses, semver_satisfies, semver_version_parses, version_less,
};
use crate::text::{text_eq, text_le, text_le_exec};

verus! {

/// Walking positions `0..n` in order, the position that a scan keeps when it
/// takes the first eligible position and afterwards replaces what it keeps
/// by a later eligible position `i` exactly when `beats(i, kept)`.
pub open spec fn scan_choice(
    eligible: spec_fn(int) -> bool,
    beats: spec_fn(int, int) -> bool,
    n: int,
) -> Option<int>
    decreases n,
{
    if n <= 0 {
        None
    } else {
        let prev = scan_choice(eligible, beats, n - 1);
        if eligible(n - 1) && match prev {
            Some(k) => beats(n - 1, k),
            None => true,
        } {
            Some(n - 1)
        } else {
            prev
        }
    }
}

/// A kept position is eligible and lies below `n`.
pub proof fn lemma_scan_choice_eligible(
    eligible: spec_fn(int) -> bool,
    beats: spec_fn(int, int) -> bool,
    n: int,
)
    ensures
        scan_choice(eligible, beats, n) matches Some(k) ==> 0 <= k < n && eligible(k),
        scan_choice(eligible, beats, n) is None ==> forall|i: int| 0 <= i < n ==> !#[trigger] eligible(i),
    decreases n,
{
    if n > 0 {
        lemma_scan_choice_eligible(eligible, beats, n - 1);
    }
}

/// No eligible position below `n` other than `k` beats position `k`.
pub open spec fn unbeaten(
    eligible: spec_fn(int) -> bool,
    beats: spec_fn(int, int) -> bool,
    n: int,
    k: int,
) -> bool {
    forall|j: int| 0 <= j < n && j != k && #[trigger] eligible(j) ==> !beats(j, k)
}

/// The text of the `i`-th published version.
pub open spec fn version_text<M>(p: Packument<M>, i: int) -> Seq<char> {
    p.versions@[i].0@
}

/// Positions holding a stable version: one that parses and has no
/// pre-release part.
pub open spec fn stable_at<M>(p: Packument<M>) -> spec_fn(int) -> bool {
    |i: int|
        semver_version_parses(version_text(p, i)) && !semver_is_prerelease(version_text(p, i))
}

/// Position `i` beats the kept position `k` when its version is higher
/// (`lowest` false) or lower (`lowest` true).
pub open spec fn beats_by<M>(p: Packument<M>, lowest: bool) -> spec_fn(int, int) -> bool {
    |i: int, k: int|
        if lowest {
            semver_less(version_text(p, i), version_text(p, k))
        } else {
            semver_less(version_text(p, k), version_text(p, i))
        }
}

/// The position of the highest stable version; among equal versions the
/// first one met.
pub open spec fn stable_index<M>(p: Packument<M>) -> Option<int> {
    scan_choice(stable_at(p), beats_by(p, false), p.versions@.len() as int)
}

/// The text of the highest stable version.
pub open spec fn highest_stable<M>(p: Packument<M>) -> Option<Seq<char>> {
    match stable_index(p) {
        Some(i) => Some(version_text(p, i)),
        None => None,
    }
}

/// Walk the packument's versions and return the highest non-prerelease
/// version text. Used as the `latest` tag fallback when the registry
/// response lacks `dist-tags.latest`.
pub fn highest_stable_version<M>(packument: &Packument<M>) -> (best: Option<String>)
    ensures
        match highest_stable(*packument) {
            Some(t) => best matches Some(b) && b@ == t,
            None => best is None,
        },
        stable_index(*packument) matches Some(k) ==> unbeaten(
            stable_at(*packument),
            beats_by(*packument, false),
            packument.versions@.len() as int,
            k,
        ),
{
    let ghost p = *packument;
    let ghost e = stable_at(p);
    let ghost b = beats_by(p, false);
    let n = packument.versions.len();
    let mut best: Option<(SemVersion, usize)> = None;
    for i in 0..n
        invariant
            n == p.versions@.len(),
            p == *packument,
            e == stable_at(p),
            b == beats_by(p, false),
            match scan_choice(e, b, i as int) {
                Some(k) => best matches Some(x) && x.1 == k && x.0@ == version_text(p, k),
                None => best is None,
            },
            scan_choice(e, b, i as int) matches Some(k) ==> unbeaten(e, b, i as int, k),
    {
        proof {
            lemma_scan_choice_eligible(e, b, i as int);
        }
        let key = packument.versions[i].0.as_str();
        if let Some(v) = parse_version(key) {
            if !is_prerelease(&v) {
                let replace = match &best {
                    None => true,
                    Some(cur) => {
                        let l = version_less(&cur.0, &v);
                        proof {
                            let k = cur.1 as int;
                            if l {
                                assert forall|j: int|
                                    0 <= j < i && j != k && #[trigger] e(j) implies !b(j, i as int) by {
                                    assert(!b(j, k));
                                    assert(semver_version_parses(version_text(p, j)));
                                    assert(semver_less(v@, version_text(p, j)) ==> semver_less(
                                        cur.0@,
                                        version_text(p, j),
                                    ));
                                }
                            }
                        }
                        l
                    },
                };
                if replace {
                    best = Some((v, i));
                }
            }
        }
        assert(scan_choice(e, b, i + 1) matches Some(k) ==> unbeaten(e, b, i + 1, k));
    }
    proof {
        lemma_scan_choice_eligible(e, b, n as int);
    }
    match best {
        Some(x) => Some(packument.versions[x.1].0.clone()),
        None => None,
    }
}

/// Outcome of `pick_version`. Distinguishes "nothing in the range at all"
/// from "the cutoff filtered every otherwise-satisfying version" so that the
/// caller can report a meaningful error in strict mode.
pub enum PickResult<'a, M> {
    Found(&'a M),
    NoMatch,
    /// At least one version satisfied the range, but every one of them was
    /// filtered out by the cutoff.
    AgeGated,
}

/// The outcome of a pick, in terms of positions in the packument.
pub enum Pick {
    Entry(int),
    NoMatch,
    AgeGated,
}

/// What the caller asks of `pick_version`, as plain values: the requested
/// range text, the locked version, the scan direction, the two cutoffs, the
/// strictness, and which version texts are exempt from the age gate.
pub struct PickQuery {
    pub range: Seq<char>,
    pub locked: Option<Seq<char>>,
    pub pick_lowest: bool,
    pub cutoff: Option<Seq<char>>,
    pub exempt_cutoff: Option<Seq<char>>,
    pub strict: bool,
    pub exempt: spec_fn(Seq<char>) -> bool,
}

/// The text of an optional text.
pub open spec fn opt_text(t: Option<&str>) -> Option<Seq<char>> {
    match t {
        Some(s) => Some(s@),
        None => None,
    }
}

/// `v` is the version parsed from the text `s`, as `pick_version` always
/// hands it to the predicate.
pub open spec fn parsed_from(s: &str, v: Option<&SemVersion>) -> bool {
    v matches Some(x) && x@ == s@
}

/// The predicate answers every call that `pick_version` makes (a version
/// text with the version parsed from it), and for such calls its answer
/// depends on the version text alone.
pub open spec fn answers_by_text<F: Fn(&str, Option<&SemVersion>) -> bool>(f: F) -> bool {
    &&& forall|s: &str, v: Option<&SemVersion>|
        parsed_from(s, v) ==> #[trigger] call_requires(f, (s, v))
    &&& forall|s1: &str, v1: Option<&SemVersion>, s2: &str, v2: Option<&SemVersion>, r1: bool, r2: bool|
        #![trigger call_ensures(f, (s1, v1), r1), call_ensures(f, (s2, v2), r2)]
        s1@ == s2@ && parsed_from(s1, v1) && parsed_from(s2, v2) && call_ensures(f, (s1, v1), r1)
            && call_ensures(f, (s2, v2), r2) ==> r1 == r2
}

/// The predicate exempts the version written `ver` from the age gate.
pub open spec fn exempt_by<F: Fn(&str, Option<&SemVersion>) -> bool>(f: F, ver: Seq<char>) -> bool {
    exists|s: &str, v: Option<&SemVersion>|
        s@ == ver && parsed_from(s, v) && #[trigger] call_ensures(f, (s, v), true)
}

/// The age-gate predicate as a set of version texts.
pub open spec fn exemptions<F: Fn(&str, Option<&SemVersion>) -> bool>(f: F) -> spec_fn(Seq<char>) -> bool {
    |ver: Seq<char>| exempt_by(f, ver)
}

/// The query that the arguments of `pick_version` make.
pub open spec fn query_of<F: Fn(&str, Option<&SemVersion>) -> bool>(
    range_str: &str,
    locked: Option<&str>,
    pick_lowest: bool,
    cutoff: Option<&str>,
    exempt_cutoff: Option<&str>,
    strict: bool,
    f: F,
) -> PickQuery {
    PickQuery {
        range: range_str@,
        locked: opt_text(locked),
        pick_lowest,
        cutoff: opt_text(cutoff),
        exempt_cutoff: opt_text(exempt_cutoff),
        strict,
        exempt: exemptions(f),
    }
}

/// The version written `ver` clears `wall`: there is no wall, the packument
/// has no publish time for it, or that time is not later than the wall
/// (comparing the time stamps as strings).
pub open spec fn clears<M>(p: Packument<M>, ver: Seq<char>, wall: Option<Seq<char>>) -> bool {
    match wall {
        None => true,
        Some(c) => match value_at(p.time@, ver) {
            Some(t) => text_le(t@, c),
            None => true,
        },
    }
}

/// The wall that applies to a version: exempt versions answer to the
/// time-based wall only, all others to the merged cutoff.
pub open spec fn wall_for(q: PickQuery, ver: Seq<char>) -> Option<Seq<char>> {
    if (q.exempt)(ver) {
        q.exempt_cutoff
    } else {
        q.cutoff
    }
}

/// The version written `ver` clears the cutoff that applies to it.
pub open spec fn clears_cutoff<M>(p: Packument<M>, q: PickQuery, ver: Seq<char>) -> bool {
    clears(p, ver, wall_for(q, ver))
}

/// The range that a pick matches against, as text: the requested range with
/// blanks read as `*` when it parses; otherwise, unless it looks like a
/// protocol selector, the dist-tag of that name, or for `latest` without
/// such a tag the highest stable version, normalized the same way and
/// provided it parses. `None` when there is no such range.
pub open spec fn resolved_range<M>(p: Packument<M>, range: Seq<char>) -> Option<Seq<char>> {
    if semver_range_parses(normalized(range)) {
        Some(normalized(range))
    } else if protocol_like(range) {
        None
    } else {
        let target = match value_at(p.dist_tags@, range) {
            Some(t) => Some(t@),
            None => if range == "latest"@ {
                highest_stable(p)
            } else {
                None
            },
        };
        match target {
            Some(t) => if semver_range_parses(normalized(t)) {
                Some(normalized(t))
            } else {
                None
            },
            None => None,
        }
    }
}

/// The entry for the version written `ver`, when that version parses,
/// satisfies `range`, clears its cutoff and is published.
pub open spec fn preferred_entry<M>(
    p: Packument<M>,
    q: PickQuery,
    range: Seq<char>,
    ver: Seq<char>,
) -> Option<int> {
    if semver_version_parses(ver) && semver_satisfies(ver, range) && clears_cutoff(p, q, ver) {
        key_index(p.versions@, ver)
    } else {
        None
    }
}

/// The entry of the locked version, if it is acceptable.
pub open spec fn locked_entry<M>(p: Packument<M>, q: PickQuery, range: Seq<char>) -> Option<int> {
    match q.locked {
        Some(l) => preferred_entry(p, q, range, l),
        None => None,
    }
}

/// The entry of `dist-tags.latest`, if it is acceptable and the scan goes
/// for the highest version.
pub open spec fn latest_entry<M>(p: Packument<M>, q: PickQuery, range: Seq<char>) -> Option<int> {
    if q.pick_lowest {
        None
    } else {
        match value_at(p.dist_tags@, "latest"@) {
            Some(l) => preferred_entry(p, q, range, l@),
            None => None,
        }
    }
}

/// The `i`-th version parses and satisfies `range`.
pub open spec fn in_range<M>(p: Packument<M>, range: Seq<char>, i: int) -> bool {
    semver_version_parses(version_text(p, i)) && semver_satisfies(version_text(p, i), range)
}

/// Positions eligible for the main scan: in range and clearing their cutoff.
pub open spec fn main_eligible<M>(p: Packument<M>, q: PickQuery, range: Seq<char>) -> spec_fn(
    int,
) -> bool {
    |i: int| in_range(p, range, i) && clears_cutoff(p, q, version_text(p, i))
}

/// Positions eligible for the lenient fallback: in range and clearing the
/// time-based wall.
pub open spec fn fallback_eligible<M>(p: Packument<M>, q: PickQuery, range: Seq<char>) -> spec_fn(
    int,
) -> bool {
    |i: int| in_range(p, range, i) && clears(p, version_text(p, i), q.exempt_cutoff)
}

/// Some version in range was held back by its cutoff.
pub open spec fn age_gated<M>(p: Packument<M>, q: PickQuery, range: Seq<char>) -> bool {
    exists|i: int|
        0 <= i < p.versions@.len() && #[trigger] in_range(p, range, i) && !clears_cutoff(
            p,
            q,
            version_text(p, i),
        )
}

/// Nothing found: report the age gate if it held a version back.
pub open spec fn nothing_found<M>(p: Packument<M>, q: PickQuery, range: Seq<char>) -> Pick {
    if age_gated(p, q, range) {
        Pick::AgeGated
    } else {
        Pick::NoMatch
    }
}

/// The outcome of a pick against a resolved range.
pub open spec fn pick_in_range<M>(p: Packument<M>, q: PickQuery, range: Seq<char>) -> Pick {
    let n = p.versions@.len() as int;
    if let Some(i) = locked_entry(p, q, range) {
        Pick::Entry(i)
    } else if let Some(i) = latest_entry(p, q, range) {
        Pick::Entry(i)
    } else if let Some(i) = scan_choice(main_eligible(p, q, range), beats_by(p, q.pick_lowest), n) {
        Pick::Entry(i)
    } else if q.strict || q.cutoff is None {
        nothing_found(p, q, range)
    } else if let Some(i) = scan_choice(fallback_eligible(p, q, range), beats_by(p, true), n) {
        Pick::Entry(i)
    } else {
        nothing_found(p, q, range)
    }
}

/// When the pick comes to the scan (the range resolves and neither the
/// locked version nor `dist-tags.latest` is taken), the version that the
/// main scan keeps is beaten by no other eligible version: no eligible
/// version is higher (or, with `pick_lowest`, lower); and the version that
/// the lenient fallback keeps is lower than no other version eligible for
/// it.
pub open spec fn scan_is_best<M>(p: Packument<M>, q: PickQuery) -> bool {
    let n = p.versions@.len() as int;
    match resolved_range(p, q.range) {
        Some(r) => (locked_entry(p, q, r) is None && latest_entry(p, q, r) is None) ==> {
            &&& scan_choice(main_eligible(p, q, r), beats_by(p, q.pick_lowest), n) matches Some(k)
                ==> unbeaten(main_eligible(p, q, r), beats_by(p, q.pick_lowest), n, k)
            &&& scan_choice(fallback_eligible(p, q, r), beats_by(p, true), n) matches Some(k)
                ==> unbeaten(fallback_eligible(p, q, r), beats_by(p, true), n, k)
        },
        None => true,
    }
}

/// The outcome of a pick: no match when the range cannot be resolved, the
/// pick against the resolved range otherwise.
pub open spec fn pick_outcome<M>(p: Packument<M>, q: PickQuery) -> Pick {
    match resolved_range(p, q.range) {
        Some(range) => pick_in_range(p, q, range),
        None => Pick::NoMatch,
    }
}

/// Whether the version written `ver` clears `wall`.
fn clears_wall<M>(p: &Packument<M>, ver: &str, wall: Option<&str>) -> (ok: bool)
    ensures
        ok == clears(*p, ver@, opt_text(wall)),
{
    match wall {
        None => true,
        Some(c) => match lookup(&p.time, ver) {
            Some(t) => text_le_exec(t.as_str(), c),
            None => true,
        },
    }
}

/// Whether the version written `ver` clears the cutoff that applies to it,
/// asking the predicate whether it is exempt.
fn clears_applicable_cutoff<M, F: Fn(&str, Option<&SemVersion>) -> bool>(
    p: &Packument<M>,
    ver: &str,
    parsed: &SemVersion,
    cutoff: Option<&str>,
    exempt_cutoff: Option<&str>,
    is_age_exempt: &F,
) -> (ok: bool)
    requires
        answers_by_text(*is_age_exempt),
        parsed@ == ver@,
    ensures
        ok == clears(
            *p,
            ver@,
            if exempt_by(*is_age_exempt, ver@) {
                opt_text(exempt_cutoff)
            } else {
                opt_text(cutoff)
            },
        ),
{
    let exempt = is_age_exempt(ver, Some(parsed));
    proof {
        assert(parsed_from(ver, Some(parsed)));
        if !exempt && exempt_by(*is_age_exempt, ver@) {
            let (s, v) = choose|s: &str, v: Option<&SemVersion>|
                s@ == ver@ && parsed_from(s, v) && #[trigger] call_ensures(
                    *is_age_exempt,
                    (s, v),
                    true,
                );
            assert(call_ensures(*is_age_exempt, (ver, Some(parsed)), exempt));
        }
    }
    let wall = if exempt {
        exempt_cutoff
    } else {
        cutoff
    };
    clears_wall(p, ver, wall)
}

/// The range that a pick matches against, parsed.
fn resolve_range<M>(packument: &Packument<M>, range_str: &str) -> (range: Option<SemRange>)
    ensures
        match resolved_range(*packument, range_str@) {
            Some(r) => range matches Some(x) && x@ == r,
            None => range is None,
        },
{
    if let Some(r) = parse_range(normalize_range(range_str)) {
        return Some(r);
    }
    // Protocol-prefixed ranges never fall through to the dist-tags: a
    // dist-tag literally named `workspace:*` must not resolve such a spec.
    if looks_like_protocol_range(range_str) {
        return None;
    }
    let effective: String = match lookup(&packument.dist_tags, range_str) {
        Some(tagged) => tagged.clone(),
        None => {
            if text_eq(range_str, "latest") {
                match highest_stable_version(packument) {
                    Some(v) => v,
                    None => return None,
                }
            } else {
                return None;
            }
        },
    };
    parse_range(normalize_range(effective.as_str()))
}

/// The entry for the version written `ver`, when that version parses,
/// satisfies `range`, clears its cutoff and is published.
fn preferred<M, F: Fn(&str, Option<&SemVersion>) -> bool>(
    packument: &Packument<M>,
    range: &SemRange,
    ver: &str,
    cutoff: Option<&str>,
    exempt_cutoff: Option<&str>,
    is_age_exempt: &F,
    Ghost(q): Ghost<PickQuery>,
) -> (entry: Option<usize>)
    requires
        answers_by_text(*is_age_exempt),
        q.cutoff == opt_text(cutoff),
        q.exempt_cutoff == opt_text(exempt_cutoff),
        q.exempt == exemptions(*is_age_exempt),
    ensures
        entry matches Some(i) ==> preferred_entry(*packument, q, range@, ver@) == Some(i as int)
            && i < packument.versions@.len(),
        entry is None ==> preferred_entry(*packument, q, range@, ver@) is None,
{
    let v = match parse_version(ver) {
        Some(v) => v,
        None => return None,
    };
    if !satisfies(&v, range) {
        return None;
    }
    if !clears_applicable_cutoff(packument, ver, &v, cutoff, exempt_cutoff, is_age_exempt) {
        return None;
    }
    find_key(&packument.versions, ver)
}

/// Pick the best version from a packument that satisfies the given range.
///
/// A locked version that satisfies the range and clears its cutoff wins;
/// next `dist-tags.latest` when it does (unless `pick_lowest`); otherwise
/// the highest (or, with `pick_lowest`, the lowest) satisfying version that
/// clears its cutoff. `cutoff` filters out versions published after it;
/// versions without a publish time stay eligible. For versions that
/// `is_age_exempt` exempts, only `exempt_cutoff` applies. When
/// the cutoff filters out every satisfying version, strict mode (or no
/// cutoff at all) gives up, while lenient mode falls back to the lowest
/// satisfying version that still clears `exempt_cutoff`.
pub fn pick_version<'a, M, F: Fn(&str, Option<&SemVersion>) -> bool>(
    packument: &'a Packument<M>,
    range_str: &str,
    locked: Option<&str>,
    pick_lowest: bool,
    cutoff: Option<&str>,
    exempt_cutoff: Option<&str>,
    strict: bool,
    is_age_exempt: F,
) -> (picked: PickResult<'a, M>)
    requires
        answers_by_text(is_age_exempt),
    ensures
        match pick_outcome(
            *packument,
            query_of(range_str, locked, pick_lowest, cutoff, exempt_cutoff, strict, is_age_exempt),
        ) {
            Pick::Entry(i) => picked == PickResult::Found(&packument.versions@[i].1),
            Pick::NoMatch => picked is NoMatch,
            Pick::AgeGated => picked is AgeGated,
        },
        scan_is_best(
            *packument,
            query_of(range_str, locked, pick_lowest, cutoff, exempt_cutoff, strict, is_age_exempt),
        ),
{
    let ghost p = *packument;
    let ghost q = query_of(range_str, locked, pick_lowest, cutoff, exempt_cutoff, strict, is_age_exempt);
    let range = match resolve_range(packument, range_str) {
        Some(r) => r,
        None => return PickResult::NoMatch,
    };
    let ghost r = range@;
    assert(resolved_range(p, q.range) == Some(r));
    // Prefer the locked version if it satisfies and clears the cutoff.
    if let Some(locked_ver) = locked {
        if let Some(i) = preferred(
            packument,
            &range,
            locked_ver,
            cutoff,
            exempt_cutoff,
            &is_age_exempt,
            Ghost(q),
        ) {
            assert(locked_entry(p, q, r) == Some(i as int));
            return PickResult::Found(&packument.versions[i].1);
        }
    }
    assert(locked_entry(p, q, r) is None);
    // Prefer `dist-tags.latest` over the strictly highest version.
    if !pick_lowest {
        if let Some(t) = find_key(&packument.dist_tags, "latest") {
            let latest_ver = packument.dist_tags[t].1.as_str();
            if let Some(i) = preferred(
                packument,
                &range,
                latest_ver,
                cutoff,
                exempt_cutoff,
                &is_age_exempt,
                Ghost(q),
            ) {
                assert(value_at(p.dist_tags@, "latest"@) == Some(packument.dist_tags@[t as int].1));
                assert(latest_entry(p, q, r) == Some(i as int));
                return PickResult::Found(&packument.versions[i].1);
            }
            assert(value_at(p.dist_tags@, "latest"@) == Some(packument.dist_tags@[t as int].1));
        }
    }
    assert(latest_entry(p, q, r) is None);
    let mut had_satisfying_but_age_gated = false;
    let mut best: Option<(SemVersion, usize)> = None;
    let mut fallback_lowest: Option<(SemVersion, usize)> = None;
    let n = packument.versions.len();
    let ghost me = main_eligible(p, q, r);
    let ghost mb = beats_by(p, q.pick_lowest);
    let ghost fe = fallback_eligible(p, q, r);
    let ghost fb = beats_by(p, true);
    for i in 0..n
        invariant
            n == p.versions@.len(),
            p == *packument,
            r == range@,
            answers_by_text(is_age_exempt),
            q == query_of(range_str, locked, pick_lowest, cutoff, exempt_cutoff, strict, is_age_exempt),
            match scan_choice(main_eligible(p, q, r), beats_by(p, q.pick_lowest), i as int) {
                Some(k) => best matches Some(b) && b.1 == k && b.0@ == version_text(p, k),
                None => best is None,
            },
            match scan_choice(fallback_eligible(p, q, r), beats_by(p, true), i as int) {
                Some(k) => fallback_lowest matches Some(b) && b.1 == k && b.0@ == version_text(p, k),
                None => fallback_lowest is None,
            },
            had_satisfying_but_age_gated == exists|j: int|
                0 <= j < i && #[trigger] in_range(p, r, j) && !clears_cutoff(p, q, version_text(p, j)),
            me == main_eligible(p, q, r),
            mb == beats_by(p, q.pick_lowest),
            fe == fallback_eligible(p, q, r),
            fb == beats_by(p, true),
            scan_choice(me, mb, i as int) matches Some(k) ==> unbeaten(me, mb, i as int, k),
            scan_choice(fe, fb, i as int) matches Some(k) ==> unbeaten(fe, fb, i as int, k),
    {
        proof {
            lemma_scan_choice_eligible(me, mb, i as int);
            lemma_scan_choice_eligible(fe, fb, i as int);
        }
        let ghost gated_before = had_satisfying_but_age_gated;
        let ghost gated_here = in_range(p, r, i as int) && !clears_cutoff(p, q, version_text(p, i as int));
        let ver_str = packument.versions[i].0.as_str();
        if let Some(v) = parse_version(ver_str) {
            if satisfies(&v, &range) {
                // The lenient fallback drops the age gate but never the
                // time-based wall.
                if clears_wall(packument, ver_str, exempt_cutoff) {
                    let replace = match &fallback_lowest {
                        None => true,
                        Some(cur) => {
                            let l = version_less(&v, &cur.0);
                            proof {
                                let k = cur.1 as int;
                                if l {
                                    assert forall|j: int|
                                        0 <= j < i && j != k && #[trigger] fe(j) implies !fb(
                                        j,
                                        i as int,
                                    ) by {
                                        assert(!fb(j, k));
                                        assert(semver_version_parses(version_text(p, j)));
                                        assert(semver_less(version_text(p, j), v@) ==> semver_less(
                                            version_text(p, j),
                                            cur.0@,
                                        ));
                                    }
                                }
                            }
                            l
                        },
                    };
                    if replace {
                        fallback_lowest = Some((v.clone_parsed(), i));
                    }
                }
                if clears_applicable_cutoff(
                    packument,
                    ver_str,
                    &v,
                    cutoff,
                    exempt_cutoff,
                    &is_age_exempt,
                ) {
                    let replace = match &best {
                        None => true,
                        Some(cur) => {
                            let l = if pick_lowest {
                                version_less(&v, &cur.0)
                            } else {
                                version_less(&cur.0, &v)
                            };
                            proof {
                                let k = cur.1 as int;
                                if l {
                                    assert forall|j: int|
                                        0 <= j < i && j != k && #[trigger] me(j) implies !mb(
                                        j,
                                        i as int,
                                    ) by {
                                        assert(!mb(j, k));
                                        assert(semver_version_parses(version_text(p, j)));
                                        if pick_lowest {
                                            assert(semver_less(version_text(p, j), v@) ==> semver_less(
                                                version_text(p, j),
                                                cur.0@,
                                            ));
                                        } else {
                                            assert(semver_less(v@, version_text(p, j)) ==> semver_less(
                                                cur.0@,
                                                version_text(p, j),
                                            ));
                                        }
                                    }
                                }
                            }
                            l
                        },
                    };
                    if replace {
                        best = Some((v, i));
                    }
                } else {
                    had_satisfying_but_age_gated = true;
                }
            }
        }
        assert(scan_choice(me, mb, i + 1) matches Some(k) ==> unbeaten(me, mb, i + 1, k));
        assert(scan_choice(fe, fb, i + 1) matches Some(k) ==> unbeaten(fe, fb, i + 1, k));
        assert(had_satisfying_but_age_gated == (gated_before || gated_here));
        assert((exists|j: int|
            0 <= j < i + 1 && #[trigger] in_range(p, r, j) && !clears_cutoff(p, q, version_text(p, j)))
            == (gated_before || gated_here)) by {
            if gated_here {
                assert(in_range(p, r, i as int));
            }
        }
    }
    proof {
        lemma_scan_choice_eligible(main_eligible(p, q, r), beats_by(p, q.pick_lowest), n as int);
        lemma_scan_choice_eligible(fallback_eligible(p, q, r), beats_by(p, true), n as int);
    }
    if let Some(b) = best {
        return PickResult::Found(&packument.versions[b.1].1);
    }
    // Strict mode (or no cutoff active): give up, telling an age-gate
    // failure apart from an unsatisfiable range.
    if strict || cutoff.is_none() {
        return if had_satisfying_but_age_gated {
            PickResult::AgeGated
        } else {
            PickResult::NoMatch
        };
    }
    // Lenient fallback: the lowest satisfying version that clears the
    // time-based wall.
    if let Some(b) = fallback_lowest {
        return PickResult::Found(&packument.versions[b.1].1);
    }
    if had_satisfying_but_age_gated {
        PickResult::AgeGated
    } else {
        PickResult::NoMatch
    }
}

/// A kept position stays kept unless a later eligible position beats it.
proof fn lemma_scan_kept_unbeaten(
    eligible: spec_fn(int) -> bool,
    beats: spec_fn(int, int) -> bool,
    n: int,
    j: int,
)
    requires
        scan_choice(eligible, beats, n) matches Some(k) && k < j < n,
    ensures
        !(eligible(j) && beats(j, scan_choice(eligible, beats, n)->0)),
    decreases n,
{
    lemma_scan_choice_eligible(eligible, beats, n - 1);
    if j < n - 1 {
        lemma_scan_kept_unbeaten(eligible, beats, n - 1, j);
    }
}

/// A version that a pick returns lies in the resolved range: it parses and
/// satisfies that range.
pub proof fn law_found_version_satisfies_range<M>(p: Packument<M>, q: PickQuery)
    ensures
        pick_outcome(p, q) matches Pick::Entry(i) ==> {
            &&& resolved_range(p, q.range) is Some
            &&& 0 <= i < p.versions@.len()
            &&& in_range(p, resolved_range(p, q.range)->0, i)
        },
{
    if let Some(r) = resolved_range(p, q.range) {
        let n = p.versions@.len() as int;
        lemma_scan_choice_eligible(main_eligible(p, q, r), beats_by(p, q.pick_lowest), n);
        lemma_scan_choice_eligible(fallback_eligible(p, q, r), beats_by(p, true), n);
        lemma_preferred_entry(p, q, r, q.locked);
        lemma_preferred_entry(p, q, r, match value_at(p.dist_tags@, "latest"@) {
            Some(l) => Some(l@),
            None => None,
        });
    }
}

/// What a preferred entry is: the published entry of a version that parses,
/// satisfies the range and clears its cutoff.
proof fn lemma_preferred_entry<M>(p: Packument<M>, q: PickQuery, r: Seq<char>, ver: Option<Seq<char>>)
    ensures
        ver matches Some(v) ==> (preferred_entry(p, q, r, v) matches Some(i) ==> {
            &&& 0 <= i < p.versions@.len()
            &&& version_text(p, i) == v
            &&& in_range(p, r, i)
            &&& clears_cutoff(p, q, v)
        }),
{
    if let Some(v) = ver {
        if let Some(i) = preferred_entry(p, q, r, v) {
            assert(is_first_key(p.versions@, v, i));
        }
    }
}

/// In strict mode, and whenever no cutoff is set, a returned version always
/// clears the cutoff that applies to it: the age gate is a hard wall.
pub proof fn law_strict_pick_clears_cutoff<M>(p: Packument<M>, q: PickQuery)
    requires
        q.strict || q.cutoff is None,
    ensures
        pick_outcome(p, q) matches Pick::Entry(i) ==> clears_cutoff(p, q, version_text(p, i)),
{
    if let Some(r) = resolved_range(p, q.range) {
        let n = p.versions@.len() as int;
        lemma_scan_choice_eligible(main_eligible(p, q, r), beats_by(p, q.pick_lowest), n);
        lemma_preferred_entry(p, q, r, q.locked);
        lemma_preferred_entry(p, q, r, match value_at(p.dist_tags@, "latest"@) {
            Some(l) => Some(l@),
            None => None,
        });
    }
}

/// A returned version clears the cutoff that applies to it, or else it is
/// the lenient fallback, which still clears the time-based wall
/// `exempt_cutoff`.
pub proof fn law_pick_respects_time_wall<M>(p: Packument<M>, q: PickQuery)
    ensures
        pick_outcome(p, q) matches Pick::Entry(i) ==> clears_cutoff(p, q, version_text(p, i)) || (
        !q.strict && q.cutoff is Some && clears(p, version_text(p, i), q.exempt_cutoff)),
{
    if let Some(r) = resolved_range(p, q.range) {
        let n = p.versions@.len() as int;
        lemma_scan_choice_eligible(main_eligible(p, q, r), beats_by(p, q.pick_lowest), n);
        lemma_scan_choice_eligible(fallback_eligible(p, q, r), beats_by(p, true), n);
        lemma_preferred_entry(p, q, r, q.locked);
        lemma_preferred_entry(p, q, r, match value_at(p.dist_tags@, "latest"@) {
            Some(l) => Some(l@),
            None => None,
        });
    }
}

/// "No match" against a range that resolves means that no published
/// version satisfies that range; the age gate is never reported as "no
/// match".
pub proof fn law_no_match_means_nothing_in_range<M>(p: Packument<M>, q: PickQuery)
    ensures
        pick_outcome(p, q) is NoMatch && resolved_range(p, q.range) is Some ==> forall|i: int|
            0 <= i < p.versions@.len() ==> !#[trigger] in_range(p, resolved_range(p, q.range)->0, i),
{
    if let Some(r) = resolved_range(p, q.range) {
        let n = p.versions@.len() as int;
        lemma_scan_choice_eligible(main_eligible(p, q, r), beats_by(p, q.pick_lowest), n);
        lemma_scan_choice_eligible(fallback_eligible(p, q, r), beats_by(p, true), n);
        if pick_outcome(p, q) is NoMatch {
            assert forall|i: int| 0 <= i < p.versions@.len() implies !#[trigger] in_range(p, r, i) by {
                if in_range(p, r, i) {
                    if clears_cutoff(p, q, version_text(p, i)) {
                        assert(main_eligible(p, q, r)(i));
                    } else {
                        assert(age_gated(p, q, r));
                    }
                }
            }
        }
    }
}

/// "Age gated" means that some version satisfies the resolved range but
/// every such version was held back by its cutoff (and, in lenient mode,
/// none clears the time-based wall either).
pub proof fn law_age_gated_means_all_held_back<M>(p: Packument<M>, q: PickQuery)
    ensures
        pick_outcome(p, q) is AgeGated ==> {
            &&& resolved_range(p, q.range) is Some
            &&& age_gated(p, q, resolved_range(p, q.range)->0)
            &&& forall|i: int|
                0 <= i < p.versions@.len() && #[trigger] in_range(p, resolved_range(p, q.range)->0, i)
                    ==> !clears_cutoff(p, q, version_text(p, i))
            &&& (!q.strict && q.cutoff is Some) ==> forall|i: int|
                0 <= i < p.versions@.len() && #[trigger] in_range(p, resolved_range(p, q.range)->0, i)
                    ==> !clears(p, version_text(p, i), q.exempt_cutoff)
        },
{
    if let Some(r) = resolved_range(p, q.range) {
        let n = p.versions@.len() as int;
        lemma_scan_choice_eligible(main_eligible(p, q, r), beats_by(p, q.pick_lowest), n);
        lemma_scan_choice_eligible(fallback_eligible(p, q, r), beats_by(p, true), n);
        if pick_outcome(p, q) is AgeGated && !q.strict && q.cutoff is Some {
            assert forall|i: int|
                0 <= i < p.versions@.len() && #[trigger] in_range(p, r, i) implies !clears(
                p,
                version_text(p, i),
                q.exempt_cutoff,
            ) by {
                if clears(p, version_text(p, i), q.exempt_cutoff) {
                    assert(fallback_eligible(p, q, r)(i));
                }
            }
        }
        if pick_outcome(p, q) is AgeGated {
            assert forall|i: int|
                0 <= i < p.versions@.len() && #[trigger] in_range(p, r, i) implies !clears_cutoff(
                p,
                q,
                version_text(p, i),
            ) by {
                if clears_cutoff(p, q, version_text(p, i)) {
                    assert(main_eligible(p, q, r)(i));
                }
            }
        }
    }
}

/// A range that does not parse and looks like a protocol selector
/// (`workspace:`, `catalog:`, `git+https:`, ...) never matches, whatever
/// dist-tags the packument carries.
pub proof fn law_protocol_ranges_never_match<M>(p: Packument<M>, q: PickQuery)
    requires
        !semver_range_parses(normalized(q.range)),
        protocol_like(q.range),
    ensures
        pick_outcome(p, q) is NoMatch,
{
}

/// A locked version that is published, satisfies the resolved range and
/// clears its cutoff is the one picked.
pub proof fn law_locked_version_wins<M>(p: Packument<M>, q: PickQuery, i: int)
    requires
        resolved_range(p, q.range) is Some,
        q.locked is Some,
        semver_version_parses(q.locked->0),
        semver_satisfies(q.locked->0, resolved_range(p, q.range)->0),
        clears_cutoff(p, q, q.locked->0),
        is_first_key(p.versions@, q.locked->0, i),
    ensures
        pick_outcome(p, q) == Pick::Entry(i),
{
    let k = choose|k: int| is_first_key(p.versions@, q.locked->0, k);
    crate::packument::lemma_first_key_unique(p.versions@, q.locked->0, i, k);
}

/// No version listed after the picked one beats it in the scan: with the
/// highest-version scan no later eligible version is higher, with the
/// lowest-version scan none is lower.
pub proof fn law_scan_pick_unbeaten_by_later<M>(p: Packument<M>, q: PickQuery, j: int)
    requires
        resolved_range(p, q.range) matches Some(r) && locked_entry(p, q, r) is None && latest_entry(
            p,
            q,
            r,
        ) is None && scan_choice(
            main_eligible(p, q, r),
            beats_by(p, q.pick_lowest),
            p.versions@.len() as int,
        ) is Some,
        pick_outcome(p, q) matches Pick::Entry(i) && i < j < p.versions@.len(),
        in_range(p, resolved_range(p, q.range)->0, j),
        clears_cutoff(p, q, version_text(p, j)),
    ensures
        pick_outcome(p, q) matches Pick::Entry(i) && !(if q.pick_lowest {
            semver_less(version_text(p, j), version_text(p, i))
        } else {
            semver_less(version_text(p, i), version_text(p, j))
        }),
{
    let r = resolved_range(p, q.range)->0;
    let n = p.versions@.len() as int;
    lemma_scan_kept_unbeaten(main_eligible(p, q, r), beats_by(p, q.pick_lowest), n, j);
}

/// A range that is no range and no protocol selector but names a dist-tag
/// resolves to that tag's target (blank read as `*`) when the target
/// parses; the highest stable version stands in for `latest` only when
/// the packument has no `latest` tag.
pub proof fn law_dist_tag_names_the_range<M>(p: Packument<M>, range: Seq<char>)
    requires
        !semver_range_parses(normalized(range)),
        !protocol_like(range),
    ensures
        value_at(p.dist_tags@, range) matches Some(t) ==> resolved_range(p, range) == if semver_range_parses(
            normalized(t@),
        ) {
            Some(normalized(t@))
        } else {
            None::<Seq<char>>
        },
        value_at(p.dist_tags@, range) is None && range != "latest"@ ==> resolved_range(p, range)
            is None,
{
}

/// Whenever some version in the resolved range clears the cutoff that
/// applies to it, the pick finds a version, and that version clears its
/// cutoff too: a locked version or `dist-tags.latest` that fails its cutoff
/// is never taken while another version clears it, and the lenient fallback
/// is reached only when no version in range clears its cutoff.
pub proof fn law_pick_clears_cutoff_when_some_version_does<M>(p: Packument<M>, q: PickQuery, j: int)
    requires
        resolved_range(p, q.range) matches Some(r) && 0 <= j < p.versions@.len() && in_range(
            p,
            r,
            j,
        ) && clears_cutoff(p, q, version_text(p, j)),
    ensures
        pick_outcome(p, q) matches Pick::Entry(k) && 0 <= k < p.versions@.len() && clears_cutoff(
            p,
            q,
            version_text(p, k),
        ),
{
    let r = resolved_range(p, q.range)->0;
    let n = p.versions@.len() as int;
    lemma_scan_choice_eligible(main_eligible(p, q, r), beats_by(p, q.pick_lowest), n);
    assert(main_eligible(p, q, r)(j));
    lemma_preferred_entry(p, q, r, q.locked);
    lemma_preferred_entry(p, q, r, match value_at(p.dist_tags@, "latest"@) {
        Some(l) => Some(l@),
        None => None,
    });
}

/// A version without a publish time clears every wall: the cutoff is
/// ignored for it and it stays eligible.
pub proof fn law_untimed_version_clears_any_wall<M>(
    p: Packument<M>,
    ver: Seq<char>,
    wall: Option<Seq<char>>,
)
    requires
        value_at(p.time@, ver) is None,
    ensures
        clears(p, ver, wall),
{
}

/// The highest stable version is a published version that parses and has
/// no pre-release part; there is none only when no published version is
/// stable.
pub proof fn law_highest_stable_is_stable<M>(p: Packument<M>)
    ensures
        highest_stable(p) matches Some(t) ==> exists|i: int|
            0 <= i < p.versions@.len() && version_text(p, i) == t && semver_version_parses(t)
                && !semver_is_prerelease(t),
        highest_stable(p) is None ==> forall|i: int|
            0 <= i < p.versions@.len() ==> !(semver_version_parses(#[trigger] version_text(p, i))
                && !semver_is_prerelease(version_text(p, i))),
{
    lemma_scan_choice_eligible(stable_at(p), beats_by(p, false), p.versions@.len() as int);
    if let Some(i) = stable_index(p) {
        assert(stable_at(p)(i));
    } else {
        assert forall|i: int| 0 <= i < p.versions@.len() implies !(semver_version_parses(
            #[trigger] version_text(p, i),
        ) && !semver_is_prerelease(version_text(p, i))) by {
            assert(!stable_at(p)(i));
        }
    }
}

} // verus!
