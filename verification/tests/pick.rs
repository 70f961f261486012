use aube_kit::packument::Packument;
use aube_kit::pick::{highest_stable_version, pick_version, PickResult};
use aube_kit::semver::SemVersion;

fn s(x: &str) -> String {
    x.to_string()
}

fn packument(versions: &[&str], tags: &[(&str, &str)], time: &[(&str, &str)]) -> Packument<String> {
    Packument {
        versions: versions.iter().map(|v| (s(v), format!("meta {v}"))).collect(),
        dist_tags: tags.iter().map(|(a, b)| (s(a), s(b))).collect(),
        time: time.iter().map(|(a, b)| (s(a), s(b))).collect(),
    }
}

fn no_exempt(_: &str, _: Option<&SemVersion>) -> bool {
    false
}

fn found(r: PickResult<'_, String>) -> Option<String> {
    match r {
        PickResult::Found(m) => Some(m.clone()),
        _ => None,
    }
}

fn pick<'a>(
    p: &'a Packument<String>,
    range: &str,
    locked: Option<&str>,
    lowest: bool,
    cutoff: Option<&str>,
    exempt_cutoff: Option<&str>,
    strict: bool,
) -> PickResult<'a, String> {
    pick_version(p, range, locked, lowest, cutoff, exempt_cutoff, strict, no_exempt)
}

#[test]
fn picks_highest_in_range() {
    let p = packument(&["1.0.0", "1.2.0", "1.1.5", "2.0.0"], &[], &[]);
    assert_eq!(found(pick(&p, "^1.0.0", None, false, None, None, false)), Some(s("meta 1.2.0")));
}

#[test]
fn picks_lowest_when_asked() {
    let p = packument(&["1.2.0", "1.0.0", "1.1.5", "2.0.0"], &[], &[]);
    assert_eq!(found(pick(&p, "^1.0.0", None, true, None, None, false)), Some(s("meta 1.0.0")));
}

#[test]
fn locked_version_wins() {
    let p = packument(&["1.0.0", "1.2.0", "2.0.0"], &[("latest", "1.2.0")], &[]);
    assert_eq!(
        found(pick(&p, "^1.0.0", Some("1.0.0"), false, None, None, false)),
        Some(s("meta 1.0.0"))
    );
}

#[test]
fn locked_version_outside_range_is_ignored() {
    let p = packument(&["1.0.0", "1.2.0", "2.0.0"], &[], &[]);
    assert_eq!(
        found(pick(&p, "^1.0.0", Some("2.0.0"), false, None, None, false)),
        Some(s("meta 1.2.0"))
    );
    assert_eq!(
        found(pick(&p, "^1.0.0", Some("1.5.0"), false, None, None, false)),
        Some(s("meta 1.2.0"))
    );
}

#[test]
fn latest_tag_preferred_over_highest() {
    let p = packument(&["1.0.0", "1.2.0", "1.3.0-beta.1"], &[("latest", "1.0.0")], &[]);
    assert_eq!(found(pick(&p, "^1.0.0", None, false, None, None, false)), Some(s("meta 1.0.0")));
}

#[test]
fn latest_tag_skipped_when_picking_lowest_or_outside_range() {
    let p = packument(&["1.0.0", "1.2.0", "2.0.0"], &[("latest", "1.2.0")], &[]);
    assert_eq!(found(pick(&p, "^1.0.0", None, true, None, None, false)), Some(s("meta 1.0.0")));
    let p = packument(&["1.0.0", "1.2.0", "2.0.0"], &[("latest", "2.0.0")], &[]);
    assert_eq!(found(pick(&p, "^1.0.0", None, false, None, None, false)), Some(s("meta 1.2.0")));
}

#[test]
fn dist_tag_as_range() {
    let p = packument(&["1.0.0", "2.0.0-beta.1"], &[("beta", "2.0.0-beta.1"), ("latest", "1.0.0")], &[]);
    assert_eq!(found(pick(&p, "beta", None, false, None, None, false)), Some(s("meta 2.0.0-beta.1")));
    assert_eq!(found(pick(&p, "latest", None, false, None, None, false)), Some(s("meta 1.0.0")));
}

#[test]
fn missing_latest_tag_falls_back_to_highest_stable() {
    let p = packument(&["1.0.0", "1.4.0", "2.0.0-rc.1"], &[], &[]);
    assert_eq!(found(pick(&p, "latest", None, false, None, None, false)), Some(s("meta 1.4.0")));
    let only_pre = packument(&["2.0.0-rc.1"], &[], &[]);
    assert!(matches!(pick(&only_pre, "latest", None, false, None, None, false), PickResult::NoMatch));
}

#[test]
fn protocol_range_never_resolves_through_dist_tags() {
    let p = packument(&["1.0.0", "6.6.6"], &[("workspace:*", "6.6.6"), ("catalog:", "6.6.6")], &[]);
    assert!(matches!(pick(&p, "workspace:*", None, false, None, None, false), PickResult::NoMatch));
    assert!(matches!(pick(&p, "Catalog:", None, false, None, None, false), PickResult::NoMatch));
}

#[test]
fn unknown_tag_is_no_match() {
    let p = packument(&["1.0.0"], &[], &[]);
    assert!(matches!(pick(&p, "next", None, false, None, None, false), PickResult::NoMatch));
}

#[test]
fn nothing_in_range_is_no_match() {
    let p = packument(&["1.0.0", "1.2.0"], &[], &[]);
    assert!(matches!(pick(&p, "^5.0.0", None, false, None, None, false), PickResult::NoMatch));
    assert!(matches!(
        pick(&p, "^5.0.0", None, false, Some("2020-01-01T00:00:00.000Z"), None, true),
        PickResult::NoMatch
    ));
}

#[test]
fn blank_range_matches_any() {
    let p = packument(&["0.1.0", "3.0.0"], &[], &[]);
    assert_eq!(found(pick(&p, "", None, false, None, None, false)), Some(s("meta 3.0.0")));
}

fn timed() -> Packument<String> {
    packument(
        &["1.0.0", "1.1.0", "1.2.0"],
        &[],
        &[
            ("1.0.0", "2020-01-01T00:00:00.000Z"),
            ("1.1.0", "2021-01-01T00:00:00.000Z"),
            ("1.2.0", "2022-01-01T00:00:00.000Z"),
        ],
    )
}

#[test]
fn cutoff_filters_newer_versions() {
    let p = timed();
    assert_eq!(
        found(pick(&p, "^1.0.0", None, false, Some("2021-06-01T00:00:00.000Z"), None, true)),
        Some(s("meta 1.1.0"))
    );
    // a version published exactly at the cutoff clears it
    assert_eq!(
        found(pick(&p, "^1.0.0", None, false, Some("2021-01-01T00:00:00.000Z"), None, true)),
        Some(s("meta 1.1.0"))
    );
}

#[test]
fn version_without_time_is_eligible() {
    let p = packument(&["1.0.0", "1.3.0"], &[], &[("1.0.0", "2020-01-01T00:00:00.000Z")]);
    assert_eq!(
        found(pick(&p, "^1.0.0", None, false, Some("2019-01-01T00:00:00.000Z"), None, true)),
        Some(s("meta 1.3.0"))
    );
}

#[test]
fn strict_mode_reports_age_gate() {
    let p = timed();
    assert!(matches!(
        pick(&p, "^1.0.0", None, false, Some("2019-01-01T00:00:00.000Z"), None, true),
        PickResult::AgeGated
    ));
}

#[test]
fn locked_version_must_clear_cutoff() {
    let p = timed();
    assert_eq!(
        found(pick(&p, "^1.0.0", Some("1.2.0"), false, Some("2021-06-01T00:00:00.000Z"), None, true)),
        Some(s("meta 1.1.0"))
    );
}

#[test]
fn lenient_mode_falls_back_to_lowest() {
    let p = timed();
    assert_eq!(
        found(pick(&p, "^1.0.0", None, false, Some("2019-01-01T00:00:00.000Z"), None, false)),
        Some(s("meta 1.0.0"))
    );
}

#[test]
fn lenient_fallback_keeps_time_wall() {
    let p = timed();
    assert_eq!(
        found(pick(
            &p,
            "^1.0.0",
            None,
            false,
            Some("2019-01-01T00:00:00.000Z"),
            Some("2020-06-01T00:00:00.000Z"),
            false
        )),
        Some(s("meta 1.0.0"))
    );
    assert!(matches!(
        pick(
            &p,
            "^1.0.0",
            None,
            false,
            Some("2019-01-01T00:00:00.000Z"),
            Some("2019-06-01T00:00:00.000Z"),
            false
        ),
        PickResult::AgeGated
    ));
}

#[test]
fn exempt_versions_answer_to_exempt_cutoff() {
    let p = timed();
    let exempt = |v: &str, _: Option<&SemVersion>| v == "1.2.0";
    let r = pick_version(&p, "^1.0.0", None, false, Some("2019-01-01T00:00:00.000Z"), None, true, exempt);
    assert_eq!(found(r), Some(s("meta 1.2.0")));
    let r = pick_version(
        &p,
        "^1.0.0",
        None,
        false,
        Some("2019-01-01T00:00:00.000Z"),
        Some("2021-06-01T00:00:00.000Z"),
        true,
        exempt,
    );
    assert!(matches!(r, PickResult::AgeGated));
}

#[test]
fn unparseable_versions_are_skipped() {
    let p = packument(&["banana", "1.0.0", "1.9.9"], &[], &[]);
    assert_eq!(found(pick(&p, "*", None, false, None, None, false)), Some(s("meta 1.9.9")));
}

#[test]
fn highest_stable_version_skips_prereleases() {
    let p = packument(&["1.0.0", "3.0.0-alpha", "2.1.0", "x.y"], &[], &[]);
    assert_eq!(highest_stable_version(&p), Some(s("2.1.0")));
    let none = packument(&["1.0.0-rc.1", "nope"], &[], &[]);
    assert_eq!(highest_stable_version(&none), None);
    let empty = packument(&[], &[], &[]);
    assert_eq!(highest_stable_version(&empty), None);
}

#[test]
fn equal_versions_keep_the_first_met() {
    // build metadata does not take part in the order
    let p = packument(&["1.0.0+a", "1.0.0+b", "0.9.0"], &[], &[]);
    assert_eq!(found(pick(&p, "*", None, false, None, None, false)), Some(s("meta 1.0.0+a")));
    assert_eq!(found(pick(&p, "*", None, true, None, None, false)), Some(s("meta 0.9.0")));
    assert_eq!(highest_stable_version(&p), Some(s("1.0.0+a")));
}

#[test]
fn pick_is_highest_whatever_the_order() {
    let p = packument(&["1.3.0", "1.10.0", "1.2.0", "1.9.9", "1.10.0-rc.1"], &[], &[]);
    assert_eq!(found(pick(&p, "^1.0.0", None, false, None, None, false)), Some(s("meta 1.10.0")));
    assert_eq!(found(pick(&p, "^1.0.0", None, true, None, None, false)), Some(s("meta 1.2.0")));
    assert_eq!(highest_stable_version(&p), Some(s("1.10.0")));
}
