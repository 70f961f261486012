use aube_kit::range::{
    looks_like_protocol_range, normalize_range, strip_alias_prefix, version_satisfies,
};

#[test]
fn normalize_range_blank_becomes_star() {
    assert_eq!(normalize_range(""), "*");
    assert_eq!(normalize_range("   "), "*");
    assert_eq!(normalize_range("\t\n "), "*");
    assert_eq!(normalize_range("\u{3000}\u{a0}"), "*");
}

#[test]
fn normalize_range_keeps_real_ranges() {
    assert_eq!(normalize_range("^1.2.0"), "^1.2.0");
    assert_eq!(normalize_range(" 1.x "), " 1.x ");
    assert_eq!(normalize_range("*"), "*");
}

#[test]
fn normalize_range_twice_is_once() {
    for r in ["", "  ", "^1", "*", "latest"] {
        assert_eq!(normalize_range(normalize_range(r)), normalize_range(r));
    }
}

#[test]
fn strip_alias_prefix_npm_and_jsr() {
    assert_eq!(strip_alias_prefix("npm:foo@^1.2.3"), "^1.2.3");
    assert_eq!(strip_alias_prefix("npm:@scope/foo@1.0.0"), "1.0.0");
    assert_eq!(strip_alias_prefix("jsr:@std/path@^1"), "^1");
}

#[test]
fn strip_alias_prefix_without_version_tail() {
    assert_eq!(strip_alias_prefix("npm:foo"), "npm:foo");
    assert_eq!(strip_alias_prefix("npm:@scope/foo"), "npm:@scope/foo");
    assert_eq!(strip_alias_prefix("jsr:@std/path"), "jsr:@std/path");
    assert_eq!(strip_alias_prefix("npm:"), "npm:");
}

#[test]
fn strip_alias_prefix_leaves_other_specs() {
    assert_eq!(strip_alias_prefix("^1.0.0"), "^1.0.0");
    assert_eq!(strip_alias_prefix("NPM:foo@1"), "NPM:foo@1");
    assert_eq!(strip_alias_prefix("npm"), "npm");
    assert_eq!(strip_alias_prefix("workspace:*"), "workspace:*");
}

#[test]
fn strip_alias_prefix_gives_a_suffix() {
    for s in ["npm:a@b@c", "jsr:x", "foo", "npm:@x@", "", "npm:@x"] {
        assert!(s.ends_with(strip_alias_prefix(s)));
    }
    assert_eq!(strip_alias_prefix("npm:a@b@c"), "c");
    assert_eq!(strip_alias_prefix("npm:@x@"), "");
}

#[test]
fn protocol_ranges_are_recognised() {
    for r in [
        "workspace:*", "catalog:", "npm:foo@1", "jsr:@std/x", "file:../x", "link:../y",
        "git:x", "git+ssh://x", "git+http://x", "git+https://x", "git+file://x", "ssh://x",
        "http://x", "https://x", "github:a/b", "gitlab:a/b", "bitbucket:a/b", "gist:abc",
    ] {
        assert!(looks_like_protocol_range(r), "{r}");
    }
}

#[test]
fn protocol_check_ignores_case() {
    assert!(looks_like_protocol_range("Workspace:*"));
    assert!(looks_like_protocol_range("GIT+HTTPS://example.com/x.git"));
    assert!(looks_like_protocol_range("CaTaLoG:default"));
}

#[test]
fn non_protocol_ranges() {
    assert!(!looks_like_protocol_range("^1.0.0"));
    assert!(!looks_like_protocol_range("latest"));
    assert!(!looks_like_protocol_range("foo:bar"));
    assert!(!looks_like_protocol_range("workspace"));
    assert!(!looks_like_protocol_range(" workspace:*"));
    assert!(!looks_like_protocol_range(""));
}

#[test]
fn version_satisfies_basic() {
    assert!(version_satisfies("1.2.3", "^1.0.0"));
    assert!(!version_satisfies("2.0.0", "^1.0.0"));
    assert!(version_satisfies("1.2.3", ">=1.2.3 <2"));
    assert!(!version_satisfies("1.2.2", ">=1.2.3 <2"));
}

#[test]
fn version_satisfies_blank_range_is_any() {
    assert!(version_satisfies("1.2.3", ""));
    assert!(version_satisfies("0.0.1", "   "));
}

#[test]
fn version_satisfies_unparseable_is_false() {
    assert!(!version_satisfies("not-a-version", "*"));
    assert!(!version_satisfies("1.0.0", "this is ~~ not a range"));
}
