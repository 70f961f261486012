use aube_kit::config_get::{
    config_get_line, layer_sources, project_layers, user_layers, lookup_setting, render_value, uses_managed_entries, GetArgs, ListLocation,
};

fn s(x: &str) -> String {
    x.to_string()
}

fn entries(pairs: &[(&str, &str)]) -> Vec<(String, String)> {
    pairs.iter().map(|(k, v)| (s(k), s(v))).collect()
}

#[test]
fn local_flag_means_project() {
    let args = GetArgs { key: s("k"), json: false, local: true, location: ListLocation::Merged };
    assert!(args.effective_location() == ListLocation::Project);
    let args = GetArgs { key: s("k"), json: false, local: false, location: ListLocation::User };
    assert!(args.effective_location() == ListLocation::User);
}

#[test]
fn lookup_last_write_wins() {
    let aliases = vec![s("autoInstallPeers"), s("auto-install-peers")];
    let e = entries(&[("auto-install-peers", "false"), ("other", "1"), ("autoInstallPeers", "true")]);
    assert_eq!(lookup_setting(&e, &aliases), Some(s("true")));
    let e = entries(&[("autoInstallPeers", "true"), ("auto-install-peers", "false"), ("x", "y")]);
    assert_eq!(lookup_setting(&e, &aliases), Some(s("false")));
    assert_eq!(lookup_setting(&entries(&[("x", "y")]), &aliases), None);
}

#[test]
fn render_plain_and_json() {
    assert_eq!(render_value("hoisted", false), "hoisted");
    assert_eq!(render_value("hoisted", true), "\"hoisted\"");
    assert_eq!(render_value("a\"b\\c\n", true), "\"a\\\"b\\\\c\\n\"");
}

#[test]
fn get_line_cases() {
    let aliases = vec![s("nodeLinker"), s("node-linker")];
    let e = entries(&[("node-linker", "isolated")]);
    assert_eq!(config_get_line(None, &e, &aliases, false), "isolated");
    assert_eq!(config_get_line(None, &e, &aliases, true), "\"isolated\"");
    assert_eq!(config_get_line(Some(s("hoisted")), &e, &aliases, false), "hoisted");
    assert_eq!(config_get_line(None, &entries(&[]), &aliases, true), "undefined");
}

#[test]
fn managed_only_for_merged_known_settings() {
    assert!(uses_managed_entries(ListLocation::Merged, true, true));
    assert!(!uses_managed_entries(ListLocation::Merged, false, true));
    assert!(!uses_managed_entries(ListLocation::Merged, true, false));
    assert!(!uses_managed_entries(ListLocation::Project, true, true));
    assert!(!uses_managed_entries(ListLocation::User, true, true));
}

#[test]
fn render_json_control_characters() {
    assert_eq!(render_value("\u{1}\u{1f}\u{8}\u{c}\r\t", true), "\"\\u0001\\u001f\\b\\f\\r\\t\"");
    assert_eq!(render_value("\u{7f}é/", true), "\"\u{7f}é/\"");
    assert_eq!(render_value("", true), "\"\"");
}

#[test]
fn higher_source_wins() {
    let aliases = vec![s("nodeLinker")];
    let low = entries(&[("nodeLinker", "isolated"), ("a", "1")]);
    let high = entries(&[("nodeLinker", "hoisted")]);
    let both = layer_sources(low.clone(), high.clone());
    assert_eq!(both.len(), 3);
    assert_eq!(lookup_setting(&both, &aliases), Some(s("hoisted")));
    let both = layer_sources(low, entries(&[("b", "2")]));
    assert_eq!(lookup_setting(&both, &aliases), Some(s("isolated")));
}

#[test]
fn location_layers_in_precedence_order() {
    let aliases = vec![s("k")];
    let user = user_layers(entries(&[("k", "npmrc")]), entries(&[("k", "aube")]));
    assert_eq!(user, entries(&[("k", "npmrc"), ("k", "aube")]));
    assert_eq!(lookup_setting(&user, &aliases), Some(s("aube")));
    let project = project_layers(
        entries(&[("k", "yaml")]),
        entries(&[("k", "npmrc"), ("j", "1")]),
        entries(&[("j", "2")]),
    );
    assert_eq!(project, entries(&[("k", "yaml"), ("k", "npmrc"), ("j", "1"), ("j", "2")]));
    assert_eq!(lookup_setting(&project, &aliases), Some(s("npmrc")));
}
