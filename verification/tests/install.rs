use aube_kit::install::{
    add_batches, add_settings, added_specs, install_request, event_payload, fallback_reason, flag,
    initialize_embedder, install_settings, node_host, invalid_project_error, level_name, new_stats,
    omitted_kinds, package_spec, package_specs, phase_name, record_event, select_packages,
    to_install_failure, InstallEvent, InstallOutputLevel, InstallPhase, InstallProgress,
    PackageToAdd,
};

fn s(x: &str) -> String {
    x.to_string()
}

fn pkg(name: &str, version: Option<&str>, dev: Option<bool>) -> PackageToAdd {
    PackageToAdd { name: s(name), version: version.map(s), dev }
}

#[test]
fn package_spec_with_version() {
    assert_eq!(package_spec(pkg("left-pad", Some("1.3.0"), Some(true))), (s("left-pad@1.3.0"), true));
    assert_eq!(package_spec(pkg("@scope/x", Some("^2"), None)), (s("@scope/x@^2"), false));
}

#[test]
fn package_spec_without_version() {
    assert_eq!(package_spec(pkg("left-pad", None, None)), (s("left-pad"), false));
    assert_eq!(package_spec(pkg("left-pad", Some(""), Some(false))), (s("left-pad"), false));
}

#[test]
fn package_specs_keep_order() {
    let specs = package_specs(Some(vec![
        pkg("a", Some("1"), None),
        pkg("b", None, Some(true)),
        pkg("c", Some("2"), Some(false)),
    ]));
    assert_eq!(specs, vec![(s("a@1"), false), (s("b"), true), (s("c@2"), false)]);
    assert!(package_specs(None).is_empty());
    assert!(package_specs(Some(vec![])).is_empty());
}

#[test]
fn batches_regular_then_dev() {
    let packages = vec![(s("a"), true), (s("b"), false), (s("c"), true), (s("d"), false)];
    assert_eq!(
        add_batches(&packages),
        vec![(false, vec![s("b"), s("d")]), (true, vec![s("a"), s("c")])]
    );
    assert_eq!(select_packages(&packages, true), vec![s("a"), s("c")]);
}

#[test]
fn batches_skip_empty_kinds() {
    let only_dev = vec![(s("a"), true)];
    assert_eq!(add_batches(&only_dev), vec![(true, vec![s("a")])]);
    let only_regular = vec![(s("a"), false), (s("b"), false)];
    assert_eq!(add_batches(&only_regular), vec![(false, vec![s("a"), s("b")])]);
    assert!(add_batches(&vec![]).is_empty());
}

#[test]
fn batches_cover_every_package() {
    let packages = vec![(s("a"), true), (s("b"), false), (s("c"), true)];
    let total: usize = add_batches(&packages).iter().map(|b| b.1.len()).sum();
    assert_eq!(total, packages.len());
}

#[test]
fn added_specs_in_order() {
    let packages = vec![(s("a@1"), true), (s("b"), false)];
    assert_eq!(added_specs(packages), vec![s("a@1"), s("b")]);
}

#[test]
fn add_and_install_settings() {
    let a = add_settings(true, false, true);
    assert!(a.save_dev && a.save_exact && a.ignore_scripts && a.offline);
    assert!(!a.save_optional && !a.save_peer && !a.force);
    assert!(!a.dangerously_allow_all_builds && !a.osv_transitive_check);
    let i = install_settings(true, false);
    assert!(i.ignore_scripts && i.force && !i.offline);
    assert!(flag(Some(true)));
    assert!(!flag(Some(false)));
    assert!(!flag(None));
}

fn progress(resolved: usize, estimated_bytes: u64) -> InstallProgress {
    InstallProgress {
        resolved,
        total: 10,
        reused: 2,
        downloaded: 3,
        downloaded_bytes: 4096,
        estimated_bytes,
    }
}

#[test]
fn stats_follow_progress_events() {
    let mut stats = new_stats();
    record_event(&mut stats, &InstallEvent::Phase(InstallPhase::Resolving));
    assert_eq!((stats.resolved, stats.reused, stats.downloaded), (0, 0, 0));
    record_event(&mut stats, &InstallEvent::Progress(progress(5, 0)));
    assert_eq!((stats.resolved, stats.reused, stats.downloaded), (5, 2, 3));
    record_event(
        &mut stats,
        &InstallEvent::Output { level: InstallOutputLevel::Info, code: None, message: s("hi") },
    );
    assert_eq!((stats.resolved, stats.reused, stats.downloaded), (5, 2, 3));
    record_event(&mut stats, &InstallEvent::Progress(progress(7, 0)));
    assert_eq!(stats.resolved, 7);
}

#[test]
fn phase_and_level_names() {
    assert_eq!(phase_name(InstallPhase::Resolving), "resolving");
    assert_eq!(phase_name(InstallPhase::Fetching), "fetching");
    assert_eq!(phase_name(InstallPhase::Linking), "linking");
    assert_eq!(phase_name(InstallPhase::Complete), "complete");
    assert_eq!(level_name(InstallOutputLevel::Info), "info");
    assert_eq!(level_name(InstallOutputLevel::Warning), "warning");
    assert_eq!(level_name(InstallOutputLevel::Error), "error");
}

#[test]
fn payload_of_phase_event() {
    let p = event_payload(InstallEvent::Phase(InstallPhase::Linking));
    assert_eq!(p.kind, "phase");
    assert_eq!(p.phase.as_deref(), Some("linking"));
    assert!(p.level.is_none() && p.code.is_none() && p.message.is_none());
    assert!(p.resolved.is_none() && p.estimated_bytes.is_none());
}

#[test]
fn payload_of_progress_event() {
    let p = event_payload(InstallEvent::Progress(progress(5, 0)));
    assert_eq!(p.kind, "progress");
    assert!(p.phase.is_none() && p.level.is_none());
    assert_eq!(
        (p.resolved, p.total, p.reused, p.downloaded, p.downloaded_bytes),
        (Some(5), Some(10), Some(2), Some(3), Some(4096))
    );
    assert_eq!(p.estimated_bytes, None);
    let q = event_payload(InstallEvent::Progress(progress(1, 12345)));
    assert_eq!(q.estimated_bytes, Some(12345));
}

#[test]
fn payload_of_output_event() {
    let p = event_payload(InstallEvent::Output {
        level: InstallOutputLevel::Warning,
        code: Some(s("W1")),
        message: s("careful"),
    });
    assert_eq!(p.kind, "output");
    assert_eq!(p.level.as_deref(), Some("warning"));
    assert_eq!(p.code.as_deref(), Some("W1"));
    assert_eq!(p.message.as_deref(), Some("careful"));
    assert!(p.resolved.is_none());
}

#[test]
fn embedder_overrides() {
    assert_eq!(
        initialize_embedder(),
        vec![(s("nodeLinker"), s("hoisted")), (s("minimumReleaseAge"), s("0"))]
    );
}

fn entries(pairs: &[(&str, &str)]) -> Vec<(String, String)> {
    pairs.iter().map(|(k, v)| (s(k), s(v))).collect()
}

#[test]
fn omit_flags_from_npmrc() {
    assert_eq!(omitted_kinds(&entries(&[("omit", "dev")])), (true, false));
    assert_eq!(omitted_kinds(&entries(&[("omit", "dev,optional")])), (true, true));
    assert_eq!(omitted_kinds(&entries(&[("omit[]", " optional\tpeer")])), (false, true));
    assert_eq!(omitted_kinds(&entries(&[("omit", "devx,optionally")])), (false, false));
    assert_eq!(omitted_kinds(&entries(&[("registry", "dev")])), (false, false));
    assert_eq!(omitted_kinds(&entries(&[])), (false, false));
    assert_eq!(omitted_kinds(&entries(&[("omit", "a\ndev\n")])), (true, false));
}

#[test]
fn omit_flags_last_entry_wins() {
    let e = entries(&[("omit", "dev"), ("other", "x"), ("omit[]", "optional")]);
    assert_eq!(omitted_kinds(&e), (false, true));
}

#[test]
fn invalid_project_failure() {
    let f = invalid_project_error("ERR_X", "/tmp/p", "failed to create directory: denied");
    assert_eq!(f.code, "ERR_X");
    assert_eq!(f.message, "invalid project directory /tmp/p: failed to create directory: denied");
    assert_eq!(f.diagnostic, f.message);
}

#[test]
fn install_failure_codes() {
    let f = to_install_failure(Some(s("ERR_OWN")), "ERR_FALLBACK", s("m"), s("d"));
    assert_eq!((f.code.as_str(), f.message.as_str(), f.diagnostic.as_str()), ("ERR_OWN", "m", "d"));
    let g = to_install_failure(None, "ERR_FALLBACK", s("m"), s("d"));
    assert_eq!(g.code, "ERR_FALLBACK");
    assert_eq!(fallback_reason(&g), "[ERR_FALLBACK] m");
}

#[test]
fn missing_install_input_is_all_defaults() {
    let (specs, force, offline) = install_request(None, None, None);
    assert!(specs.is_empty() && !force && !offline);
    let (specs, force, offline) =
        install_request(Some(vec![pkg("a", Some("1"), Some(true))]), Some(true), Some(false));
    assert_eq!(specs, vec![(s("a@1"), true)]);
    assert!(force && !offline);
}

#[test]
fn node_host_record() {
    let h = node_host("1.2.3");
    assert_eq!((h.name.as_str(), h.display_name.as_str()), ("aube-node", "aube Node-API"));
    assert_eq!((h.version.as_str(), h.user_agent.as_str()), ("1.2.3", "aube-node/1.2.3"));
    assert_eq!(h.compatible_names, vec![s("npm"), s("pnpm"), s("bun"), s("yarn")]);
    assert_eq!(h.lockfile_basename, "aube-lock.yaml");
    assert_eq!((h.cache_namespace.as_str(), h.data_namespace.as_str()), ("aube-node", "aube-node"));
    assert!(h.vendor.is_none() && h.workspace_yaml.is_none() && h.env_prefix.is_none());
    assert!(h.config_env_prefix.is_none() && h.self_names.is_empty() && h.manifest_namespace.is_empty());
    assert!(!h.canonical_lockfile_always_wins && !h.runtime_switching);
    assert!(!h.self_engines_check && !h.self_update_enabled);
}
