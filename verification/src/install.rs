use vstd::prelude::*;
use vstd::string::*;

use crate::text::{chars_of, push_char, text_eq};

verus! {

/// A package that an install should add: its name, an optional version (an
/// empty one counts as none), and whether it goes to `devDependencies`.
pub struct PackageToAdd {
    pub name: String,
    pub version: Option<String>,
    pub dev: Option<bool>,
}

/// The spec that an install adds for a package: `name@version`, or the bare
/// name when no (or an empty) version is given.
pub open spec fn spec_of(name: Seq<char>, version: Option<Seq<char>>) -> Seq<char> {
    match version {
        Some(v) => if v.len() > 0 {
            name.push('@') + v
        } else {
            name
        },
        None => name,
    }
}

/// The version of a package, as text.
pub open spec fn version_text_of(p: PackageToAdd) -> Option<Seq<char>> {
    match p.version {
        Some(v) => Some(v@),
        None => None,
    }
}

/// `a` followed by `b`.
fn joined(a: &str, b: &str) -> (out: String)
    ensures
        out@ == a@ + b@,
{
    let mut out = String::from_str(a);
    out.append(b);
    out
}

/// The install spec of a package and whether it is a dev dependency (no
/// answer means no).
pub fn package_spec(package: PackageToAdd) -> (spec: (String, bool))
    ensures
        spec.0@ == spec_of(package.name@, version_text_of(package)),
        spec.1 == (package.dev == Some(true)),
{
    let dev = match package.dev {
        Some(d) => d,
        None => false,
    };
    let text = match package.version {
        Some(version) => {
            if !version.as_str().is_empty() {
                let mut named = String::from_str(package.name.as_str());
                push_char(&mut named, '@');
                joined(named.as_str(), version.as_str())
            } else {
                package.name
            }
        },
        None => package.name,
    };
    (text, dev)
}

/// `specs` are the install specs of the packages in `add`, in order, each
/// with its dev flag; none when `add` is absent.
pub open spec fn specs_of(add: Option<Vec<PackageToAdd>>, specs: Seq<(String, bool)>) -> bool {
    match add {
        Some(v) => specs.len() == v@.len() && forall|i: int|
            0 <= i < v@.len() ==> #[trigger] specs[i].0@ == spec_of(
                v@[i].name@,
                version_text_of(v@[i]),
            ) && specs[i].1 == (v@[i].dev == Some(true)),
        None => specs.len() == 0,
    }
}

/// The install specs of all packages to add, in order; none when the input
/// names no packages.
pub fn package_specs(add: Option<Vec<PackageToAdd>>) -> (specs: Vec<(String, bool)>)
    ensures
        specs_of(add, specs@),
{
    let mut specs: Vec<(String, bool)> = Vec::new();
    match add {
        None => specs,
        Some(packages) => {
            let ghost orig = packages@;
            let mut packages = packages;
            let mut rest: Vec<PackageToAdd> = Vec::new();
            // take the packages off the back, then restore their order
            while packages.len() > 0
                invariant
                    packages@.len() + rest@.len() == orig.len(),
                    packages@ == orig.take(packages@.len() as int),
                    forall|j: int|
                        0 <= j < rest@.len() ==> #[trigger] rest@[j] == orig[orig.len() - 1 - j],
                decreases packages@.len(),
            {
                let p = packages.pop().unwrap();
                rest.push(p);
                assert(packages@ =~= orig.take(packages@.len() as int));
            }
            while rest.len() > 0
                invariant
                    specs@.len() + rest@.len() == orig.len(),
                    forall|j: int|
                        0 <= j < rest@.len() ==> #[trigger] rest@[j] == orig[orig.len() - 1 - j],
                    forall|i: int|
                        0 <= i < specs@.len() ==> #[trigger] specs@[i].0@ == spec_of(
                            orig[i].name@,
                            version_text_of(orig[i]),
                        ) && specs@[i].1 == (orig[i].dev == Some(true)),
                decreases rest@.len(),
            {
                let p = rest.pop().unwrap();
                specs.push(package_spec(p));
            }
            specs
        },
    }
}

/// The specs of the packages whose dev flag is `dev`, in order.
pub open spec fn specs_with(packages: Seq<(String, bool)>, dev: bool) -> Seq<Seq<char>>
    decreases packages.len(),
{
    if packages.len() == 0 {
        seq![]
    } else {
        let rest = specs_with(packages.drop_last(), dev);
        if packages.last().1 == dev {
            rest.push(packages.last().0@)
        } else {
            rest
        }
    }
}

/// The texts of a list of strings.
pub open spec fn texts(v: Seq<String>) -> Seq<Seq<char>> {
    v.map_values(|s: String| s@)
}

/// The specs of the packages whose dev flag is `save_dev`, in order.
pub fn select_packages(packages: &Vec<(String, bool)>, save_dev: bool) -> (selected: Vec<String>)
    ensures
        texts(selected@) == specs_with(packages@, save_dev),
{
    let mut selected: Vec<String> = Vec::new();
    let n = packages.len();
    for i in 0..n
        invariant
            n == packages@.len(),
            texts(selected@) == specs_with(packages@.take(i as int), save_dev),
    {
        assert(packages@.take(i + 1).drop_last() =~= packages@.take(i as int));
        if packages[i].1 == save_dev {
            selected.push(packages[i].0.clone());
        }
        assert(texts(selected@) =~= specs_with(packages@.take(i + 1), save_dev));
    }
    assert(packages@.take(n as int) =~= packages@);
    selected
}

/// The add operations of an install: first the regular dependencies, then
/// the dev dependencies, each skipped when it has no package.
pub open spec fn batch_plan(packages: Seq<(String, bool)>) -> Seq<(bool, Seq<Seq<char>>)> {
    let regular = specs_with(packages, false);
    let dev = specs_with(packages, true);
    (if regular.len() > 0 {
        seq![(false, regular)]
    } else {
        seq![]
    }) + (if dev.len() > 0 {
        seq![(true, dev)]
    } else {
        seq![]
    })
}

/// The texts of a list of batches.
pub open spec fn batch_texts(v: Seq<(bool, Vec<String>)>) -> Seq<(bool, Seq<Seq<char>>)> {
    v.map_values(|b: (bool, Vec<String>)| (b.0, texts(b.1@)))
}

/// Split the packages to add into one batch per dependency kind, regular
/// before dev, leaving out a kind that has no package.
pub fn add_batches(packages: &Vec<(String, bool)>) -> (batches: Vec<(bool, Vec<String>)>)
    ensures
        batch_texts(batches@) == batch_plan(packages@),
{
    let mut batches: Vec<(bool, Vec<String>)> = Vec::new();
    let regular = select_packages(packages, false);
    if regular.len() > 0 {
        batches.push((false, regular));
    }
    let dev = select_packages(packages, true);
    if dev.len() > 0 {
        batches.push((true, dev));
    }
    assert(batch_texts(batches@) =~= batch_plan(packages@));
    batches
}

/// The spec texts of a list of (spec, dev) pairs.
pub open spec fn spec_texts(packages: Seq<(String, bool)>) -> Seq<Seq<char>> {
    packages.map_values(|p: (String, bool)| p.0@)
}

/// The specs that an install reports as added: every package's spec, in
/// order.
pub fn added_specs(packages: Vec<(String, bool)>) -> (added: Vec<String>)
    ensures
        texts(added@) == spec_texts(packages@),
{
    let mut added: Vec<String> = Vec::new();
    let n = packages.len();
    for i in 0..n
        invariant
            n == packages@.len(),
            added@.len() == i,
            texts(added@) == spec_texts(packages@.take(i as int)),
    {
        let ghost prev = added@;
        added.push(packages[i].0.clone());
        assert forall|j: int| 0 <= j < i + 1 implies #[trigger] texts(added@)[j] == spec_texts(
            packages@.take(i + 1),
        )[j] by {
            if j < i {
                assert(added@[j] == prev[j]);
                assert(texts(prev)[j] == spec_texts(packages@.take(i as int))[j]);
            }
        }
        assert(texts(added@) =~= spec_texts(packages@.take(i + 1)));
    }
    assert(packages@.take(n as int) =~= packages@);
    added
}

/// How one add operation of an embedded install runs: packages are saved
/// at exact versions, lifecycle scripts never run, nothing is saved as
/// optional or peer, no build is allowed wholesale, and no transitive
/// advisory check runs.
pub struct AddSettings {
    pub save_dev: bool,
    pub save_exact: bool,
    pub save_optional: bool,
    pub save_peer: bool,
    pub ignore_scripts: bool,
    pub force: bool,
    pub dangerously_allow_all_builds: bool,
    pub offline: bool,
    pub osv_transitive_check: bool,
}

/// The settings of an add operation.
pub fn add_settings(save_dev: bool, force: bool, offline: bool) -> (settings: AddSettings)
    ensures
        settings == (AddSettings {
            save_dev,
            save_exact: true,
            save_optional: false,
            save_peer: false,
            ignore_scripts: true,
            force,
            dangerously_allow_all_builds: false,
            offline,
            osv_transitive_check: false,
        }),
{
    AddSettings {
        save_dev,
        save_exact: true,
        save_optional: false,
        save_peer: false,
        ignore_scripts: true,
        force,
        dangerously_allow_all_builds: false,
        offline,
        osv_transitive_check: false,
    }
}

/// How a plain install (no package to add) runs: scripts never run, and
/// the network is off when the caller asks for offline mode.
pub struct InstallSettings {
    pub ignore_scripts: bool,
    pub force: bool,
    pub offline: bool,
}

/// The settings of a plain install.
pub fn install_settings(force: bool, offline: bool) -> (settings: InstallSettings)
    ensures
        settings == (InstallSettings { ignore_scripts: true, force, offline }),
{
    InstallSettings { ignore_scripts: true, force, offline }
}

/// A flag of the install input; an absent flag is off.
pub fn flag(value: Option<bool>) -> (on: bool)
    ensures
        on == (value == Some(true)),
{
    match value {
        Some(b) => b,
        None => false,
    }
}

/// What an install is asked to do: the specs of the packages to add, and
/// the force and offline flags. A missing input asks for what an input with
/// every field absent asks for: no package, no force, no offline mode.
pub fn install_request(
    add: Option<Vec<PackageToAdd>>,
    force: Option<bool>,
    offline: Option<bool>,
) -> (request: (Vec<(String, bool)>, bool, bool))
    ensures
        specs_of(add, request.0@),
        request.1 == (force == Some(true)),
        request.2 == (offline == Some(true)),
        add is None && force is None && offline is None ==> request.0@.len() == 0 && !request.1
            && !request.2,
{
    (package_specs(add), flag(force), flag(offline))
}

/// The phases of an install.
#[derive(PartialEq, Eq, Structural, Clone, Copy)]
pub enum InstallPhase {
    Resolving,
    Fetching,
    Linking,
    Complete,
}

/// The levels of install output.
#[derive(PartialEq, Eq, Structural, Clone, Copy)]
pub enum InstallOutputLevel {
    Info,
    Warning,
    Error,
}

/// Progress counters of an install.
pub struct InstallProgress {
    pub resolved: usize,
    pub total: usize,
    pub reused: usize,
    pub downloaded: usize,
    pub downloaded_bytes: u64,
    pub estimated_bytes: u64,
}

/// An event that an install reports.
pub enum InstallEvent {
    Phase(InstallPhase),
    Progress(InstallProgress),
    Output { level: InstallOutputLevel, code: Option<String>, message: String },
}

/// The counters that an embedded install reports back when it ends.
pub struct InstallStats {
    pub resolved: u64,
    pub reused: u64,
    pub downloaded: u64,
}

/// Fresh counters.
pub fn new_stats() -> (stats: InstallStats)
    ensures
        stats == (InstallStats { resolved: 0, reused: 0, downloaded: 0 }),
{
    InstallStats { resolved: 0, reused: 0, downloaded: 0 }
}

/// Take in an event: a progress event sets the counters to its own, any
/// other event leaves them.
pub fn record_event(stats: &mut InstallStats, event: &InstallEvent)
    ensures
        match event {
            InstallEvent::Progress(p) => *final(stats) == (InstallStats {
                resolved: p.resolved as u64,
                reused: p.reused as u64,
                downloaded: p.downloaded as u64,
            }),
            _ => *final(stats) == *old(stats),
        },
{
    if let InstallEvent::Progress(progress) = event {
        stats.resolved = progress.resolved as u64;
        stats.reused = progress.reused as u64;
        stats.downloaded = progress.downloaded as u64;
    }
}

/// The name of a phase.
pub fn phase_name(phase: InstallPhase) -> (name: &'static str)
    ensures
        name@ == match phase {
            InstallPhase::Resolving => "resolving"@,
            InstallPhase::Fetching => "fetching"@,
            InstallPhase::Linking => "linking"@,
            InstallPhase::Complete => "complete"@,
        },
{
    match phase {
        InstallPhase::Resolving => "resolving",
        InstallPhase::Fetching => "fetching",
        InstallPhase::Linking => "linking",
        InstallPhase::Complete => "complete",
    }
}

/// The name of an output level.
pub fn level_name(level: InstallOutputLevel) -> (name: &'static str)
    ensures
        name@ == match level {
            InstallOutputLevel::Info => "info"@,
            InstallOutputLevel::Warning => "warning"@,
            InstallOutputLevel::Error => "error"@,
        },
{
    match level {
        InstallOutputLevel::Info => "info",
        InstallOutputLevel::Warning => "warning",
        InstallOutputLevel::Error => "error",
    }
}

/// An install event as a host sees it: its kind and, per kind, the phase
/// name, the output level, code and message, or the progress counters.
/// A counter that is absent is `None`; the estimated byte count is absent
/// while it is still zero.
pub struct EventPayload {
    pub kind: String,
    pub phase: Option<String>,
    pub level: Option<String>,
    pub code: Option<String>,
    pub message: Option<String>,
    pub resolved: Option<u64>,
    pub total: Option<u64>,
    pub reused: Option<u64>,
    pub downloaded: Option<u64>,
    pub downloaded_bytes: Option<u64>,
    pub estimated_bytes: Option<u64>,
}

/// The text of an optional string.
pub open spec fn opt_string(s: Option<String>) -> Option<Seq<char>> {
    match s {
        Some(t) => Some(t@),
        None => None,
    }
}

/// The payload fields of an event, as plain values: kind, phase, level,
/// code, message (as texts) and the six counters.
pub open spec fn payload_fields(e: EventPayload) -> (
    Seq<char>,
    Option<Seq<char>>,
    Option<Seq<char>>,
    Option<Seq<char>>,
    Option<Seq<char>>,
    (Option<u64>, Option<u64>, Option<u64>, Option<u64>, Option<u64>, Option<u64>),
) {
    (
        e.kind@,
        opt_string(e.phase),
        opt_string(e.level),
        opt_string(e.code),
        opt_string(e.message),
        (e.resolved, e.total, e.reused, e.downloaded, e.downloaded_bytes, e.estimated_bytes),
    )
}

/// What the payload of an event holds.
pub open spec fn payload_of(event: InstallEvent) -> (
    Seq<char>,
    Option<Seq<char>>,
    Option<Seq<char>>,
    Option<Seq<char>>,
    Option<Seq<char>>,
    (Option<u64>, Option<u64>, Option<u64>, Option<u64>, Option<u64>, Option<u64>),
) {
    match event {
        InstallEvent::Phase(phase) => (
            "phase"@,
            Some(
                match phase {
                    InstallPhase::Resolving => "resolving"@,
                    InstallPhase::Fetching => "fetching"@,
                    InstallPhase::Linking => "linking"@,
                    InstallPhase::Complete => "complete"@,
                },
            ),
            None,
            None,
            None,
            (None, None, None, None, None, None),
        ),
        InstallEvent::Progress(p) => (
            "progress"@,
            None,
            None,
            None,
            None,
            (
                Some(p.resolved as u64),
                Some(p.total as u64),
                Some(p.reused as u64),
                Some(p.downloaded as u64),
                Some(p.downloaded_bytes),
                if p.estimated_bytes > 0 {
                    Some(p.estimated_bytes)
                } else {
                    None
                },
            ),
        ),
        InstallEvent::Output { level, code, message } => (
            "output"@,
            None,
            Some(
                match level {
                    InstallOutputLevel::Info => "info"@,
                    InstallOutputLevel::Warning => "warning"@,
                    InstallOutputLevel::Error => "error"@,
                },
            ),
            opt_string(code),
            Some(message@),
            (None, None, None, None, None, None),
        ),
    }
}

/// The payload of an event says which kind of event it is, and carries the
/// event's own data: a phase event the phase's name (`resolving`,
/// `fetching`, `linking`, `complete`) and nothing else; an output event the
/// level's name (`info`, `warning`, `error`), its code and its message; a
/// progress event its counters, with the estimated byte count only when it
/// is not zero.
pub proof fn law_payload_carries_the_event(event: InstallEvent)
    ensures
        event matches InstallEvent::Phase(ph) ==> payload_of(event) == (
            "phase"@,
            Some(
                if ph == InstallPhase::Resolving {
                    "resolving"@
                } else if ph == InstallPhase::Fetching {
                    "fetching"@
                } else if ph == InstallPhase::Linking {
                    "linking"@
                } else {
                    "complete"@
                },
            ),
            None::<Seq<char>>,
            None::<Seq<char>>,
            None::<Seq<char>>,
            (None::<u64>, None::<u64>, None::<u64>, None::<u64>, None::<u64>, None::<u64>),
        ),
        event matches InstallEvent::Output { level, code, message } ==> {
            &&& payload_of(event).0 == "output"@
            &&& payload_of(event).1 is None
            &&& payload_of(event).2 == Some(
                if level == InstallOutputLevel::Info {
                    "info"@
                } else if level == InstallOutputLevel::Warning {
                    "warning"@
                } else {
                    "error"@
                },
            )
            &&& payload_of(event).3 == opt_string(code)
            &&& payload_of(event).4 == Some(message@)
            &&& payload_of(event).5 == (
                None::<u64>,
                None::<u64>,
                None::<u64>,
                None::<u64>,
                None::<u64>,
                None::<u64>,
            )
        },
        event matches InstallEvent::Progress(pr) ==> {
            &&& payload_of(event).0 == "progress"@
            &&& payload_of(event).1 is None && payload_of(event).2 is None
            &&& payload_of(event).3 is None && payload_of(event).4 is None
            &&& payload_of(event).5.0 == Some(pr.resolved as u64)
            &&& payload_of(event).5.1 == Some(pr.total as u64)
            &&& payload_of(event).5.2 == Some(pr.reused as u64)
            &&& payload_of(event).5.3 == Some(pr.downloaded as u64)
            &&& payload_of(event).5.4 == Some(pr.downloaded_bytes)
            &&& (payload_of(event).5.5 is Some <==> pr.estimated_bytes != 0)
            &&& (payload_of(event).5.5 matches Some(b) ==> b == pr.estimated_bytes)
        },
{
}

/// The payload that a host receives for an event.
pub fn event_payload(event: InstallEvent) -> (payload: EventPayload)
    ensures
        payload_fields(payload) == payload_of(event),
{
    match event {
        InstallEvent::Phase(phase) => EventPayload {
            kind: String::from_str("phase"),
            phase: Some(String::from_str(phase_name(phase))),
            level: None,
            code: None,
            message: None,
            resolved: None,
            total: None,
            reused: None,
            downloaded: None,
            downloaded_bytes: None,
            estimated_bytes: None,
        },
        InstallEvent::Progress(progress) => EventPayload {
            kind: String::from_str("progress"),
            phase: None,
            level: None,
            code: None,
            message: None,
            resolved: Some(progress.resolved as u64),
            total: Some(progress.total as u64),
            reused: Some(progress.reused as u64),
            downloaded: Some(progress.downloaded as u64),
            downloaded_bytes: Some(progress.downloaded_bytes),
            estimated_bytes: if progress.estimated_bytes > 0 {
                Some(progress.estimated_bytes)
            } else {
                None
            },
        },
        InstallEvent::Output { level, code, message } => EventPayload {
            kind: String::from_str("output"),
            phase: None,
            level: Some(String::from_str(level_name(level))),
            code,
            message: Some(message),
            resolved: None,
            total: None,
            reused: None,
            downloaded: None,
            downloaded_bytes: None,
            estimated_bytes: None,
        },
    }
}

/// Who embeds aube here, as the embedding facade is told: the Node-API host
/// `aube-node`, its version and user agent, the package managers whose
/// files it treats as compatible, its lockfile name, and its cache and
/// data namespaces. It has no vendor, no own names, no workspace yaml, no
/// manifest namespace and no environment prefixes, and it never lets the
/// canonical lockfile win, switches runtimes, checks its own engines or
/// updates itself.
pub struct EmbedderHost {
    pub name: String,
    pub display_name: String,
    pub vendor: Option<String>,
    pub version: String,
    pub user_agent: String,
    pub self_names: Vec<String>,
    pub compatible_names: Vec<String>,
    pub lockfile_basename: String,
    pub workspace_yaml: Option<String>,
    pub manifest_namespace: String,
    pub env_prefix: Option<String>,
    pub config_env_prefix: Option<String>,
    pub cache_namespace: String,
    pub data_namespace: String,
    pub canonical_lockfile_always_wins: bool,
    pub runtime_switching: bool,
    pub self_engines_check: bool,
    pub self_update_enabled: bool,
}

/// The host record of the Node-API embedder at package version `version`.
pub fn node_host(version: &str) -> (host: EmbedderHost)
    ensures
        host.name@ == "aube-node"@,
        host.display_name@ == "aube Node-API"@,
        host.vendor is None,
        host.version@ == version@,
        host.user_agent@ == "aube-node/"@ + version@,
        host.self_names@.len() == 0,
        texts(host.compatible_names@) == seq!["npm"@, "pnpm"@, "bun"@, "yarn"@],
        host.lockfile_basename@ == "aube-lock.yaml"@,
        host.workspace_yaml is None,
        host.manifest_namespace@ == ""@,
        host.env_prefix is None,
        host.config_env_prefix is None,
        host.cache_namespace@ == "aube-node"@,
        host.data_namespace@ == "aube-node"@,
        !host.canonical_lockfile_always_wins,
        !host.runtime_switching,
        !host.self_engines_check,
        !host.self_update_enabled,
{
    let mut compatible_names: Vec<String> = Vec::new();
    compatible_names.push(String::from_str("npm"));
    compatible_names.push(String::from_str("pnpm"));
    compatible_names.push(String::from_str("bun"));
    compatible_names.push(String::from_str("yarn"));
    assert(texts(compatible_names@) =~= seq!["npm"@, "pnpm"@, "bun"@, "yarn"@]);
    EmbedderHost {
        name: String::from_str("aube-node"),
        display_name: String::from_str("aube Node-API"),
        vendor: None,
        version: String::from_str(version),
        user_agent: joined("aube-node/", version),
        self_names: Vec::new(),
        compatible_names,
        lockfile_basename: String::from_str("aube-lock.yaml"),
        workspace_yaml: None,
        manifest_namespace: String::from_str(""),
        env_prefix: None,
        config_env_prefix: None,
        cache_namespace: String::from_str("aube-node"),
        data_namespace: String::from_str("aube-node"),
        canonical_lockfile_always_wins: false,
        runtime_switching: false,
        self_engines_check: false,
        self_update_enabled: false,
    }
}

/// The settings that an embedded install overrides: packages are linked
/// hoisted, and no minimum release age applies.
pub open spec fn embedder_overrides() -> Seq<(Seq<char>, Seq<char>)> {
    seq![("nodeLinker"@, "hoisted"@), ("minimumReleaseAge"@, "0"@)]
}

/// The texts of a list of string pairs.
pub open spec fn pair_texts(v: Seq<(String, String)>) -> Seq<(Seq<char>, Seq<char>)> {
    v.map_values(|p: (String, String)| (p.0@, p.1@))
}

/// The setting overrides with which the embedder initializes aube.
pub fn initialize_embedder() -> (overrides: Vec<(String, String)>)
    ensures
        pair_texts(overrides@) == embedder_overrides(),
{
    let mut overrides: Vec<(String, String)> = Vec::new();
    overrides.push((String::from_str("nodeLinker"), String::from_str("hoisted")));
    overrides.push((String::from_str("minimumReleaseAge"), String::from_str("0")));
    assert(pair_texts(overrides@) =~= embedder_overrides());
    overrides
}

/// The keys under which `.npmrc` lists what to omit.
pub open spec fn is_omit_key(key: Seq<char>) -> bool {
    key == "omit"@ || key == "omit[]"@
}

/// `i` is the last entry with an omit key.
pub open spec fn is_last_omit(entries: Seq<(String, String)>, i: int) -> bool {
    &&& 0 <= i < entries.len()
    &&& is_omit_key(entries[i].0@)
    &&& forall|j: int| i < j < entries.len() ==> !is_omit_key(#[trigger] entries[j].0@)
}

/// The value of the last omit entry; empty when there is none.
pub open spec fn omit_value(entries: Seq<(String, String)>) -> Seq<char> {
    if exists|i: int| is_last_omit(entries, i) {
        entries[choose|i: int| is_last_omit(entries, i)].1@
    } else {
        seq![]
    }
}

/// The characters that separate the words of an omit value.
pub open spec fn is_omit_separator(c: char) -> bool {
    c == ',' || c == ' ' || c == '\t' || c == '\n'
}

/// `s[i..j]` is one of the pieces that splitting `s` at separators gives.
pub open spec fn is_piece(s: Seq<char>, i: int, j: int) -> bool {
    &&& 0 <= i <= j <= s.len()
    &&& (i == 0 || is_omit_separator(s[i - 1]))
    &&& (j == s.len() || is_omit_separator(s[j]))
    &&& forall|k: int| i <= k < j ==> !is_omit_separator(#[trigger] s[k])
}

/// Splitting `s` at separators gives a piece equal to `word`.
pub open spec fn has_piece(s: Seq<char>, word: Seq<char>) -> bool {
    exists|i: int, j: int| is_piece(s, i, j) && #[trigger] s.subrange(i, j) == word
}

/// Whether `v[start..end]` holds the characters of `word`.
fn segment_eq(v: &Vec<char>, start: usize, end: usize, word: &Vec<char>) -> (same: bool)
    requires
        start <= end <= v@.len(),
    ensures
        same == (v@.subrange(start as int, end as int) == word@),
{
    if end - start != word.len() {
        return false;
    }
    let m = word.len();
    for k in 0..m
        invariant
            m == word@.len(),
            start + m == end,
            end <= v@.len(),
            forall|x: int| 0 <= x < k ==> v@[start + x] == word@[x],
    {
        if v[start + k] != word[k] {
            assert(v@.subrange(start as int, end as int)[k as int] != word@[k as int]);
            return false;
        }
    }
    assert(v@.subrange(start as int, end as int) =~= word@);
    true
}

/// Whether splitting `value` at `,`, space, tab and newline gives a piece
/// equal to `word`.
pub fn contains_piece(value: &str, word: &str) -> (found: bool)
    ensures
        found == has_piece(value@, word@),
{
    let v = chars_of(value);
    let w = chars_of(word);
    let ghost s = value@;
    let n = v.len();
    let mut found = false;
    let mut start: usize = 0;
    let mut k: usize = 0;
    while k < n
        invariant
            n == v@.len(),
            v@ == s,
            w@ == word@,
            start <= k <= n,
            start == 0 || is_omit_separator(s[start - 1]),
            forall|m: int| start <= m < k ==> !is_omit_separator(#[trigger] s[m]),
            found == exists|i: int, j: int|
                is_piece(s, i, j) && j < k && #[trigger] s.subrange(i, j) == word@,
        decreases n - k,
    {
        let ghost found_before = found;
        if is_separator(v[k]) {
            proof {
                lemma_piece_ends_at(s, start as int, k as int);
            }
            if segment_eq(&v, start, k, &w) {
                found = true;
            }
            assert(found == exists|i: int, j: int|
                is_piece(s, i, j) && j < k + 1 && #[trigger] s.subrange(i, j) == word@) by {
                if found && !found_before {
                    assert(is_piece(s, start as int, k as int) && s.subrange(start as int, k as int)
                        == word@);
                }
            }
            start = k + 1;
        } else {
            assert(forall|i: int| !is_piece(s, i, k as int));
            assert(found == exists|i: int, j: int|
                is_piece(s, i, j) && j < k + 1 && #[trigger] s.subrange(i, j) == word@) by {
                if found_before {
                    let (i, j) = choose|i: int, j: int|
                        is_piece(s, i, j) && j < k && #[trigger] s.subrange(i, j) == word@;
                    assert(is_piece(s, i, j) && j < k + 1 && s.subrange(i, j) == word@);
                }
            }
        }
        k = k + 1;
    }
    // the last piece ends with the text
    proof {
        lemma_piece_ends_at(s, start as int, n as int);
    }
    let ghost found_before = found;
    if segment_eq(&v, start, n, &w) {
        found = true;
    }
    assert(found == exists|i: int, j: int|
        is_piece(s, i, j) && #[trigger] s.subrange(i, j) == word@) by {
        if found && !found_before {
            assert(is_piece(s, start as int, n as int) && s.subrange(start as int, n as int)
                == word@);
        }
        if found_before {
            let (i, j) = choose|i: int, j: int|
                is_piece(s, i, j) && j < n && #[trigger] s.subrange(i, j) == word@;
            assert(is_piece(s, i, j) && s.subrange(i, j) == word@);
        }
        if !found {
            assert forall|i: int, j: int| is_piece(s, i, j) implies #[trigger] s.subrange(i, j)
                != word@ by {
                if j == n {
                    assert(i == start);
                }
            }
        }
    }
    found
}

/// A piece that ends at `k` starts where the separator-free stretch before
/// `k` starts.
proof fn lemma_piece_ends_at(s: Seq<char>, start: int, k: int)
    requires
        0 <= start <= k <= s.len(),
        start == 0 || is_omit_separator(s[start - 1]),
        forall|m: int| start <= m < k ==> !is_omit_separator(#[trigger] s[m]),
        k == s.len() || is_omit_separator(s[k]),
    ensures
        is_piece(s, start, k),
        forall|i: int| is_piece(s, i, k) ==> i == start,
{
    assert forall|i: int| is_piece(s, i, k) implies i == start by {
        if i < start {
            assert(!is_omit_separator(s[start - 1]));
        } else if i > start {
            assert(!is_omit_separator(s[i - 1]));
        }
    }
}

/// Whether `c` separates the words of an omit value.
fn is_separator(c: char) -> (sep: bool)
    ensures
        sep == is_omit_separator(c),
{
    c == ',' || c == ' ' || c == '\t' || c == '\n'
}

/// Which dependency kinds the project's `.npmrc` entries omit: dev
/// dependencies when the last `omit` (or `omit[]`) value has a piece `dev`,
/// optional ones when it has a piece `optional`.
pub fn omitted_kinds(entries: &Vec<(String, String)>) -> (omit: (bool, bool))
    ensures
        omit.0 == has_piece(omit_value(entries@), "dev"@),
        omit.1 == has_piece(omit_value(entries@), "optional"@),
{
    let mut i = entries.len();
    while i > 0 && !(text_eq(entries[i - 1].0.as_str(), "omit") || text_eq(
        entries[i - 1].0.as_str(),
        "omit[]",
    ))
        invariant
            i <= entries@.len(),
            forall|j: int| i <= j < entries@.len() ==> !is_omit_key(#[trigger] entries@[j].0@),
        decreases i,
    {
        i = i - 1;
    }
    if i == 0 {
        assert forall|j: int| !is_last_omit(entries@, j) by {}
        proof {
            reveal_strlit("");
        }
        assert(omit_value(entries@) =~= ""@);
        return (contains_piece("", "dev"), contains_piece("", "optional"));
    }
    let ghost at = (i - 1) as int;
    assert(is_last_omit(entries@, at));
    assert forall|j: int| is_last_omit(entries@, j) implies j == at by {
        if j < at {
            assert(!is_omit_key(entries@[at].0@));
        }
    }
    let value = entries[i - 1].1.as_str();
    (contains_piece(value, "dev"), contains_piece(value, "optional"))
}

/// Why an embedded install failed: a stable error code, a message, and a
/// longer diagnostic.
pub struct InstallFailure {
    pub code: String,
    pub message: String,
    pub diagnostic: String,
}

/// The failure for a project directory that cannot be used: the message
/// reads `invalid project directory <dir>: <detail>`, and the diagnostic
/// repeats it.
pub fn invalid_project_error(code: &str, project_dir: &str, detail: &str) -> (failure:
    InstallFailure)
    ensures
        failure.code@ == code@,
        failure.message@ == "invalid project directory "@ + project_dir@ + ": "@ + detail@,
        failure.diagnostic@ == failure.message@,
{
    let head = joined("invalid project directory ", project_dir);
    let with_sep = joined(head.as_str(), ": ");
    let message = joined(with_sep.as_str(), detail);
    let diagnostic = message.clone();
    InstallFailure { code: String::from_str(code), message, diagnostic }
}

/// The failure for an error of the install itself: its own code when it has
/// one, the generic install-failure code otherwise.
pub fn to_install_failure(
    code: Option<String>,
    fallback_code: &str,
    message: String,
    diagnostic: String,
) -> (failure: InstallFailure)
    ensures
        failure.code@ == match code {
            Some(c) => c@,
            None => fallback_code@,
        },
        failure.message == message,
        failure.diagnostic == diagnostic,
{
    let code = match code {
        Some(c) => c,
        None => String::from_str(fallback_code),
    };
    InstallFailure { code, message, diagnostic }
}

/// The reason given when no structured error can be made: `[<code>]
/// <message>`.
pub fn fallback_reason(failure: &InstallFailure) -> (reason: String)
    ensures
        reason@ == "["@ + failure.code@ + "] "@ + failure.message@,
{
    let head = joined("[", failure.code.as_str());
    let with_sep = joined(head.as_str(), "] ");
    joined(with_sep.as_str(), failure.message.as_str())
}

/// Every package to add lands in exactly one of the two dependency kinds:
/// the regular and the dev specs together are as many as the packages.
pub proof fn law_batches_cover_every_package(packages: Seq<(String, bool)>)
    ensures
        specs_with(packages, false).len() + specs_with(packages, true).len() == packages.len(),
    decreases packages.len(),
{
    if packages.len() > 0 {
        law_batches_cover_every_package(packages.drop_last());
    }
}

/// Each batch of the plan is non-empty, and the regular batch comes first.
pub proof fn law_batches_nonempty_regular_first(packages: Seq<(String, bool)>)
    ensures
        forall|b: int|
            0 <= b < batch_plan(packages).len() ==> #[trigger] batch_plan(packages)[b].1.len() > 0,
        batch_plan(packages).len() == 2 ==> !batch_plan(packages)[0].0 && batch_plan(packages)[1].0,
{
}

} // verus!
