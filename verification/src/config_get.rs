use vstd::prelude::*;
use vstd::string::*;

use crate::text::text_eq;

verus! {

/// Which config location(s) a lookup reads.
#[derive(PartialEq, Eq, Structural, Clone, Copy)]
pub enum ListLocation {
    /// The last-write-wins view of user aube config, `~/.npmrc`, then
    /// `./.npmrc`, as an install sees it.
    Merged,
    User,
    Global,
    Project,
}

/// The arguments of `config get`.
pub struct GetArgs {
    /// The setting key: a pnpm canonical name (`autoInstallPeers`) or an
    /// `.npmrc` alias (`auto-install-peers`).
    pub key: String,
    /// Emit the value as JSON.
    pub json: bool,
    /// Shortcut for `--location project`.
    pub local: bool,
    /// Which config location(s) to read.
    pub location: ListLocation,
}

impl GetArgs {
    /// The location that the lookup reads: `--local` means the project.
    pub fn effective_location(&self) -> (location: ListLocation)
        ensures
            location == if self.local {
                ListLocation::Project
            } else {
                self.location
            },
    {
        if self.local {
            ListLocation::Project
        } else {
            self.location
        }
    }
}

/// Whether managed settings take part in the answer: only for the merged
/// view, only when there are managed entries, and only for a key that names
/// a known setting.
pub fn uses_managed_entries(location: ListLocation, has_managed: bool, known_setting: bool) -> (uses:
    bool)
    ensures
        uses == (location == ListLocation::Merged && has_managed && known_setting),
{
    location == ListLocation::Merged && has_managed && known_setting
}

/// `key` is one of `aliases`.
pub open spec fn is_alias(aliases: Seq<String>, key: Seq<char>) -> bool {
    exists|a: int| 0 <= a < aliases.len() && #[trigger] aliases[a]@ == key
}

/// `i` is the last entry whose key is one of `aliases`.
pub open spec fn is_last_alias_entry(
    entries: Seq<(String, String)>,
    aliases: Seq<String>,
    i: int,
) -> bool {
    &&& 0 <= i < entries.len()
    &&& is_alias(aliases, entries[i].0@)
    &&& forall|j: int| i < j < entries.len() ==> !is_alias(aliases, #[trigger] entries[j].0@)
}

/// The value of the last entry whose key is one of `aliases`: entries come
/// in order of rising precedence, so the last one wins.
pub open spec fn alias_value(entries: Seq<(String, String)>, aliases: Seq<String>) -> Option<
    Seq<char>,
> {
    if exists|i: int| is_last_alias_entry(entries, aliases, i) {
        Some(entries[choose|i: int| is_last_alias_entry(entries, aliases, i)].1@)
    } else {
        None
    }
}

/// Whether `key` is one of `aliases`.
fn alias_matches(aliases: &Vec<String>, key: &str) -> (found: bool)
    ensures
        found == is_alias(aliases@, key@),
{
    let n = aliases.len();
    for a in 0..n
        invariant
            n == aliases@.len(),
            forall|b: int| 0 <= b < a ==> #[trigger] aliases@[b]@ != key@,
    {
        if text_eq(aliases[a].as_str(), key) {
            return true;
        }
    }
    false
}

/// The value set for a setting: the last entry whose key is one of the
/// setting's aliases.
pub fn lookup_setting(entries: &Vec<(String, String)>, aliases: &Vec<String>) -> (value: Option<
    String,
>)
    ensures
        match alias_value(entries@, aliases@) {
            Some(v) => value matches Some(s) && s@ == v,
            None => value is None,
        },
{
    let mut i = entries.len();
    while i > 0 && !alias_matches(aliases, entries[i - 1].0.as_str())
        invariant
            i <= entries@.len(),
            forall|j: int|
                i <= j < entries@.len() ==> !is_alias(aliases@, #[trigger] entries@[j].0@),
        decreases i,
    {
        i = i - 1;
    }
    if i == 0 {
        assert forall|j: int| !is_last_alias_entry(entries@, aliases@, j) by {}
        return None;
    }
    let ghost at = (i - 1) as int;
    assert(is_last_alias_entry(entries@, aliases@, at));
    assert forall|j: int| is_last_alias_entry(entries@, aliases@, j) implies j == at by {
        if j < at {
            assert(!is_alias(aliases@, entries@[at].0@));
        }
    }
    Some(entries[i - 1].1.clone())
}

/// A hexadecimal digit, lower case.
pub open spec fn hex_digit(d: u32) -> char {
    if d < 10 {
        (('0' as u32) + d) as char
    } else {
        (('a' as u32) + d - 10) as char
    }
}

/// How one character is written inside a JSON string: `"` and `\` and the
/// control characters with a short escape (`\b \t \n \f \r`) take a
/// backslash, the other characters below U+0020 become `\u00xx` in lower
/// case hexadecimal, and every other character stands for itself.
pub open spec fn json_char(c: char) -> Seq<char> {
    if c == '"' {
        seq!['\\', '"']
    } else if c == '\\' {
        seq!['\\', '\\']
    } else if c == '\u{8}' {
        seq!['\\', 'b']
    } else if c == '\t' {
        seq!['\\', 't']
    } else if c == '\n' {
        seq!['\\', 'n']
    } else if c == '\u{c}' {
        seq!['\\', 'f']
    } else if c == '\r' {
        seq!['\\', 'r']
    } else if (c as u32) < 0x20 {
        seq!['\\', 'u', '0', '0', hex_digit((c as u32) / 16), hex_digit((c as u32) % 16)]
    } else {
        seq![c]
    }
}

/// The escaped characters of a string, in order.
pub open spec fn json_escaped(s: Seq<char>) -> Seq<char>
    decreases s.len(),
{
    if s.len() == 0 {
        seq![]
    } else {
        json_escaped(s.drop_last()) + json_char(s.last())
    }
}

/// The JSON text of a string value: the escaped characters between double
/// quotes.
pub open spec fn json_string_text(value: Seq<char>) -> Seq<char> {
    seq!['"'] + json_escaped(value) + seq!['"']
}

/// `serde_json`'s `Display` of `Value::String(value)`: it writes the value
/// as a JSON string, escaping character by character as `json_char` says.
#[verifier::external_body]
fn json_string(value: &str) -> (text: String)
    ensures
        text@ == json_string_text(value@),
{
    serde_json::Value::String(value.to_string()).to_string()
}

/// What `config get` prints for a found value: the value itself, or its
/// JSON string form with `--json`.
pub open spec fn rendered(value: Seq<char>, json: bool) -> Seq<char> {
    if json {
        json_string_text(value)
    } else {
        value
    }
}

/// The line that `config get` prints for a found value.
pub fn render_value(value: &str, json: bool) -> (line: String)
    ensures
        line@ == rendered(value@, json),
{
    if json {
        json_string(value)
    } else {
        String::from_str(value)
    }
}

/// The line that `config get` prints: the managed value when managed
/// settings decided it, else the value set in the entries, else
/// `undefined`.
pub open spec fn get_line(
    managed: Option<Seq<char>>,
    entries: Seq<(String, String)>,
    aliases: Seq<String>,
    json: bool,
) -> Seq<char> {
    match managed {
        Some(v) => rendered(v, json),
        None => match alias_value(entries, aliases) {
            Some(v) => rendered(v, json),
            None => "undefined"@,
        },
    }
}

/// The line that `config get` prints, given the value that managed settings
/// impose (if any), the entries read from the chosen location(s) in order of
/// rising precedence, and the aliases of the requested key.
pub fn config_get_line(
    managed: Option<String>,
    entries: &Vec<(String, String)>,
    aliases: &Vec<String>,
    json: bool,
) -> (line: String)
    ensures
        line@ == get_line(
            match managed {
                Some(m) => Some(m@),
                None => None,
            },
            entries@,
            aliases@,
            json,
        ),
{
    match managed {
        Some(v) => render_value(v.as_str(), json),
        None => match lookup_setting(entries, aliases) {
            Some(v) => render_value(v.as_str(), json),
            None => String::from_str("undefined"),
        },
    }
}

/// Last write wins: an entry appended under one of the aliases decides the
/// value, whatever came before it.
pub proof fn law_last_write_wins(
    entries: Seq<(String, String)>,
    aliases: Seq<String>,
    entry: (String, String),
)
    requires
        is_alias(aliases, entry.0@),
    ensures
        alias_value(entries.push(entry), aliases) == Some(entry.1@),
{
    let e = entries.push(entry);
    let at = entries.len() as int;
    assert(e[at] == entry);
    assert(is_last_alias_entry(e, aliases, at));
    assert forall|j: int| is_last_alias_entry(e, aliases, j) implies j == at by {
        if j < at {
            assert(!is_alias(aliases, e[at].0@));
        }
    }
}

/// An entry appended under a key that is none of the aliases leaves the
/// value as it was.
pub proof fn law_unrelated_write_keeps_value(
    entries: Seq<(String, String)>,
    aliases: Seq<String>,
    entry: (String, String),
)
    requires
        !is_alias(aliases, entry.0@),
    ensures
        alias_value(entries.push(entry), aliases) == alias_value(entries, aliases),
{
    let e = entries.push(entry);
    assert forall|i: int| #[trigger] is_last_alias_entry(e, aliases, i) == is_last_alias_entry(
        entries,
        aliases,
        i,
    ) by {
        if 0 <= i < entries.len() {
            assert(e[i] == entries[i]);
            if is_last_alias_entry(entries, aliases, i) {
                assert forall|j: int| i < j < e.len() implies !is_alias(aliases, #[trigger] e[j].0@) by {
                    if j < entries.len() {
                        assert(e[j] == entries[j]);
                    }
                }
            }
            if is_last_alias_entry(e, aliases, i) {
                assert forall|j: int| i < j < entries.len() implies !is_alias(
                    aliases,
                    #[trigger] entries[j].0@,
                ) by {
                    assert(e[j] == entries[j]);
                }
            }
        } else if i == entries.len() {
            assert(e[i] == entry);
        }
    }
    if exists|i: int| is_last_alias_entry(entries, aliases, i) {
        let i = choose|i: int| is_last_alias_entry(entries, aliases, i);
        assert(is_last_alias_entry(e, aliases, i));
        let k = choose|k: int| is_last_alias_entry(e, aliases, k);
        assert(is_last_alias_entry(entries, aliases, k));
        assert(k == i) by {
            if k < i {
                assert(!is_alias(aliases, entries[i].0@));
            } else if i < k {
                assert(!is_alias(aliases, entries[k].0@));
            }
        }
        assert(e[i] == entries[i]);
    }
}

/// The entries of several config sources, lowest precedence first: the
/// sources one after the other.
pub fn layer_sources(low: Vec<(String, String)>, high: Vec<(String, String)>) -> (entries: Vec<
    (String, String),
>)
    ensures
        entries@ == low@ + high@,
{
    let mut entries = low;
    let mut high = high;
    entries.append(&mut high);
    entries
}

/// With `--json` the printed line is the JSON string text of the value
/// printed, whether managed settings imposed it or the entries set it;
/// without `--json` it is that value itself; and with no value at all it is
/// `undefined`.
pub proof fn law_get_line_prints_the_value(
    managed: Option<Seq<char>>,
    entries: Seq<(String, String)>,
    aliases: Seq<String>,
    json: bool,
)
    ensures
        managed matches Some(v) ==> get_line(managed, entries, aliases, json) == if json {
            json_string_text(v)
        } else {
            v
        },
        managed is None ==> get_line(managed, entries, aliases, json) == match alias_value(
            entries,
            aliases,
        ) {
            Some(v) => if json {
                json_string_text(v)
            } else {
                v
            },
            None => "undefined"@,
        },
{
}

/// The entries that the user location reads, lowest precedence first:
/// `~/.npmrc`, then the user's aube config, which outranks it.
pub fn user_layers(npmrc: Vec<(String, String)>, aube_config: Vec<(String, String)>) -> (entries:
    Vec<(String, String)>)
    ensures
        entries@ == npmrc@ + aube_config@,
{
    layer_sources(npmrc, aube_config)
}

/// The entries that the project location reads, lowest precedence first:
/// the workspace yaml, the project `.npmrc`, then the project's
/// `config.toml`.
pub fn project_layers(
    workspace_yaml: Vec<(String, String)>,
    npmrc: Vec<(String, String)>,
    config_toml: Vec<(String, String)>,
) -> (entries: Vec<(String, String)>)
    ensures
        entries@ == workspace_yaml@ + npmrc@ + config_toml@,
{
    layer_sources(layer_sources(workspace_yaml, npmrc), config_toml)
}

/// A higher source decides a setting that it sets; a setting that it does
/// not set is decided by the lower source.
pub proof fn law_higher_source_wins(
    low: Seq<(String, String)>,
    high: Seq<(String, String)>,
    aliases: Seq<String>,
)
    ensures
        alias_value(low + high, aliases) == match alias_value(high, aliases) {
            Some(v) => Some(v),
            None => alias_value(low, aliases),
        },
    decreases high.len(),
{
    if high.len() == 0 {
        assert(low + high =~= low);
        assert forall|i: int| !is_last_alias_entry(high, aliases, i) by {}
    } else {
        let rest = high.drop_last();
        let e = high.last();
        law_higher_source_wins(low, rest, aliases);
        assert(low + high =~= (low + rest).push(e));
        assert(high =~= rest.push(e));
        if is_alias(aliases, e.0@) {
            law_last_write_wins(low + rest, aliases, e);
            law_last_write_wins(rest, aliases, e);
        } else {
            law_unrelated_write_keeps_value(low + rest, aliases, e);
            law_unrelated_write_keeps_value(rest, aliases, e);
        }
    }
}

} // verus!
