use vstd::prelude::*;

verus! {

#[verifier::external_type_specification]
#[verifier::external_body]
pub struct ExSemverVersion(node_semver::Version);

#[verifier::external_type_specification]
#[verifier::external_body]
pub struct ExSemverRange(node_semver::Range);

/// Whether `node_semver::Version::parse` accepts `text`.
pub uninterp spec fn semver_version_parses(text: Seq<char>) -> bool;

/// Whether `node_semver::Range::parse` accepts `text`.
pub uninterp spec fn semver_range_parses(text: Seq<char>) -> bool;

/// Whether the version parsed from `version` satisfies the range parsed from
/// `range` (`node_semver::Version::satisfies`).
pub uninterp spec fn semver_satisfies(version: Seq<char>, range: Seq<char>) -> bool;

/// Whether the version parsed from `a` orders before the one parsed from `b`
/// (`<` on `node_semver::Version`).
pub uninterp spec fn semver_less(a: Seq<char>, b: Seq<char>) -> bool;

/// Whether the version parsed from `version` has a pre-release part
/// (`node_semver::Version::is_prerelease`).
pub uninterp spec fn semver_is_prerelease(version: Seq<char>) -> bool;

/// A parsed semantic version, together with the text it was parsed from.
/// Its view is that text.
pub struct SemVersion {
    inner: node_semver::Version,
    text: String,
}

impl View for SemVersion {
    type V = Seq<char>;

    closed spec fn view(&self) -> Seq<char> {
        self.text@
    }
}

impl SemVersion {
    /// A copy of this version (the derived `Clone` of `node_semver::Version`).
    #[verifier::external_body]
    pub(crate) fn clone_parsed(&self) -> (c: SemVersion)
        ensures
            c@ == self@,
    {
        SemVersion { inner: self.inner.clone(), text: self.text.clone() }
    }
}

/// A parsed version range, together with the text it was parsed from.
/// Its view is that text.
pub struct SemRange {
    inner: node_semver::Range,
    text: String,
}

impl View for SemRange {
    type V = Seq<char>;

    closed spec fn view(&self) -> Seq<char> {
        self.text@
    }
}

/// `node_semver::Version::parse`: the contract says that a version comes
/// back exactly when the text parses, and that it remembers the text.
#[verifier::external_body]
pub(crate) fn parse_version(text: &str) -> (parsed: Option<SemVersion>)
    ensures
        parsed is Some == semver_version_parses(text@),
        parsed matches Some(v) ==> v@ == text@,
{
    match node_semver::Version::parse(text) {
        Ok(inner) => Some(SemVersion { inner, text: text.to_string() }),
        Err(_) => None,
    }
}

/// `node_semver::Range::parse`: a range comes back exactly when the text
/// parses, and it remembers the text.
#[verifier::external_body]
pub(crate) fn parse_range(text: &str) -> (parsed: Option<SemRange>)
    ensures
        parsed is Some == semver_range_parses(text@),
        parsed matches Some(r) ==> r@ == text@,
{
    match node_semver::Range::parse(text) {
        Ok(inner) => Some(SemRange { inner, text: text.to_string() }),
        Err(_) => None,
    }
}

/// `node_semver::Version::satisfies`.
#[verifier::external_body]
pub(crate) fn satisfies(version: &SemVersion, range: &SemRange) -> (ok: bool)
    ensures
        ok == semver_satisfies(version@, range@),
{
    version.inner.satisfies(&range.inner)
}

/// `<` on `node_semver::Version`, which goes through its `Ord::cmp`: that
/// compares major, minor and patch numbers, then ranks a version without
/// pre-release part above one with, then compares the pre-release lists
/// lexicographically. Besides the name, the contract states what that makes
/// of the order: it is irreflexive and asymmetric, and it is a strict weak
/// order on texts that parse, which the clauses give as transitivity and
/// negative transitivity through the two compared versions.
#[verifier::external_body]
pub(crate) fn version_less(a: &SemVersion, b: &SemVersion) -> (less: bool)
    ensures
        less == semver_less(a@, b@),
        less ==> !semver_less(b@, a@),
        a@ == b@ ==> !less,
        less ==> forall|z: Seq<char>|
            semver_version_parses(z) && #[trigger] semver_less(b@, z) ==> semver_less(a@, z),
        less ==> forall|z: Seq<char>|
            semver_version_parses(z) && #[trigger] semver_less(z, a@) ==> semver_less(z, b@),
        !less ==> forall|z: Seq<char>|
            semver_version_parses(z) && #[trigger] semver_less(a@, z) ==> semver_less(b@, z),
        !less ==> forall|z: Seq<char>|
            semver_version_parses(z) && #[trigger] semver_less(z, b@) ==> semver_less(z, a@),
{
    a.inner < b.inner
}

/// `node_semver::Version::is_prerelease`.
#[verifier::external_body]
pub(crate) fn is_prerelease(version: &SemVersion) -> (pre: bool)
    ensures
        pre == semver_is_prerelease(version@),
{
    version.inner.is_prerelease()
}

} // verus!
