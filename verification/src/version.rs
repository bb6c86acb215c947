//! Version comparison: exact string equality short-circuits, semantic
//! versions order the rest, and unparseable input is conservatively
//! `Unknown`.

use vstd::prelude::*;
use vstd::string::*;
use crate::strutil::{str_eq, trim, trim_spec};

verus! {

/// How the stored (installed) version relates to the running binary's
/// version.
#[derive(Debug, Clone, Copy, PartialEq, Eq, Structural)]
pub enum VersionRelation {
    /// Versions coincide: launch only.
    Same,
    /// The installed version is newer: refuse to downgrade.
    Older,
    /// The running binary is newer: upgrade.
    Newer,
    /// At least one side does not parse: attempt to heal by upgrading.
    Unknown,
}

/// What comparing two semantic-version texts yields: `None` when either
/// side fails to parse, otherwise the sign of `a` against `b` in the
/// semantic-version order.
pub uninterp spec fn sem_cmp(a: Seq<char>, b: Seq<char>) -> Option<i8>;

/// Relies on `semver::Version::parse` and on `semver::Version`'s
/// ordering (major, minor, patch, pre-release, build metadata): both
/// depend on the texts alone.
#[verifier::external_body]
fn semver_cmp(a: &str, b: &str) -> (r: Option<i8>)
    ensures
        r == sem_cmp(a@, b@),
        r matches Some(c) ==> c == -1i8 || c == 0i8 || c == 1i8,
{
    match (semver::Version::parse(a), semver::Version::parse(b)) {
        (Ok(x), Ok(y)) => match x.cmp(&y) {
            core::cmp::Ordering::Less => Some(-1),
            core::cmp::Ordering::Equal => Some(0),
            core::cmp::Ordering::Greater => Some(1),
        },
        _ => None,
    }
}

/// The relation of the stored version `installed` to the running
/// version `incoming`: equal trimmed texts are `Same` without semantic
/// parsing; otherwise the semantic order of `incoming` against
/// `installed` decides, and a parse failure on either side is
/// `Unknown`.
pub open spec fn compare_spec(installed: Seq<char>, incoming: Seq<char>) -> VersionRelation {
    let a = trim_spec(installed);
    let b = trim_spec(incoming);
    if a == b {
        VersionRelation::Same
    } else {
        match sem_cmp(b, a) {
            Some(c) => if c > 0 {
                VersionRelation::Newer
            } else if c < 0 {
                VersionRelation::Older
            } else {
                VersionRelation::Same
            },
            None => VersionRelation::Unknown,
        }
    }
}

/// Compares the stored version against the running binary's version.
pub fn compare_versions(installed: &str, incoming: &str) -> (r: VersionRelation)
    ensures
        r == compare_spec(installed@, incoming@),
{
    let a = trim(installed);
    let b = trim(incoming);
    if str_eq(a.as_str(), b.as_str()) {
        return VersionRelation::Same;
    }
    match semver_cmp(b.as_str(), a.as_str()) {
        Some(c) => if c > 0 {
            VersionRelation::Newer
        } else if c < 0 {
            VersionRelation::Older
        } else {
            VersionRelation::Same
        },
        None => VersionRelation::Unknown,
    }
}

/// Whether the updater should act: never on equal trimmed texts, only
/// on a strictly newer manifest version, and never when either side
/// fails to parse.
pub open spec fn should_update_spec(current: Seq<char>, incoming: Seq<char>) -> bool {
    let a = trim_spec(current);
    let b = trim_spec(incoming);
    a != b && sem_cmp(b, a) == Some(1i8)
}

pub fn should_update(current: &str, incoming: &str) -> (r: bool)
    ensures
        r == should_update_spec(current@, incoming@),
{
    let a = trim(current);
    let b = trim(incoming);
    if str_eq(a.as_str(), b.as_str()) {
        return false;
    }
    match semver_cmp(b.as_str(), a.as_str()) {
        Some(c) => c == 1,
        None => false,
    }
}

/// For every version pair: equal trimmed texts compare `Same`; for
/// pairs that parse, the result mirrors the semantic-version order of
/// `b` against `a` (`Newer` above, `Older` below, `Same` at equal
/// precedence); and unequal pairs on which parsing fails compare
/// `Unknown`.
pub proof fn lemma_compare_versions_total(a: Seq<char>, b: Seq<char>)
    ensures
        trim_spec(a) == trim_spec(b) ==> compare_spec(a, b) == VersionRelation::Same,
        trim_spec(a) != trim_spec(b) && sem_cmp(trim_spec(b), trim_spec(a)) == Some(1i8)
            ==> compare_spec(a, b) == VersionRelation::Newer,
        trim_spec(a) != trim_spec(b) && sem_cmp(trim_spec(b), trim_spec(a)) == Some(-1i8)
            ==> compare_spec(a, b) == VersionRelation::Older,
        trim_spec(a) != trim_spec(b) && sem_cmp(trim_spec(b), trim_spec(a)) == Some(0i8)
            ==> compare_spec(a, b) == VersionRelation::Same,
        trim_spec(a) != trim_spec(b) && sem_cmp(trim_spec(b), trim_spec(a)) is None
            ==> compare_spec(a, b) == VersionRelation::Unknown,
{
}

} // verus!
