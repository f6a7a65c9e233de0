//! The order of precedence among versions, and among records by their
//! versions.

use crate::latest::{all_valid, latest_records};
use crate::release::{Release, ReleaseView};
use crate::version::{Version, VersionView};
use std::cmp::Ordering;
use vstd::prelude::*;

verus! {

/// How `semver::Version` orders two versions with `Ord::cmp`. `None` where a
/// qualifier of one of them is not one that `semver::Prerelease::new` or
/// `semver::BuildMetadata::new` accepts.
pub uninterp spec fn semver_order(a: VersionView, b: VersionView) -> Option<Ordering>;

/// Makes a `semver::Version` of each argument, its qualifiers through
/// `semver::Prerelease::new` and `semver::BuildMetadata::new`, and compares
/// the two with `Ord::cmp`.
///
/// How qualifiers are ordered is the outside crate's matter: the contract
/// only names the result.
#[verifier::external_body]
fn compare_semver(a: &Version, b: &Version) -> (r: Option<Ordering>)
    ensures
        r == semver_order(a@, b@),
{
    let x = semver::Version {
        major: a.major,
        minor: a.minor,
        patch: a.patch,
        pre: semver::Prerelease::new(&a.pre).ok()?,
        build: semver::BuildMetadata::new(&a.build).ok()?,
    };
    let y = semver::Version {
        major: b.major,
        minor: b.minor,
        patch: b.patch,
        pre: semver::Prerelease::new(&b.pre).ok()?,
        build: semver::BuildMetadata::new(&b.build).ok()?,
    };
    Some(x.cmp(&y))
}

/// The order of two numbers.
pub open spec fn number_order(x: u64, y: u64) -> Ordering {
    if x < y {
        Ordering::Less
    } else if x > y {
        Ordering::Greater
    } else {
        Ordering::Equal
    }
}

/// Two versions agree in their three numbers.
pub open spec fn same_numbers(a: VersionView, b: VersionView) -> bool {
    a.major == b.major && a.minor == b.minor && a.patch == b.patch
}

/// The order of two versions by their numbers alone: by the major number,
/// then the minor, then the patch.
pub open spec fn numeric_order(a: VersionView, b: VersionView) -> Ordering {
    if a.major != b.major {
        number_order(a.major, b.major)
    } else if a.minor != b.minor {
        number_order(a.minor, b.minor)
    } else {
        number_order(a.patch, b.patch)
    }
}

/// The precedence of two versions. Their numbers decide it where they
/// differ. Versions that agree in every part are equal. What is left, two
/// versions that differ in their qualifiers only, is ordered as semantic
/// versioning orders them, and not at all where a qualifier is malformed.
pub open spec fn precedence(a: VersionView, b: VersionView) -> Option<Ordering> {
    if !same_numbers(a, b) {
        Some(numeric_order(a, b))
    } else if a == b {
        Some(Ordering::Equal)
    } else {
        semver_order(a, b)
    }
}

/// Compares two numbers.
fn compare_numbers(x: u64, y: u64) -> (o: Ordering)
    ensures
        o == number_order(x, y),
{
    if x < y {
        Ordering::Less
    } else if x > y {
        Ordering::Greater
    } else {
        Ordering::Equal
    }
}

impl PartialOrd for Version {
    fn partial_cmp(&self, other: &Self) -> (r: Option<Ordering>) {
        if self.major != other.major {
            Some(compare_numbers(self.major, other.major))
        } else if self.minor != other.minor {
            Some(compare_numbers(self.minor, other.minor))
        } else if self.patch != other.patch {
            Some(compare_numbers(self.patch, other.patch))
        } else if self.pre == other.pre && self.build == other.build {
            Some(Ordering::Equal)
        } else {
            compare_semver(self, other)
        }
    }
}

impl vstd::std_specs::cmp::PartialOrdSpecImpl for Version {
    open spec fn obeys_partial_cmp_spec() -> bool {
        true
    }

    open spec fn partial_cmp_spec(&self, other: &Self) -> Option<Ordering> {
        precedence(self@, other@)
    }
}

impl PartialOrd for Release {
    fn partial_cmp(&self, other: &Self) -> (r: Option<Ordering>) {
        self.version.partial_cmp(&other.version)
    }
}

impl vstd::std_specs::cmp::PartialOrdSpecImpl for Release {
    open spec fn obeys_partial_cmp_spec() -> bool {
        true
    }

    /// Records are ordered as their versions are.
    open spec fn partial_cmp_spec(&self, other: &Self) -> Option<Ordering> {
        precedence(self.version@, other.version@)
    }
}

/// Among valid records the selection agrees with the precedence of their
/// versions: the record selected for a minor line comes after every record
/// of the line that has another patch number.
pub proof fn lemma_selected_takes_precedence(records: Seq<ReleaseView>, k: int, j: int)
    requires
        all_valid(records),
        0 <= k < latest_records(records).len(),
        0 <= j < records.len(),
        records[j].version.minor == latest_records(records)[k].version.minor,
        records[j].version.patch != latest_records(records)[k].version.patch,
    ensures
        precedence(records[j].version, latest_records(records)[k].version) == Some(Ordering::Less),
        precedence(latest_records(records)[k].version, records[j].version) == Some(
            Ordering::Greater,
        ),
{
    crate::latest::lemma_selected_is_latest(records, k);
    crate::latest::lemma_selection_is_monotonic(records, k, j);
}

} // verus!
