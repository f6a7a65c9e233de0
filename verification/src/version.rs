//! Semantic versions and the rule that tells a regular release from the rest.

use vstd::prelude::*;

verus! {

/// The only major version whose releases are accepted.
pub const MAJOR_VERSION: u64 = 3;

/// Exclusive upper bound of the accepted minor and patch numbers.
pub const VERSION_LIMIT: u64 = 99;

/// A semantic version. The qualifiers are empty where the version has none.
#[derive(Debug)]
pub struct Version {
    pub major: u64,
    pub minor: u64,
    pub patch: u64,
    pub pre: String,
    pub build: String,
}

/// What a [`Version`] stands for in contracts.
pub struct VersionView {
    pub major: u64,
    pub minor: u64,
    pub patch: u64,
    pub pre: Seq<char>,
    pub build: Seq<char>,
}

impl View for Version {
    type V = VersionView;

    open spec fn view(&self) -> VersionView {
        VersionView {
            major: self.major,
            minor: self.minor,
            patch: self.patch,
            pre: self.pre@,
            build: self.build@,
        }
    }
}

/// What `semver::Version::parse` makes of `text`: the parts of the version
/// that it reads, or `None` where it rejects the text.
pub uninterp spec fn semver_parse(text: Seq<char>) -> Option<VersionView>;

/// Calls `semver::Version::parse` and copies the five parts of its result.
///
/// The grammar is the outside crate's, so the contract only names the result:
/// the same text always gives the same version, or is always rejected.
#[verifier::external_body]
fn parse_semver(text: &str) -> (r: Option<Version>)
    ensures
        r.is_some() == semver_parse(text@).is_some(),
        r.is_some() ==> r.unwrap()@ == semver_parse(text@).unwrap(),
{
    match semver::Version::parse(text) {
        Ok(v) => Some(
            Version {
                major: v.major,
                minor: v.minor,
                patch: v.patch,
                pre: v.pre.as_str().to_string(),
                build: v.build.as_str().to_string(),
            },
        ),
        Err(_) => None,
    }
}

impl Version {
    /// Reads a version from its text, such as `3.1.12` or `3.2.0-rc1`.
    pub fn parse(text: &str) -> (r: Option<Version>)
        ensures
            r.is_some() == semver_parse(text@).is_some(),
            r.is_some() ==> r.unwrap()@ == semver_parse(text@).unwrap(),
    {
        parse_semver(text)
    }
}

impl Clone for Version {
    fn clone(&self) -> (r: Self)
        ensures
            r == *self,
    {
        Version {
            major: self.major,
            minor: self.minor,
            patch: self.patch,
            pre: self.pre.clone(),
            build: self.build.clone(),
        }
    }
}

impl PartialEq for Version {
    fn eq(&self, other: &Self) -> (r: bool) {
        self.major == other.major && self.minor == other.minor && self.patch == other.patch
            && self.pre == other.pre && self.build == other.build
    }
}

impl vstd::std_specs::cmp::PartialEqSpecImpl for Version {
    open spec fn obeys_eq_spec() -> bool {
        true
    }

    /// Two versions are equal if they agree in all five parts.
    open spec fn eq_spec(&self, other: &Self) -> bool {
        self@ == other@
    }
}

impl Eq for Version {}

impl VersionView {
    /// A regular release belongs to the accepted major version, has its minor
    /// and patch numbers below the limit, and is no pre-release.
    pub open spec fn is_regular_release(self) -> bool {
        &&& self.major == MAJOR_VERSION
        &&& self.minor < VERSION_LIMIT
        &&& self.patch < VERSION_LIMIT
        &&& self.pre.len() == 0
    }
}

/// Tells whether `r` is a regular release.
pub fn is_regular_release(r: &Version) -> (b: bool)
    ensures
        b == r@.is_regular_release(),
        r@.pre.len() > 0 ==> !b,
{
    r.major == MAJOR_VERSION && r.minor < VERSION_LIMIT && r.patch < VERSION_LIMIT
        && r.pre.as_str().is_empty()
}

} // verus!
