//! One record of the release index, and what makes it valid.

use crate::artifact::{
    has_tar_gz_url, is_artifact_url, lemma_artifact_needs_scheme_and_suffix, ARTIFACT_SUFFIX,
    SECURE_SCHEME,
};
use crate::version::{is_regular_release, Version, VersionView};
use vstd::prelude::*;

verus! {

/// A release: its version, where its artifact can be had, and the checksum
/// of the artifact, which is carried along as it was read.
#[derive(Debug)]
pub struct Release {
    pub version: Version,
    pub url: String,
    pub sha256: String,
}

/// What a [`Release`] stands for in contracts.
pub struct ReleaseView {
    pub version: VersionView,
    pub url: Seq<char>,
    pub sha256: Seq<char>,
}

impl View for Release {
    type V = ReleaseView;

    open spec fn view(&self) -> ReleaseView {
        ReleaseView { version: self.version@, url: self.url@, sha256: self.sha256@ }
    }
}

impl ReleaseView {
    /// A record is valid if it is a regular release and its location is that
    /// of an artifact.
    pub open spec fn is_valid(self) -> bool {
        self.version.is_regular_release() && is_artifact_url(self.url)
    }
}

impl Release {
    /// Tells whether the record is valid. The answer depends on nothing but
    /// the record.
    pub fn valid(&self) -> (b: bool)
        ensures
            b == self@.is_valid(),
            self@.version.pre.len() > 0 ==> !b,
            !SECURE_SCHEME@.is_prefix_of(self@.url) ==> !b,
            !ARTIFACT_SUFFIX@.is_suffix_of(self@.url) ==> !b,
    {
        proof {
            lemma_artifact_needs_scheme_and_suffix(self@.url);
        }
        is_regular_release(&self.version) && has_tar_gz_url(self.url.as_str())
    }
}

/// Validity is a function of the record and of nothing else: two records
/// that agree in every part are both valid or both not, whenever they are
/// asked.
pub proof fn lemma_validity_depends_on_the_record_alone(a: Release, b: Release)
    requires
        a@ == b@,
    ensures
        a@.is_valid() == b@.is_valid(),
{
}

/// A pre-release is never valid, whatever its numbers and its location.
pub proof fn lemma_prerelease_is_invalid(r: ReleaseView)
    requires
        r.version.pre.len() > 0,
    ensures
        !r.is_valid(),
{
}

/// A record is not valid unless its location begins with the secure scheme
/// and ends with the tarball suffix.
pub proof fn lemma_wrong_location_is_invalid(r: ReleaseView)
    requires
        !SECURE_SCHEME@.is_prefix_of(r.url) || !ARTIFACT_SUFFIX@.is_suffix_of(r.url),
    ensures
        !r.is_valid(),
{
    lemma_artifact_needs_scheme_and_suffix(r.url);
}

impl Clone for Release {
    fn clone(&self) -> (r: Self)
        ensures
            r == *self,
    {
        Release {
            version: self.version.clone(),
            url: self.url.clone(),
            sha256: self.sha256.clone(),
        }
    }
}

impl PartialEq for Release {
    fn eq(&self, other: &Self) -> (r: bool) {
        self.version == other.version
    }
}

impl vstd::std_specs::cmp::PartialEqSpecImpl for Release {
    open spec fn obeys_eq_spec() -> bool {
        true
    }

    /// Two records are equal if their versions are: a record has no identity
    /// beyond its version.
    open spec fn eq_spec(&self, other: &Self) -> bool {
        self.version@ == other.version@
    }
}

impl Eq for Release {}

} // verus!
