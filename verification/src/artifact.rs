//! The shape that the download location of a release artifact must have.

use vstd::prelude::*;

verus! {

/// The scheme of secure transport, as a location begins with it.
pub const SECURE_SCHEME: &'static str = "https://";

/// The ending of a gzip-compressed tarball.
pub const ARTIFACT_SUFFIX: &'static str = ".tar.gz";

/// The regular expression that an artifact location is matched against: the
/// secure scheme at the very start, the tarball suffix at the very end, and
/// any characters, line feeds among them, in between.
pub const ARTIFACT_URL_PATTERN: &'static str = "(?s)^https://.*\\.tar\\.gz$";

/// A location is that of an artifact if it begins with the secure scheme and
/// what follows the scheme ends with the tarball suffix.
pub open spec fn is_artifact_url(url: Seq<char>) -> bool {
    &&& SECURE_SCHEME@.is_prefix_of(url)
    &&& ARTIFACT_SUFFIX@.is_suffix_of(url.skip(SECURE_SCHEME@.len() as int))
}

/// Compiles `pattern` with `regex::Regex::new` and searches `haystack` with
/// `regex::Regex::is_match`.
///
/// The contract is claimed for [`ARTIFACT_URL_PATTERN`] alone, which compiles.
/// In it `(?s)` lets `.` match every character, `^` and `$` match only at the
/// two ends of the haystack, and the escaped dots are literal: a haystack
/// matches exactly if it is the scheme, then anything, then the suffix.
#[verifier::external_body]
fn matches_artifact_pattern(pattern: &str, haystack: &str) -> (b: bool)
    requires
        pattern@ == ARTIFACT_URL_PATTERN@,
    ensures
        b == is_artifact_url(haystack@),
{
    regex::Regex::new(pattern).unwrap().is_match(haystack)
}

/// Tells whether `u` is the location of a release artifact.
pub fn has_tar_gz_url(u: &str) -> (b: bool)
    ensures
        b == is_artifact_url(u@),
        !SECURE_SCHEME@.is_prefix_of(u@) ==> !b,
        !ARTIFACT_SUFFIX@.is_suffix_of(u@) ==> !b,
{
    proof {
        lemma_artifact_needs_scheme_and_suffix(u@);
    }
    matches_artifact_pattern(ARTIFACT_URL_PATTERN, u)
}

/// A location that does not begin with the secure scheme, or does not end
/// with the tarball suffix, is not that of an artifact.
pub proof fn lemma_artifact_needs_scheme_and_suffix(url: Seq<char>)
    ensures
        !SECURE_SCHEME@.is_prefix_of(url) ==> !is_artifact_url(url),
        !ARTIFACT_SUFFIX@.is_suffix_of(url) ==> !is_artifact_url(url),
{
    let n = SECURE_SCHEME@.len() as int;
    if is_artifact_url(url) {
        let rest = url.skip(n);
        let k = ARTIFACT_SUFFIX@.len() as int;
        assert(rest.subrange(rest.len() - k, rest.len() as int) =~= url.subrange(
            url.len() - k,
            url.len() as int,
        ));
    }
}

} // verus!
