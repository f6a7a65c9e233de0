use ruby_releases::artifact::has_tar_gz_url;
use ruby_releases::release::Release;
use ruby_releases::version::{is_regular_release, Version, MAJOR_VERSION, VERSION_LIMIT};

fn good_url() -> &'static str {
    "https://cache.ruby-lang.org/pub/ruby/3.0/ruby-3.0.2.tar.gz"
}

fn bad_urls() -> Vec<&'static str> {
    vec![
        "https://cache.ruby-lang.org/pub/ruby/3.0/ruby-3.0.2.tar.xz",
        "https://cache.ruby-lang.org/pub/ruby/3.0/ruby-3.0.2.zip",
        "https://cache.ruby-lang.org/pub/ruby/2.7/ruby-2.7.6.tar.bz2",
    ]
}

fn release(version: &str, url: &str) -> Release {
    Release {
        version: Version::parse(version).unwrap(),
        url: url.to_owned(),
        sha256: "sha256".to_string(),
    }
}

fn good_versions() -> Vec<&'static str> {
    vec!["3.2.0", "3.2.11", "3.2.2", "3.1.0", "3.1.12", "3.0.5", "3.0.16"]
}

fn bad_versions() -> Vec<&'static str> {
    vec!["2.7.0", "3.2.0-preview1", "3.2.0-rc2", "3.1.5-something"]
}

#[test]
fn validates_good_version() {
    for version in good_versions() {
        assert!(release(version, good_url()).valid());
    }

    for url in bad_urls() {
        for version in bad_versions() {
            assert!(!release(version, url).valid());
        }
        assert!(!release("3.2.0", url).valid());
    }
}

#[test]
fn only_allows_tar_gz_urls() {
    assert!(has_tar_gz_url(good_url()));

    for url in bad_urls() {
        assert!(!has_tar_gz_url(url))
    }
}

#[test]
fn validity_is_the_same_on_every_call() {
    let good = release("3.1.2", good_url());
    let bad = release("3.1.2-rc1", good_url());
    for _ in 0..3 {
        assert!(good.valid());
        assert!(!bad.valid());
    }
    assert_eq!(good.clone().valid(), good.valid());
}

#[test]
fn other_major_version_is_invalid() {
    assert_eq!(MAJOR_VERSION, 3);
    assert!(!release("2.7.0", good_url()).valid());
    assert!(!release("4.0.0", good_url()).valid());
    assert!(!release("0.3.3", good_url()).valid());
    assert!(!is_regular_release(&Version::parse("2.7.0").unwrap()));
    assert!(is_regular_release(&Version::parse("3.0.0").unwrap()));
}

#[test]
fn prerelease_is_invalid_whatever_the_rest() {
    for version in ["3.2.0-rc2", "3.2.0-preview1", "3.0.0-0", "3.1.5-something", "3.4.5-a.b.c"] {
        assert!(!release(version, good_url()).valid());
        assert!(!is_regular_release(&Version::parse(version).unwrap()));
    }
    let by_hand = Release {
        version: Version {
            major: 3,
            minor: 2,
            patch: 0,
            pre: "x".to_string(),
            build: String::new(),
        },
        url: good_url().to_string(),
        sha256: String::new(),
    };
    assert!(!by_hand.valid());
}

#[test]
fn build_metadata_does_not_spoil_a_release() {
    assert!(is_regular_release(&Version::parse("3.1.2+build.7").unwrap()));
    assert!(release("3.1.2+build.7", good_url()).valid());
    assert!(!release("3.1.2-rc1+build.7", good_url()).valid());
}

#[test]
fn numbers_at_the_limit_are_invalid() {
    assert_eq!(VERSION_LIMIT, 99);
    assert!(release("3.98.98", good_url()).valid());
    assert!(release("3.0.0", good_url()).valid());
    assert!(!release("3.99.0", good_url()).valid());
    assert!(!release("3.0.99", good_url()).valid());
    assert!(!release("3.100.1", good_url()).valid());
    assert!(!release("3.1.18446744073709551615", good_url()).valid());
}

#[test]
fn wrong_suffix_is_invalid() {
    assert!(!release("3.0.2", "https://cache.ruby-lang.org/pub/ruby/3.0/ruby-3.0.2.tar.xz").valid());
    assert!(!has_tar_gz_url("https://cache.ruby-lang.org/pub/ruby/3.0/ruby-3.0.2.tar.gz "));
    assert!(!has_tar_gz_url("https://cache.ruby-lang.org/pub/ruby/3.0/ruby-3.0.2.tar.gz.sig"));
    assert!(!has_tar_gz_url("https://cache.ruby-lang.org/pub/ruby/3.0/ruby-3.0.2.tar.GZ"));
    assert!(!has_tar_gz_url("https://cache.ruby-lang.org/pub/ruby/3.0/ruby-3.0.2-tar.gz"));
    assert!(!has_tar_gz_url("https://cache.ruby-lang.org/pub/ruby/3.0/ruby-3.0.2.tar.gz\n"));
}

#[test]
fn insecure_scheme_is_invalid() {
    assert!(!has_tar_gz_url("http://cache.ruby-lang.org/pub/ruby/3.0/ruby-3.0.2.tar.gz"));
    assert!(!has_tar_gz_url("ftp://cache.ruby-lang.org/pub/ruby/3.0/ruby-3.0.2.tar.gz"));
    assert!(!has_tar_gz_url("cache.ruby-lang.org/pub/ruby/3.0/ruby-3.0.2.tar.gz"));
    assert!(!has_tar_gz_url("HTTPS://cache.ruby-lang.org/pub/ruby/3.0/ruby-3.0.2.tar.gz"));
    assert!(!has_tar_gz_url(" https://cache.ruby-lang.org/pub/ruby/3.0/ruby-3.0.2.tar.gz"));
    assert!(!has_tar_gz_url("http://mirror.example/https://cache.ruby-lang.org/ruby-3.0.2.tar.gz"));
    assert!(!release("3.0.2", "http://cache.ruby-lang.org/pub/ruby/3.0/ruby-3.0.2.tar.gz").valid());
}

#[test]
fn shortest_and_odd_artifact_urls() {
    assert!(has_tar_gz_url("https://.tar.gz"));
    assert!(has_tar_gz_url("https://a.tar.gz"));
    assert!(has_tar_gz_url("https://example.org/ruby 3.0.2.tar.gz"));
    assert!(has_tar_gz_url("https://example.org/a\nb.tar.gz"));
    assert!(has_tar_gz_url("https://example.org/r\u{fc}by-3.0.2.tar.gz"));
    assert!(!has_tar_gz_url("https://tar.gz"));
    assert!(!has_tar_gz_url("https:/.tar.gz"));
    assert!(!has_tar_gz_url(".tar.gz"));
    assert!(!has_tar_gz_url("https://"));
    assert!(!has_tar_gz_url(""));
}

#[test]
fn version_text_is_read_in_all_its_parts() {
    let plain = Version::parse("3.1.12").unwrap();
    assert_eq!(
        plain,
        Version { major: 3, minor: 1, patch: 12, pre: String::new(), build: String::new() }
    );
    let full = Version::parse("10.20.30-rc.1+build.5").unwrap();
    assert_eq!(full.major, 10);
    assert_eq!(full.minor, 20);
    assert_eq!(full.patch, 30);
    assert_eq!(full.pre, "rc.1");
    assert_eq!(full.build, "build.5");
}

#[test]
fn malformed_version_text_is_rejected() {
    for text in ["", "3", "3.1", "3.1.x", "3.01.2", "3.1.2-", "3.1.2+", " 3.1.2", "3.1.2 ", "ruby-3.1.2", "3.1.2.4", "99999999999999999999.0.0"] {
        assert!(Version::parse(text).is_none(), "{:?}", text);
    }
}
