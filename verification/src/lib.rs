//! Validation of release records and selection of the latest patch release of
//! every minor version line.
//!
//! A release index is tab-separated text with a header row. [`parse_data`]
//! reads the valid records out of it, [`latest_versions`] selects the latest
//! of every minor line among valid records, and [`latest_from_feed`] does
//! both.

pub mod artifact;
pub mod feed;
pub mod latest;
pub mod order;
pub mod release;
pub mod text;
pub mod version;

pub use artifact::has_tar_gz_url;
pub use feed::{parse_data, parse_records, ParseError};
pub use latest::{latest_from_feed, latest_versions};
pub use release::Release;
pub use version::{is_regular_release, Version, MAJOR_VERSION, VERSION_LIMIT};
