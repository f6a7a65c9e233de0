//! The release index: a header row that names the columns, then one row for
//! each release, the fields of a row separated by tabs.

use crate::release::{Release, ReleaseView};
use crate::text::strip_prefix;
use crate::version::{semver_parse, Version, VersionView};
use vstd::prelude::*;

verus! {

/// The byte that separates the fields of a row: a horizontal tab.
pub const FIELD_DELIMITER: u8 = 9;

/// What precedes the version in the name of a release.
pub const RELEASE_NAME_PREFIX: &'static str = "ruby-";

/// The header of the column that holds the name of a release.
pub const NAME_COLUMN: &'static str = "name";

/// The header of the column that holds the location of the artifact.
pub const URL_COLUMN: &'static str = "url";

/// The header of the column that holds the checksum of the artifact.
pub const SHA256_COLUMN: &'static str = "sha256";

/// One of the columns that every index must have.
#[derive(Debug, Clone, Copy, PartialEq, Eq, Structural)]
pub enum Column {
    Name,
    Url,
    Sha256,
}

/// Why no header could be had from an index. A row below the header never
/// gives an error: a row that cannot be read is left out.
#[derive(Debug, Clone, Copy, PartialEq, Eq, Structural)]
pub enum ParseError {
    /// The index holds no row at all.
    EmptyInput,
    /// The first row could not be read.
    UnreadableHeader,
    /// The header does not name the column.
    MissingColumn(Column),
}

/// The records that `csv::Reader::records` yields for `text`, in their order,
/// when fields are separated by `delimiter`, the first record is handed out
/// like the others and records may differ in length. A record is `None` where
/// the reader reports an error for it.
pub uninterp spec fn csv_records(delimiter: u8, text: Seq<char>) -> Seq<Option<Seq<Seq<char>>>>;

/// Reads `text` with a `csv::Reader` built by `csv::ReaderBuilder` for the
/// given delimiter, without a header row of its own and with records of any
/// length, and collects every item of `csv::Reader::records`, the fields of a
/// record copied into strings.
///
/// What the reader takes for a record is the outside crate's matter (quotes,
/// line ends, empty lines): the contract only names the result.
#[verifier::external_body]
fn read_records(text: &str, delimiter: u8) -> (rows: Vec<Option<Vec<String>>>)
    ensures
        rows.deep_view() == csv_records(delimiter, text@),
{
    let mut reader = csv::ReaderBuilder::new()
        .delimiter(delimiter)
        .has_headers(false)
        .flexible(true)
        .from_reader(text.as_bytes());
    reader.records().map(|record| record.ok().map(|r| r.iter().map(String::from).collect())).collect()
}

/// `header[i]` is the column called `name`.
pub open spec fn is_column(header: Seq<Seq<char>>, name: Seq<char>, i: int) -> bool {
    0 <= i < header.len() && header[i] == name
}

/// The header has no column called `name`.
pub open spec fn column_missing(header: Seq<Seq<char>>, name: Seq<char>) -> bool {
    forall|i: int| !is_column(header, name, i)
}

/// The header has more than one column called `name`.
pub open spec fn column_repeated(header: Seq<Seq<char>>, name: Seq<char>) -> bool {
    exists|i: int, j: int| i != j && is_column(header, name, i) && is_column(header, name, j)
}

/// Where the column called `name` stands, if the header has it once.
pub open spec fn column_at(header: Seq<Seq<char>>, name: Seq<char>) -> int {
    choose|i: int| is_column(header, name, i)
}

/// The header names one of the three columns more than once. That is no
/// error, but under such a header no row gives a record: which of the two
/// fields of a row is meant cannot be told.
pub open spec fn repeats_a_column(header: Seq<Seq<char>>) -> bool {
    ||| column_repeated(header, NAME_COLUMN@)
    ||| column_repeated(header, URL_COLUMN@)
    ||| column_repeated(header, SHA256_COLUMN@)
}

/// How often a header names a column, and where if it names it once.
enum Found {
    Never,
    Once(usize),
    Repeatedly,
}

/// Looks for the column of `header` that is called `name`.
fn find_column(header: &Vec<String>, name: &str) -> (r: Found)
    ensures
        match r {
            Found::Never => column_missing(header.deep_view(), name@),
            Found::Once(i) => {
                &&& i < header.len()
                &&& i == column_at(header.deep_view(), name@)
                &&& !column_missing(header.deep_view(), name@)
                &&& !column_repeated(header.deep_view(), name@)
            },
            Found::Repeatedly => {
                &&& !column_missing(header.deep_view(), name@)
                &&& column_repeated(header.deep_view(), name@)
            },
        },
{
    let ghost h = header.deep_view();
    let wanted = name.to_owned();
    let mut found: Option<usize> = None;
    let mut i: usize = 0;
    while i < header.len()
        invariant
            i <= header.len(),
            h == header.deep_view(),
            wanted@ == name@,
            match found {
                Some(f) => f < i && is_column(h, name@, f as int) && forall|k: int|
                    0 <= k < i && k != f ==> !is_column(h, name@, k),
                None => forall|k: int| 0 <= k < i ==> !is_column(h, name@, k),
            },
        decreases header.len() - i,
    {
        if header[i] == wanted {
            assert(is_column(h, name@, i as int));
            match found {
                Some(f) => {
                    return Found::Repeatedly;
                },
                None => {
                    found = Some(i);
                },
            }
        }
        i += 1;
    }
    match found {
        Some(f) => {
            assert(!column_repeated(h, name@));
            Found::Once(f)
        },
        None => Found::Never,
    }
}

/// What is wrong with the header row, if anything: it could not be read, or
/// it lacks one of the three columns, which are looked for in the order
/// name, location, checksum. Columns beyond these three are of no account.
pub open spec fn header_error(header: Option<Seq<Seq<char>>>) -> Option<ParseError> {
    match header {
        None => Some(ParseError::UnreadableHeader),
        Some(h) => {
            if column_missing(h, NAME_COLUMN@) {
                Some(ParseError::MissingColumn(Column::Name))
            } else if column_missing(h, URL_COLUMN@) {
                Some(ParseError::MissingColumn(Column::Url))
            } else if column_missing(h, SHA256_COLUMN@) {
                Some(ParseError::MissingColumn(Column::Sha256))
            } else {
                None
            }
        },
    }
}

/// The version that the name of a release gives: what follows the prefix,
/// read as a version. `None` where the name lacks the prefix or what follows
/// it is no version.
pub open spec fn release_name_version(name: Seq<char>) -> Option<VersionView> {
    if RELEASE_NAME_PREFIX@.is_prefix_of(name) {
        semver_parse(name.skip(RELEASE_NAME_PREFIX@.len() as int))
    } else {
        None
    }
}

/// The record that a row gives under `header`. `None` where the row could not
/// be read, has not as many fields as the header, or names no version, and
/// for every row where the header names one of the three columns more than
/// once.
pub open spec fn row_release(header: Seq<Seq<char>>, row: Option<Seq<Seq<char>>>) -> Option<
    ReleaseView,
> {
    match row {
        None => None,
        Some(fields) => {
            if fields.len() != header.len() || repeats_a_column(header) {
                None
            } else {
                match release_name_version(fields[column_at(header, NAME_COLUMN@)]) {
                    None => None,
                    Some(version) => Some(
                        ReleaseView {
                            version,
                            url: fields[column_at(header, URL_COLUMN@)],
                            sha256: fields[column_at(header, SHA256_COLUMN@)],
                        },
                    ),
                }
            }
        },
    }
}

/// [`row_release`] under a fixed header, as a function of the row.
pub open spec fn row_reader(header: Seq<Seq<char>>) -> spec_fn(Option<Seq<Seq<char>>>) -> Option<
    ReleaseView,
> {
    |row: Option<Seq<Seq<char>>>| row_release(header, row)
}

/// The records of an index, given its rows with the header first: an error
/// where no header can be had, else the records of the rows below the header
/// that give one, in the order of the rows.
pub open spec fn feed_records(rows: Seq<Option<Seq<Seq<char>>>>) -> Result<
    Seq<ReleaseView>,
    ParseError,
> {
    if rows.len() == 0 {
        Err(ParseError::EmptyInput)
    } else {
        match header_error(rows[0]) {
            Some(e) => Err(e),
            None => Ok(rows.skip(1).filter_map(row_reader(rows[0].unwrap()))),
        }
    }
}

/// The views of some records, in their order.
pub open spec fn views(records: Seq<Release>) -> Seq<ReleaseView> {
    records.map_values(|r: Release| r@)
}

/// The outcome of reading an index, with the records as their views.
pub open spec fn outcome_view(outcome: Result<Vec<Release>, ParseError>) -> Result<
    Seq<ReleaseView>,
    ParseError,
> {
    match outcome {
        Ok(records) => Ok(views(records@)),
        Err(e) => Err(e),
    }
}

/// Reads the version from the name of a release, such as `ruby-3.1.1`.
pub fn parse_release_name(name: &str) -> (r: Option<Version>)
    ensures
        r.is_some() == release_name_version(name@).is_some(),
        r.is_some() ==> r.unwrap()@ == release_name_version(name@).unwrap(),
{
    match strip_prefix(name, RELEASE_NAME_PREFIX) {
        Some(rest) => Version::parse(rest),
        None => None,
    }
}

/// Makes the record of one row, whose columns stand where the header has
/// them.
fn release_from_row(
    header: &Vec<String>,
    name_at: usize,
    url_at: usize,
    sha256_at: usize,
    row: &Option<Vec<String>>,
) -> (r: Option<Release>)
    requires
        !repeats_a_column(header.deep_view()),
        name_at == column_at(header.deep_view(), NAME_COLUMN@),
        url_at == column_at(header.deep_view(), URL_COLUMN@),
        sha256_at == column_at(header.deep_view(), SHA256_COLUMN@),
        name_at < header.len(),
        url_at < header.len(),
        sha256_at < header.len(),
    ensures
        r.is_some() == row_release(header.deep_view(), row.deep_view()).is_some(),
        r.is_some() ==> r.unwrap()@ == row_release(header.deep_view(), row.deep_view()).unwrap(),
{
    match row {
        None => None,
        Some(fields) => {
            if fields.len() != header.len() {
                None
            } else {
                match parse_release_name(fields[name_at].as_str()) {
                    None => None,
                    Some(version) => Some(
                        Release {
                            version,
                            url: fields[url_at].clone(),
                            sha256: fields[sha256_at].clone(),
                        },
                    ),
                }
            }
        },
    }
}

/// Makes the records of an index from its rows, the header first.
///
/// This fails only where there is no row, or the header could not be read or
/// lacks one of the three columns. A row below the header that could not be
/// read, has too few or too many fields, or names no version is left out.
/// Under a header that names one of the three columns more than once every
/// row is left out.
pub fn releases_from_rows(rows: &Vec<Option<Vec<String>>>) -> (r: Result<Vec<Release>, ParseError>)
    ensures
        outcome_view(r) == feed_records(rows.deep_view()),
        r.is_ok() == (rows.len() > 0 && header_error(rows.deep_view()[0]).is_none()),
{
    if rows.len() == 0 {
        return Err(ParseError::EmptyInput);
    }
    let header = match &rows[0] {
        None => {
            return Err(ParseError::UnreadableHeader);
        },
        Some(h) => h,
    };
    let name = find_column(header, NAME_COLUMN);
    if let Found::Never = name {
        return Err(ParseError::MissingColumn(Column::Name));
    }
    let url = find_column(header, URL_COLUMN);
    if let Found::Never = url {
        return Err(ParseError::MissingColumn(Column::Url));
    }
    let sha256 = find_column(header, SHA256_COLUMN);
    if let Found::Never = sha256 {
        return Err(ParseError::MissingColumn(Column::Sha256));
    }
    let ghost body = rows.deep_view().skip(1);
    let ghost read = row_reader(header.deep_view());
    let mut records: Vec<Release> = Vec::new();
    proof {
        assert(views(records@) =~= Seq::empty());
    }
    let (name_at, url_at, sha256_at) = match (name, url, sha256) {
        (Found::Once(n), Found::Once(u), Found::Once(s)) => (n, u, s),
        _ => {
            proof {
                lemma_filter_map_nothing(body, read);
            }
            return Ok(records);
        },
    };
    let mut i: usize = 1;
    proof {
        assert(body.take(0) =~= Seq::empty());
    }
    while i < rows.len()
        invariant
            1 <= i <= rows.len(),
            !repeats_a_column(header.deep_view()),
            body == rows.deep_view().skip(1),
            read == row_reader(header.deep_view()),
            name_at == column_at(header.deep_view(), NAME_COLUMN@),
            url_at == column_at(header.deep_view(), URL_COLUMN@),
            sha256_at == column_at(header.deep_view(), SHA256_COLUMN@),
            name_at < header.len(),
            url_at < header.len(),
            sha256_at < header.len(),
            views(records@) == body.take(i - 1).filter_map(read),
        decreases rows.len() - i,
    {
        let made = release_from_row(header, name_at, url_at, sha256_at, &rows[i]);
        proof {
            body.lemma_filter_map_take_succ(read, i - 1);
            assert(body[i - 1] == rows[i as int].deep_view());
        }
        match made {
            Some(record) => {
                proof {
                    assert(views(records@.push(record)) =~= views(records@).push(record@));
                }
                records.push(record);
            },
            None => {},
        }
        i += 1;
    }
    proof {
        assert(body.take(rows.len() - 1) =~= body);
    }
    Ok(records)
}

/// Reads the records of an index from its text.
///
/// This fails only where the text holds no row, or the header lacks one of
/// the three columns. A row below the header that could not be read, has too
/// few or too many fields, or names no version is left out. Under a header
/// that names one of the three columns more than once every row is left out.
pub fn parse_records(text: &str) -> (r: Result<Vec<Release>, ParseError>)
    ensures
        outcome_view(r) == feed_records(csv_records(FIELD_DELIMITER, text@)),
        r.is_ok() == (csv_records(FIELD_DELIMITER, text@).len() > 0 && header_error(
            csv_records(FIELD_DELIMITER, text@)[0],
        ).is_none()),
{
    let rows = read_records(text, FIELD_DELIMITER);
    releases_from_rows(&rows)
}

/// Validity, as a function of the record.
pub open spec fn valid_record() -> spec_fn(ReleaseView) -> bool {
    |r: ReleaseView| r.is_valid()
}

/// The valid records among those of an index, given its rows with the header
/// first: an error where no header can be had.
pub open spec fn valid_feed_records(rows: Seq<Option<Seq<Seq<char>>>>) -> Result<
    Seq<ReleaseView>,
    ParseError,
> {
    match feed_records(rows) {
        Ok(records) => Ok(records.filter(valid_record())),
        Err(e) => Err(e),
    }
}

/// Keeps the valid records, in their order.
pub fn retain_valid(records: Vec<Release>) -> (kept: Vec<Release>)
    ensures
        views(kept@) == views(records@).filter(valid_record()),
        forall|k: int| 0 <= k < kept.len() ==> (#[trigger] kept[k])@.is_valid(),
{
    let ghost all = views(records@);
    let mut kept: Vec<Release> = Vec::new();
    let mut i: usize = 0;
    proof {
        reveal(Seq::filter);
        assert(all.take(0) =~= Seq::empty());
        assert(views(kept@) =~= Seq::empty());
    }
    while i < records.len()
        invariant
            i <= records.len(),
            all == views(records@),
            views(kept@) == all.take(i as int).filter(valid_record()),
            forall|k: int| 0 <= k < kept.len() ==> (#[trigger] kept[k])@.is_valid(),
        decreases records.len() - i,
    {
        let keep = records[i].valid();
        proof {
            assert(all.take(i + 1) =~= all.take(i as int).push(records[i as int]@));
            all.take(i as int).lemma_filter_push(records[i as int]@, valid_record());
        }
        if keep {
            let record = records[i].clone();
            proof {
                assert(views(kept@.push(record)) =~= views(kept@).push(record@));
            }
            kept.push(record);
        }
        i += 1;
    }
    proof {
        assert(all.take(records.len() as int) =~= all);
    }
    kept
}

/// Reads the valid records of an index from its text, in the order of their
/// rows.
///
/// This fails only where the text holds no row, or the header lacks one of
/// the three columns. A row below the header that could not be read, has too
/// few or too many fields, or names no version is left out, and so is a
/// record that is not valid. Under a header that names one of the three
/// columns more than once every row is left out.
pub fn parse_data(csv: &str) -> (r: Result<Vec<Release>, ParseError>)
    ensures
        outcome_view(r) == valid_feed_records(csv_records(FIELD_DELIMITER, csv@)),
        r.is_ok() == (csv_records(FIELD_DELIMITER, csv@).len() > 0 && header_error(
            csv_records(FIELD_DELIMITER, csv@)[0],
        ).is_none()),
        r.is_ok() ==> forall|k: int|
            0 <= k < r.unwrap().len() ==> (#[trigger] r.unwrap()[k])@.is_valid(),
{
    match parse_records(csv) {
        Ok(records) => Ok(retain_valid(records)),
        Err(e) => Err(e),
    }
}

/// Items that all give nothing give nothing together.
proof fn lemma_filter_map_nothing<A, B>(s: Seq<A>, f: spec_fn(A) -> Option<B>)
    requires
        forall|i: int| 0 <= i < s.len() ==> f(#[trigger] s[i]).is_none(),
    ensures
        s.filter_map(f) == Seq::<B>::empty(),
    decreases s.len(),
{
    if s.len() > 0 {
        assert forall|i: int| 0 <= i < s.drop_last().len() implies f(
            #[trigger] s.drop_last()[i],
        ).is_none() by {
            assert(s.drop_last()[i] == s[i]);
        }
        lemma_filter_map_nothing(s.drop_last(), f);
    }
}

/// Leaving out an item that gives nothing does not change what the rest
/// gives.
proof fn lemma_filter_map_remove<A, B>(s: Seq<A>, f: spec_fn(A) -> Option<B>, k: int)
    requires
        0 <= k < s.len(),
        f(s[k]).is_none(),
    ensures
        s.remove(k).filter_map(f) == s.filter_map(f),
    decreases s.len(),
{
    if k == s.len() - 1 {
        assert(s.remove(k) =~= s.drop_last());
    } else {
        lemma_filter_map_remove(s.drop_last(), f, k);
        assert(s.remove(k).drop_last() =~= s.drop_last().remove(k));
        assert(s.remove(k).last() == s.last());
    }
}

/// A row with too few or too many fields gives no record, and neither does
/// one whose name lacks the prefix or names no version.
pub proof fn lemma_malformed_row_gives_nothing(header: Seq<Seq<char>>, fields: Seq<Seq<char>>)
    ensures
        fields.len() != header.len() ==> row_release(header, Some(fields)).is_none(),
        repeats_a_column(header) ==> row_release(header, Some(fields)).is_none(),
        release_name_version(fields[column_at(header, NAME_COLUMN@)]).is_none() ==> row_release(
            header,
            Some(fields),
        ).is_none(),
        row_release(header, None).is_none(),
{
}

/// An index can be read exactly if it has a header that names each of the
/// three columns at least once. It may name them, and others, in any order
/// and any number of times.
pub proof fn lemma_header_with_the_columns_is_read(rows: Seq<Option<Seq<Seq<char>>>>)
    ensures
        feed_records(rows).is_ok() == {
            &&& rows.len() > 0
            &&& rows[0].is_some()
            &&& !column_missing(rows[0].unwrap(), NAME_COLUMN@)
            &&& !column_missing(rows[0].unwrap(), URL_COLUMN@)
            &&& !column_missing(rows[0].unwrap(), SHA256_COLUMN@)
        },
        valid_feed_records(rows).is_ok() == feed_records(rows).is_ok(),
{
}

/// An index whose header names one of the three columns more than once, and
/// lacks none of them, is read without error and has no record.
pub proof fn lemma_repeated_column_gives_no_record(rows: Seq<Option<Seq<Seq<char>>>>)
    requires
        rows.len() > 0,
        header_error(rows[0]).is_none(),
        repeats_a_column(rows[0].unwrap()),
    ensures
        feed_records(rows) == Ok::<Seq<ReleaseView>, ParseError>(Seq::empty()),
        valid_feed_records(rows) == Ok::<Seq<ReleaseView>, ParseError>(Seq::empty()),
{
    reveal(Seq::filter);
    lemma_filter_map_nothing(rows.skip(1), row_reader(rows[0].unwrap()));
}

/// Whether an index can be read depends on its header alone: no row below
/// the header makes the reading fail.
pub proof fn lemma_rows_never_fail(
    rows: Seq<Option<Seq<Seq<char>>>>,
    others: Seq<Option<Seq<Seq<char>>>>,
)
    requires
        rows.len() > 0,
        others.len() > 0,
        rows[0] == others[0],
    ensures
        feed_records(rows).is_ok() == feed_records(others).is_ok(),
        feed_records(rows).is_ok() == header_error(rows[0]).is_none(),
        valid_feed_records(rows).is_ok() == feed_records(rows).is_ok(),
{
}

/// A row below the header that gives no record is as good as absent: the
/// index has the same records, or the same error, without it.
pub proof fn lemma_malformed_row_is_left_out(rows: Seq<Option<Seq<Seq<char>>>>, i: int)
    requires
        1 <= i < rows.len(),
        row_release(rows[0].unwrap(), rows[i]).is_none(),
    ensures
        feed_records(rows.remove(i)) == feed_records(rows),
        valid_feed_records(rows.remove(i)) == valid_feed_records(rows),
{
    let rest = rows.remove(i);
    assert(rest[0] == rows[0]);
    if header_error(rows[0]).is_none() {
        let read = row_reader(rows[0].unwrap());
        assert(rest.skip(1) =~= rows.skip(1).remove(i - 1));
        lemma_filter_map_remove(rows.skip(1), read, i - 1);
    }
}

} // verus!
