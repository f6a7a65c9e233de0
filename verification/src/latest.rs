//! Selection of the latest release of every minor version line.

use crate::feed::{
    csv_records, header_error, outcome_view, parse_data, valid_feed_records, views, ParseError,
    FIELD_DELIMITER,
};
use crate::release::{Release, ReleaseView};
use crate::version::VERSION_LIMIT;
use vstd::prelude::*;

verus! {

/// Some record belongs to minor line `minor`.
pub open spec fn line_is_present(records: Seq<ReleaseView>, minor: u64) -> bool {
    exists|i: int| 0 <= i < records.len() && (#[trigger] records[i]).version.minor == minor
}

/// `records[i]` is the latest of its minor line: no record of the line has a
/// greater patch number, and none that comes after it has the same.
pub open spec fn is_latest_of_line(records: Seq<ReleaseView>, i: int) -> bool {
    &&& 0 <= i < records.len()
    &&& forall|j: int|
        0 <= j < records.len() && (#[trigger] records[j]).version.minor
            == records[i].version.minor ==> records[j].version.patch <= records[i].version.patch
    &&& forall|j: int|
        i < j < records.len() && (#[trigger] records[j]).version.minor
            == records[i].version.minor ==> records[j].version.patch < records[i].version.patch
}

/// `records[i]` is the latest of minor line `minor`.
pub open spec fn is_latest_of(records: Seq<ReleaseView>, minor: u64, i: int) -> bool {
    is_latest_of_line(records, i) && records[i].version.minor == minor
}

/// The latest record of minor line `minor`, where the line is present.
pub open spec fn latest_of_line(records: Seq<ReleaseView>, minor: u64) -> ReleaseView {
    records[choose|i: int| is_latest_of(records, minor, i)]
}

/// The minor lines below `limit`, in ascending order.
pub open spec fn minor_lines(limit: u64) -> Seq<u64> {
    Seq::new(limit as nat, |m: int| m as u64)
}

/// [`line_is_present`] for fixed records, as a function of the line.
pub open spec fn present_in(records: Seq<ReleaseView>) -> spec_fn(u64) -> bool {
    |minor: u64| line_is_present(records, minor)
}

/// [`latest_of_line`] for fixed records, as a function of the line.
pub open spec fn latest_in(records: Seq<ReleaseView>) -> spec_fn(u64) -> ReleaseView {
    |minor: u64| latest_of_line(records, minor)
}

/// The latest record of every minor line below `limit` that is present, by
/// ascending minor number.
pub open spec fn latest_below(records: Seq<ReleaseView>, limit: u64) -> Seq<ReleaseView> {
    minor_lines(limit).filter(present_in(records)).map_values(latest_in(records))
}

/// The latest record of every minor line below [`VERSION_LIMIT`] that is
/// present, by ascending minor number.
pub open spec fn latest_records(records: Seq<ReleaseView>) -> Seq<ReleaseView> {
    latest_below(records, VERSION_LIMIT)
}

/// Every record is valid.
pub open spec fn all_valid(records: Seq<ReleaseView>) -> bool {
    forall|i: int| 0 <= i < records.len() ==> (#[trigger] records[i]).is_valid()
}

/// A minor line has at most one latest record.
pub proof fn lemma_latest_is_unique(records: Seq<ReleaseView>, minor: u64, i: int, j: int)
    requires
        is_latest_of(records, minor, i),
        is_latest_of(records, minor, j),
    ensures
        i == j,
{
    if i < j {
        assert(records[j].version.patch < records[i].version.patch);
        assert(records[i].version.patch <= records[j].version.patch);
    } else if j < i {
        assert(records[i].version.patch < records[j].version.patch);
        assert(records[j].version.patch <= records[i].version.patch);
    }
}

/// A minor line that is present has a latest record.
pub proof fn lemma_latest_exists(records: Seq<ReleaseView>, minor: u64)
    requires
        line_is_present(records, minor),
    ensures
        exists|i: int| is_latest_of(records, minor, i),
{
    let i = latest_among(records, minor, records.len());
    assert(records.take(records.len() as int) =~= records);
    assert(is_latest_of(records, minor, i));
}

/// Gives the latest record of minor line `minor` among the first `n`.
proof fn latest_among(records: Seq<ReleaseView>, minor: u64, n: nat) -> (at: int)
    requires
        n <= records.len(),
    ensures
        line_is_present(records.take(n as int), minor) ==> is_latest_of(
            records.take(n as int),
            minor,
            at,
        ),
    decreases n,
{
    if n == 0 {
        0
    } else {
        let before = records.take(n - 1);
        let now = records.take(n as int);
        let b = latest_among(records, minor, (n - 1) as nat);
        assert(forall|j: int| 0 <= j < n - 1 ==> now[j] == before[j]);
        if !line_is_present(now, minor) {
            0
        } else if now[n - 1].version.minor != minor {
            let w = choose|i: int| 0 <= i < now.len() && (#[trigger] now[i]).version.minor == minor;
            assert(before[w].version.minor == minor);
            assert(is_latest_of(now, minor, b));
            b
        } else if line_is_present(before, minor) && before[b].version.patch > now[n
            - 1].version.patch {
            assert(is_latest_of(now, minor, b));
            b
        } else {
            if !line_is_present(before, minor) {
                assert(forall|j: int|
                    0 <= j < n - 1 ==> (#[trigger] before[j]).version.minor != minor);
            }
            assert(is_latest_of(now, minor, n - 1));
            n - 1
        }
    }
}

/// What holds of the selection below `limit`: each of its records is the
/// latest of a line below the limit, the lines ascend, and every line below
/// the limit that is present has its record.
proof fn lemma_latest_below(records: Seq<ReleaseView>, limit: u64)
    ensures
        forall|k: int|
            0 <= k < latest_below(records, limit).len() ==> {
                &&& (#[trigger] latest_below(records, limit)[k]).version.minor < limit
                &&& exists|i: int|
                    is_latest_of_line(records, i) && records[i] == latest_below(records, limit)[k]
            },
        forall|a: int, b: int|
            0 <= a < b < latest_below(records, limit).len() ==> (#[trigger] latest_below(
                records,
                limit,
            )[a]).version.minor < (#[trigger] latest_below(records, limit)[b]).version.minor,
        forall|m: u64|
            m < limit && #[trigger] line_is_present(records, m) ==> exists|k: int|
                0 <= k < latest_below(records, limit).len() && (#[trigger] latest_below(
                    records,
                    limit,
                )[k]).version.minor == m,
    decreases limit,
{
    reveal(Seq::filter);
    if limit == 0 {
        assert(minor_lines(0) =~= Seq::empty());
        assert(latest_below(records, 0) =~= Seq::empty());
    } else {
        let m = (limit - 1) as u64;
        lemma_latest_below(records, m);
        let lines = minor_lines(m);
        let before = latest_below(records, m);
        let now = latest_below(records, limit);
        assert(minor_lines(limit) =~= lines.push(m));
        lines.lemma_filter_push(m, present_in(records));
        if line_is_present(records, m) {
            lemma_latest_exists(records, m);
            let i = choose|i: int| is_latest_of(records, m, i);
            assert(now =~= before.push(records[i]));
            assert(now[now.len() - 1] == records[i]);
            assert forall|k: int| 0 <= k < now.len() implies {
                &&& (#[trigger] now[k]).version.minor < limit
                &&& exists|i: int| is_latest_of_line(records, i) && records[i] == now[k]
            } by {
                if k < before.len() {
                    assert(now[k] == before[k]);
                }
            }
            assert forall|a: int, b: int| 0 <= a < b < now.len() implies (#[trigger] now[a]).version.minor
                < (#[trigger] now[b]).version.minor by {
                assert(now[a] == before[a]);
                if b < before.len() {
                    assert(now[b] == before[b]);
                }
            }
            assert forall|w: u64| w < limit && #[trigger] line_is_present(records, w) implies exists|
                k: int,
            |
                0 <= k < now.len() && (#[trigger] now[k]).version.minor == w by {
                if w < m {
                    let k = choose|k: int|
                        0 <= k < before.len() && (#[trigger] before[k]).version.minor == w;
                    assert(now[k] == before[k]);
                } else {
                    assert(now[now.len() - 1].version.minor == w);
                }
            }
        } else {
            assert(now =~= before);
        }
    }
}

/// Every record of the selection is the latest of its minor line: it is one
/// of the records, none of its line has a greater patch number, and none that
/// comes after it has the same.
pub proof fn lemma_selected_is_latest(records: Seq<ReleaseView>, k: int)
    requires
        0 <= k < latest_records(records).len(),
    ensures
        exists|i: int| is_latest_of_line(records, i) && records[i] == latest_records(records)[k],
{
    lemma_latest_below(records, VERSION_LIMIT);
    assert(latest_below(records, VERSION_LIMIT)[k].version.minor < VERSION_LIMIT);
}

/// The patch number of a record of the selection is at least that of every
/// record of the same minor line.
pub proof fn lemma_selection_is_monotonic(records: Seq<ReleaseView>, k: int, j: int)
    requires
        0 <= k < latest_records(records).len(),
        0 <= j < records.len(),
        records[j].version.minor == latest_records(records)[k].version.minor,
    ensures
        records[j].version.patch <= latest_records(records)[k].version.patch,
{
    lemma_selected_is_latest(records, k);
    let i = choose|i: int| is_latest_of_line(records, i) && records[i] == latest_records(records)[k];
    assert(records[j].version.patch <= records[i].version.patch);
}

/// The minor numbers of the selection ascend strictly, so no two of its
/// records belong to the same minor line.
pub proof fn lemma_selection_has_one_per_line(records: Seq<ReleaseView>, a: int, b: int)
    requires
        0 <= a < b < latest_records(records).len(),
    ensures
        latest_records(records)[a].version.minor < latest_records(records)[b].version.minor,
{
    lemma_latest_below(records, VERSION_LIMIT);
}

/// Every minor line below the limit that is present has its record in the
/// selection.
pub proof fn lemma_every_line_is_selected(records: Seq<ReleaseView>, j: int)
    requires
        0 <= j < records.len(),
        records[j].version.minor < VERSION_LIMIT,
    ensures
        line_is_present(latest_records(records), records[j].version.minor),
{
    lemma_latest_below(records, VERSION_LIMIT);
    let selected = latest_below(records, VERSION_LIMIT);
    assert(line_is_present(records, records[j].version.minor));
    let k = choose|k: int|
        0 <= k < selected.len() && (#[trigger] selected[k]).version.minor
            == records[j].version.minor;
    assert(latest_records(records)[k].version.minor == records[j].version.minor);
}

/// Finds the latest record of minor line `minor`, if the line is present.
fn find_latest(versions: &Vec<Release>, minor: u64) -> (found: Option<usize>)
    ensures
        found.is_some() == line_is_present(views(versions@), minor),
        found.is_some() ==> is_latest_of(views(versions@), minor, found.unwrap() as int),
{
    let ghost records = views(versions@);
    let mut best: Option<usize> = None;
    let mut i: usize = 0;
    while i < versions.len()
        invariant
            i <= versions.len(),
            records == views(versions@),
            match best {
                None => forall|j: int| 0 <= j < i ==> (#[trigger] records[j]).version.minor != minor,
                Some(b) => {
                    &&& b < i
                    &&& records[b as int].version.minor == minor
                    &&& forall|j: int|
                        0 <= j < i && (#[trigger] records[j]).version.minor == minor
                            ==> records[j].version.patch <= records[b as int].version.patch
                    &&& forall|j: int|
                        b < j < i && (#[trigger] records[j]).version.minor == minor
                            ==> records[j].version.patch < records[b as int].version.patch
                },
            },
        decreases versions.len() - i,
    {
        if versions[i].version.minor == minor {
            let replace = match best {
                None => true,
                Some(b) => versions[b].version.patch <= versions[i].version.patch,
            };
            if replace {
                best = Some(i);
            }
        }
        i += 1;
    }
    best
}

/// Selects the latest release of every minor version line.
///
/// The records must be valid ones. Of each minor line that is present the
/// record with the greatest patch number is taken, and of several with that
/// number the one that comes last. The result is in ascending order of the
/// minor number.
pub fn latest_versions(versions: Vec<Release>) -> (latest: Vec<Release>)
    requires
        all_valid(views(versions@)),
    ensures
        views(latest@) == latest_records(views(versions@)),
        forall|a: int, b: int|
            0 <= a < b < latest.len() ==> (#[trigger] latest[a]).version.minor
                < (#[trigger] latest[b]).version.minor,
        forall|k: int, j: int|
            0 <= k < latest.len() && 0 <= j < versions.len() && (#[trigger] versions[j]).version.minor
                == (#[trigger] latest[k]).version.minor ==> versions[j].version.patch
                <= latest[k].version.patch,
        forall|j: int|
            0 <= j < versions.len() ==> line_is_present(
                views(latest@),
                (#[trigger] versions[j]).version.minor,
            ),
{
    let ghost records = views(versions@);
    let mut latest: Vec<Release> = Vec::new();
    let mut minor: u64 = 0;
    proof {
        reveal(Seq::filter);
        assert(minor_lines(0) =~= Seq::empty());
        assert(views(latest@) =~= Seq::empty());
    }
    while minor < VERSION_LIMIT
        invariant
            minor <= VERSION_LIMIT,
            records == views(versions@),
            views(latest@) == minor_lines(minor).filter(present_in(records)).map_values(
                latest_in(records),
            ),
        decreases VERSION_LIMIT - minor,
    {
        let found = find_latest(&versions, minor);
        proof {
            let lines = minor_lines(minor);
            assert(minor_lines((minor + 1) as u64) =~= lines.push(minor));
            lines.lemma_filter_push(minor, present_in(records));
        }
        match found {
            Some(at) => {
                let record = versions[at].clone();
                proof {
                    let chosen = choose|i: int| is_latest_of(records, minor, i);
                    lemma_latest_is_unique(records, minor, at as int, chosen);
                    assert(record@ == latest_of_line(records, minor));
                    let kept = minor_lines(minor).filter(present_in(records));
                    assert(kept.push(minor).map_values(latest_in(records)) =~= kept.map_values(
                        latest_in(records),
                    ).push(record@));
                    assert(views(latest@.push(record)) =~= views(latest@).push(record@));
                }
                latest.push(record);
            },
            None => {},
        }
        minor += 1;
    }
    proof {
        let selected = latest_records(records);
        assert forall|a: int, b: int| 0 <= a < b < latest.len() implies (#[trigger] latest[a]).version.minor
            < (#[trigger] latest[b]).version.minor by {
            lemma_selection_has_one_per_line(records, a, b);
            assert(selected[a] == latest[a]@ && selected[b] == latest[b]@);
        }
        assert forall|k: int, j: int|
            0 <= k < latest.len() && 0 <= j < versions.len() && (#[trigger] versions[j]).version.minor
                == (#[trigger] latest[k]).version.minor implies versions[j].version.patch
            <= latest[k].version.patch by {
            assert(selected[k] == latest[k]@ && records[j] == versions[j]@);
            lemma_selection_is_monotonic(records, k, j);
        }
        assert forall|j: int| 0 <= j < versions.len() implies line_is_present(
            selected,
            (#[trigger] versions[j]).version.minor,
        ) by {
            assert(records[j] == versions[j]@ && records[j].is_valid());
            lemma_every_line_is_selected(records, j);
        }
    }
    latest
}

/// The selection that the rows of an index give, the header first: an error
/// where no header can be had, else the latest of the valid records of every
/// minor line.
pub open spec fn latest_of_feed(rows: Seq<Option<Seq<Seq<char>>>>) -> Result<
    Seq<ReleaseView>,
    ParseError,
> {
    match valid_feed_records(rows) {
        Ok(records) => Ok(latest_records(records)),
        Err(e) => Err(e),
    }
}

/// Reads an index from its text and selects the latest valid release of
/// every minor version line. This fails only where the text holds no row, or
/// the header lacks one of the three columns.
pub fn latest_from_feed(csv: &str) -> (r: Result<Vec<Release>, ParseError>)
    ensures
        outcome_view(r) == latest_of_feed(csv_records(FIELD_DELIMITER, csv@)),
        r.is_ok() == (csv_records(FIELD_DELIMITER, csv@).len() > 0 && header_error(
            csv_records(FIELD_DELIMITER, csv@)[0],
        ).is_none()),
{
    match parse_data(csv) {
        Ok(records) => Ok(latest_versions(records)),
        Err(e) => Err(e),
    }
}

} // verus!
