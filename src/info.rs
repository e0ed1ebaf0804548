//! Tables of releases, loaded from distro-info CSV text, and the queries on them.
use crate::date::{parsed_ymd, Date};
use crate::release::DistroRelease;
use vstd::prelude::*;
use vstd::std_specs::iter::IteratorSpec;

verus! {

/// csv's `Error`, which the reader hands back and the loader turns into
/// `LoadError::Csv`.
#[verifier::external_type_specification]
#[verifier::external_body]
pub struct ExCsvError(csv::Error);

/// The records that csv's reader yields for `text`, each as the list of its
/// fields, or `None` where it reports an error.
pub uninterp spec fn csv_records_of(text: Seq<char>) -> Option<Seq<Seq<Seq<char>>>>;

/// Relies on csv's `ReaderBuilder::new().flexible(true)` reading `text`: with
/// the builder's defaults the first row is a header and is not yielded, and
/// rows may differ in length. What it yields depends on the text alone.
#[verifier::external_body]
fn read_csv_records(text: &str) -> (r: Result<Vec<Vec<String>>, csv::Error>)
    ensures
        r is Err <==> csv_records_of(text@) is None,
        r matches Ok(rows) ==> csv_records_of(text@) == Some(rows.deep_view()),
{
    let mut rdr = csv::ReaderBuilder::new().flexible(true).from_reader(text.as_bytes());
    rdr.records().map(|rec| rec.map(|rec| rec.iter().map(|f| f.to_string()).collect())).collect()
}

/// Why a table could not be loaded. Rows are counted from 0 among the rows
/// that follow the header; fields are counted from 0 in the order version,
/// codename, series, created, release, eol, eol-server.
#[derive(Clone, Copy, Debug, PartialEq, Eq, Structural)]
pub enum LoadError {
    /// The text is not readable as CSV.
    Csv,
    /// A row lacks one of version, codename or series, or has it empty.
    MissingField { row: usize, field: usize },
    /// A date column of a row holds text that is no `YYYY-MM-DD` day.
    BadDate { row: usize, field: usize },
}

/// Number of the columns that a row is read from.
pub const N_FIELDS: usize = 7;

/// Number of the leading columns that must be present and non-empty.
pub const N_REQUIRED: usize = 3;

/// Field `i` of `row` is set: present and not empty.
pub open spec fn field_set(row: Seq<Seq<char>>, i: int) -> bool {
    i < row.len() && row[i].len() > 0
}

/// Field `i` of `row` is acceptable: a required field is set, and a date
/// field is unset or holds a day.
pub open spec fn field_ok(row: Seq<Seq<char>>, i: int) -> bool {
    if i < N_REQUIRED {
        field_set(row, i)
    } else {
        !field_set(row, i) || parsed_ymd(row[i]) is Some
    }
}

pub open spec fn row_ok(row: Seq<Seq<char>>) -> bool {
    forall|i: int| 0 <= i < N_FIELDS ==> #[trigger] field_ok(row, i)
}

pub open spec fn rows_ok(rows: Seq<Seq<Seq<char>>>) -> bool {
    forall|k: int| 0 <= k < rows.len() ==> #[trigger] row_ok(rows[k])
}

/// The day that date field `i` of `row` holds, if it is set.
pub open spec fn date_field(row: Seq<Seq<char>>, i: int) -> Option<(int, int, int)> {
    if field_set(row, i) {
        parsed_ymd(row[i])
    } else {
        None
    }
}

pub open spec fn opt_ymd(d: Option<Date>) -> Option<(int, int, int)> {
    match d {
        Some(x) => Some(x@),
        None => None,
    }
}

/// `r` holds what `row` says.
pub open spec fn release_of_row(r: DistroRelease, row: Seq<Seq<char>>) -> bool {
    &&& r.spec_version() == row[0]
    &&& r.spec_codename() == row[1]
    &&& r.spec_series() == row[2]
    &&& opt_ymd(r.spec_created()) == date_field(row, 3)
    &&& opt_ymd(r.spec_release()) == date_field(row, 4)
    &&& opt_ymd(r.spec_eol()) == date_field(row, 5)
    &&& opt_ymd(r.spec_eol_server()) == date_field(row, 6)
}

/// `releases` holds the rows in their order, one release for each.
pub open spec fn loaded_from(releases: Seq<DistroRelease>, rows: Seq<Seq<Seq<char>>>) -> bool {
    &&& releases.len() == rows.len()
    &&& forall|k: int| 0 <= k < rows.len() ==> release_of_row(#[trigger] releases[k], rows[k])
}

/// Field `i` is the first field of `row` that is not acceptable.
pub open spec fn first_bad_field(row: Seq<Seq<char>>, i: int) -> bool {
    &&& 0 <= i < N_FIELDS
    &&& !field_ok(row, i)
    &&& forall|j: int| 0 <= j < i ==> #[trigger] field_ok(row, j)
}

/// `e` reports field `i` of row `k`.
pub open spec fn reports(e: LoadError, k: int, i: int) -> bool {
    match e {
        LoadError::MissingField { row, field } => row == k && field == i && i < N_REQUIRED,
        LoadError::BadDate { row, field } => row == k && field == i && i >= N_REQUIRED,
        LoadError::Csv => false,
    }
}

/// `e` reports the first fault of `rows`: the first bad field of the first
/// bad row.
pub open spec fn reports_first_fault(e: LoadError, rows: Seq<Seq<Seq<char>>>) -> bool {
    exists|k: int, i: int|
        {
            &&& 0 <= k < rows.len()
            &&& forall|j: int| 0 <= j < k ==> #[trigger] row_ok(rows[j])
            &&& first_bad_field(rows[k], i)
            &&& #[trigger] reports(e, k, i)
        }
}

fn required_field(row: &Vec<String>, k: usize, i: usize) -> (r: Result<String, LoadError>)
    requires
        i < N_REQUIRED,
    ensures
        r is Ok <==> field_set(row.deep_view(), i as int),
        r matches Ok(s) ==> s@ == row.deep_view()[i as int],
        r matches Err(e) ==> reports(e, k as int, i as int),
{
    if i < row.len() && !row[i].as_str().is_empty() {
        Ok(row[i].clone())
    } else {
        Err(LoadError::MissingField { row: k, field: i })
    }
}

fn date_field_of(row: &Vec<String>, k: usize, i: usize) -> (r: Result<Option<Date>, LoadError>)
    requires
        N_REQUIRED <= i < N_FIELDS,
    ensures
        r is Ok <==> field_ok(row.deep_view(), i as int),
        r matches Ok(d) ==> opt_ymd(d) == date_field(row.deep_view(), i as int),
        r matches Err(e) ==> reports(e, k as int, i as int),
{
    if i < row.len() && !row[i].as_str().is_empty() {
        match Date::parse(row[i].as_str()) {
            Some(d) => Ok(Some(d)),
            None => Err(LoadError::BadDate { row: k, field: i }),
        }
    } else {
        Ok(None)
    }
}

/// The release that row `k` describes, or the first fault of the row.
fn release_from_row(row: &Vec<String>, k: usize) -> (r: Result<DistroRelease, LoadError>)
    ensures
        r is Ok <==> row_ok(row.deep_view()),
        r matches Ok(x) ==> release_of_row(x, row.deep_view()),
        r matches Err(e) ==> exists|i: int|
            first_bad_field(row.deep_view(), i) && #[trigger] reports(e, k as int, i),
{
    let ghost rv = row.deep_view();
    let version = match required_field(row, k, 0) {
        Ok(s) => s,
        Err(e) => {
            assert(first_bad_field(rv, 0));
            return Err(e);
        },
    };
    let codename = match required_field(row, k, 1) {
        Ok(s) => s,
        Err(e) => {
            assert(first_bad_field(rv, 1));
            return Err(e);
        },
    };
    let series = match required_field(row, k, 2) {
        Ok(s) => s,
        Err(e) => {
            assert(first_bad_field(rv, 2));
            return Err(e);
        },
    };
    let created = match date_field_of(row, k, 3) {
        Ok(d) => d,
        Err(e) => {
            assert(first_bad_field(rv, 3));
            return Err(e);
        },
    };
    let release = match date_field_of(row, k, 4) {
        Ok(d) => d,
        Err(e) => {
            assert(first_bad_field(rv, 4));
            return Err(e);
        },
    };
    let eol = match date_field_of(row, k, 5) {
        Ok(d) => d,
        Err(e) => {
            assert(first_bad_field(rv, 5));
            return Err(e);
        },
    };
    let eol_server = match date_field_of(row, k, 6) {
        Ok(d) => d,
        Err(e) => {
            assert(first_bad_field(rv, 6));
            return Err(e);
        },
    };
    assert(field_ok(rv, 0) && field_ok(rv, 1) && field_ok(rv, 2) && field_ok(rv, 3));
    assert(field_ok(rv, 4) && field_ok(rv, 5) && field_ok(rv, 6));
    Ok(DistroRelease::new(version, codename, series, created, release, eol, eol_server))
}


pub open spec fn created_in(s: Seq<DistroRelease>, date: Date) -> Seq<DistroRelease> {
    s.filter(|x: DistroRelease| x.spec_created_at(date))
}

pub open spec fn released_in(s: Seq<DistroRelease>, date: Date) -> Seq<DistroRelease> {
    s.filter(|x: DistroRelease| x.spec_released_at(date))
}

pub open spec fn supported_in(s: Seq<DistroRelease>, date: Date) -> Seq<DistroRelease> {
    s.filter(|x: DistroRelease| x.spec_supported_at(date))
}

/// Released by `date` but out of support on it.
pub open spec fn unsupported_in(s: Seq<DistroRelease>, date: Date) -> Seq<DistroRelease> {
    s.filter(|x: DistroRelease| x.spec_released_at(date) && !x.spec_supported_at(date))
}

pub open spec fn devel_in(s: Seq<DistroRelease>, date: Date) -> Seq<DistroRelease> {
    s.filter(|x: DistroRelease| x.spec_in_development_at(date))
}

/// The last element of `s`, if there is one.
pub open spec fn last_of(s: Seq<DistroRelease>) -> Option<DistroRelease> {
    if s.len() == 0 {
        None
    } else {
        Some(s.last())
    }
}

/// Supported and released on `date`.
pub open spec fn current_in(s: Seq<DistroRelease>, date: Date) -> Seq<DistroRelease> {
    s.filter(|x: DistroRelease| x.spec_supported_at(date) && x.spec_released_at(date))
}

/// Created by `date` and marked long-term-support.
pub open spec fn lts_in(s: Seq<DistroRelease>, date: Date) -> Seq<DistroRelease> {
    s.filter(|x: DistroRelease| x.spec_created_at(date) && x.spec_is_lts())
}

pub open spec fn with_series_in(s: Seq<DistroRelease>, series: Seq<char>) -> Seq<DistroRelease> {
    s.filter(|x: DistroRelease| x.spec_series() == series)
}

pub open spec fn deref_opt(o: Option<&DistroRelease>) -> Option<DistroRelease> {
    match o {
        Some(x) => Some(*x),
        None => None,
    }
}

/// An element is kept by a filter exactly when it is in the sequence and
/// meets the predicate.
pub broadcast proof fn lemma_filter_member(
    s: Seq<DistroRelease>,
    p: spec_fn(DistroRelease) -> bool,
    x: DistroRelease,
)
    ensures
        #[trigger] s.filter(p).contains(x) <==> (s.contains(x) && p(x)),
{
    if s.filter(p).contains(x) {
        s.lemma_filter_contains_rev(p, x);
        let i = choose|i: int| 0 <= i < s.filter(p).len() && s.filter(p)[i] == x;
        s.lemma_filter_pred(p, i);
    }
    if s.contains(x) && p(x) {
        let i = choose|i: int| 0 <= i < s.len() && s[i] == x;
        s.lemma_filter_contains(p, i);
    }
}

/// On any day, no release is both unsupported and supported, and the
/// released ones are exactly the unsupported ones together with the supported
/// ones that are released.
pub proof fn lemma_unsupported_supported_partition(s: Seq<DistroRelease>, date: Date)
    ensures
        forall|x: DistroRelease|
            #[trigger] unsupported_in(s, date).contains(x) ==> !supported_in(s, date).contains(x),
        forall|x: DistroRelease|
            #[trigger] released_in(s, date).contains(x) <==> (unsupported_in(s, date).contains(x)
                || (supported_in(s, date).contains(x) && x.spec_released_at(date))),
{
    broadcast use lemma_filter_member;

}

/// A loaded release counts as released on the very day that its row gives as
/// its release day.
pub proof fn lemma_released_on_release_day(
    releases: Seq<DistroRelease>,
    rows: Seq<Seq<Seq<char>>>,
    k: int,
    date: Date,
)
    requires
        loaded_from(releases, rows),
        0 <= k < rows.len(),
        date_field(rows[k], 4) == Some(date@),
    ensures
        released_in(releases, date).contains(releases[k]),
{
    broadcast use lemma_filter_member;

    assert(release_of_row(releases[k], rows[k]));
    assert(releases.contains(releases[k]));
}

/// Loading follows the rows: two tables loaded from the same rows list the
/// same series in the same order, the order of the rows, so walking either
/// visits the rows as the file gives them.
pub proof fn lemma_load_keeps_row_order(
    a: Seq<DistroRelease>,
    b: Seq<DistroRelease>,
    rows: Seq<Seq<Seq<char>>>,
)
    requires
        loaded_from(a, rows),
        loaded_from(b, rows),
    ensures
        a.len() == b.len() == rows.len(),
        forall|k: int|
            0 <= k < rows.len() ==> #[trigger] a[k].spec_series() == rows[k][2]
                && b[k].spec_series() == rows[k][2],
{
    assert forall|k: int| 0 <= k < rows.len() implies #[trigger] a[k].spec_series()
        == rows[k][2] && b[k].spec_series() == rows[k][2] by {
        assert(release_of_row(a[k], rows[k]));
        assert(release_of_row(b[k], rows[k]));
    }
}

/// A table of the releases of one distribution, in the order of its data
/// file, which is the order in which they were released.
pub trait DistroInfo: Sized {
    /// The releases of the table, in order.
    spec fn spec_releases(&self) -> Seq<DistroRelease>;

    /// The distribution's name, as it is shown to people.
    fn distro_name(&self) -> &'static str;

    fn releases(&self) -> (r: &Vec<DistroRelease>)
        ensures
            r@ == self.spec_releases(),
    ;

    /// A table of `releases`, kept in their order.
    fn from_vec(releases: Vec<DistroRelease>) -> (r: Self)
        ensures
            r.spec_releases() == releases@,
    ;

    /// The full path of this distribution's CSV file.
    fn csv_path() -> &'static str;

    /// A table with one release for each row of `rows`, in their order; it
    /// fails on the first row that lacks a required field or holds a date
    /// that cannot be read.
    fn from_records(rows: &Vec<Vec<String>>) -> (r: Result<Self, LoadError>)
        ensures
            r is Ok <==> rows_ok(rows.deep_view()),
            r matches Ok(t) ==> loaded_from(t.spec_releases(), rows.deep_view()),
            r matches Err(e) ==> reports_first_fault(e, rows.deep_view()),
    {
        let ghost rv = rows.deep_view();
        let mut releases: Vec<DistroRelease> = Vec::new();
        let mut k: usize = 0;
        while k < rows.len()
            invariant
                k <= rows@.len(),
                rv == rows.deep_view(),
                releases@.len() == k,
                forall|j: int| 0 <= j < k ==> #[trigger] row_ok(rv[j]),
                forall|j: int| 0 <= j < k ==> release_of_row(#[trigger] releases@[j], rv[j]),
            decreases rows@.len() - k,
        {
            assert(rows[k as int].deep_view() == rv[k as int]);
            match release_from_row(&rows[k], k) {
                Ok(x) => releases.push(x),
                Err(e) => {
                    return Err(e);
                },
            }
            k += 1;
        }
        Ok(Self::from_vec(releases))
    }

    /// The table that CSV text in the distro-info format describes: a header
    /// row, then one row per release.
    fn from_csv_reader(text: &str) -> (r: Result<Self, LoadError>)
        ensures
            csv_records_of(text@) is None ==> r == Err::<Self, LoadError>(LoadError::Csv),
            csv_records_of(text@) matches Some(rows) ==> {
                &&& r is Ok <==> rows_ok(rows)
                &&& r matches Ok(t) ==> loaded_from(t.spec_releases(), rows)
                &&& r matches Err(e) ==> reports_first_fault(e, rows)
            },
    {
        match read_csv_records(text) {
            Ok(rows) => Self::from_records(&rows),
            Err(_) => Err(LoadError::Csv),
        }
    }

    /// The releases whose work had begun by `date`.
    fn all_at(&self, date: Date) -> (r: Vec<&DistroRelease>)
        ensures
            r@.unref() == created_in(self.spec_releases(), date),
    {
        let rels = self.releases();
        let mut res: Vec<&DistroRelease> = Vec::new();
        let mut i: usize = 0;
        while i < rels.len()
            invariant
                i <= rels@.len(),
                rels@ == self.spec_releases(),
                res@.unref() == created_in(rels@.subrange(0, i as int), date),
            decreases rels@.len() - i,
        {
            let ghost old_res = res@;
            let x = &rels[i];
            if x.created_at(date) {
                res.push(x);
            }
            proof {
                assert(rels@.subrange(0, i + 1).drop_last() == rels@.subrange(0, i as int));
                assert(res@.unref() =~= old_res.unref().push(rels@[i as int]) || res@ == old_res);
                reveal(Seq::filter);
            }
            i += 1;
        }
        proof {
            assert(rels@.subrange(0, rels@.len() as int) == rels@);
        }
        res
    }

    /// The releases that were out by `date`.
    fn released(&self, date: Date) -> (r: Vec<&DistroRelease>)
        ensures
            r@.unref() == released_in(self.spec_releases(), date),
    {
        let rels = self.releases();
        let mut res: Vec<&DistroRelease> = Vec::new();
        let mut i: usize = 0;
        while i < rels.len()
            invariant
                i <= rels@.len(),
                rels@ == self.spec_releases(),
                res@.unref() == released_in(rels@.subrange(0, i as int), date),
            decreases rels@.len() - i,
        {
            let ghost old_res = res@;
            let x = &rels[i];
            if x.released_at(date) {
                res.push(x);
            }
            proof {
                assert(rels@.subrange(0, i + 1).drop_last() == rels@.subrange(0, i as int));
                assert(res@.unref() =~= old_res.unref().push(rels@[i as int]) || res@ == old_res);
                reveal(Seq::filter);
            }
            i += 1;
        }
        proof {
            assert(rels@.subrange(0, rels@.len() as int) == rels@);
        }
        res
    }

    /// The releases that were supported on `date`.
    fn supported(&self, date: Date) -> (r: Vec<&DistroRelease>)
        ensures
            r@.unref() == supported_in(self.spec_releases(), date),
    {
        let rels = self.releases();
        let mut res: Vec<&DistroRelease> = Vec::new();
        let mut i: usize = 0;
        while i < rels.len()
            invariant
                i <= rels@.len(),
                rels@ == self.spec_releases(),
                res@.unref() == supported_in(rels@.subrange(0, i as int), date),
            decreases rels@.len() - i,
        {
            let ghost old_res = res@;
            let x = &rels[i];
            if x.supported_at(date) {
                res.push(x);
            }
            proof {
                assert(rels@.subrange(0, i + 1).drop_last() == rels@.subrange(0, i as int));
                assert(res@.unref() =~= old_res.unref().push(rels@[i as int]) || res@ == old_res);
                reveal(Seq::filter);
            }
            i += 1;
        }
        proof {
            assert(rels@.subrange(0, rels@.len() as int) == rels@);
        }
        res
    }

    /// The releases that were out by `date` but no longer supported on it.
    fn unsupported(&self, date: Date) -> (r: Vec<&DistroRelease>)
        ensures
            r@.unref() == unsupported_in(self.spec_releases(), date),
    {
        let rels = self.releases();
        let mut res: Vec<&DistroRelease> = Vec::new();
        let mut i: usize = 0;
        while i < rels.len()
            invariant
                i <= rels@.len(),
                rels@ == self.spec_releases(),
                res@.unref() == unsupported_in(rels@.subrange(0, i as int), date),
            decreases rels@.len() - i,
        {
            let ghost old_res = res@;
            let x = &rels[i];
            if x.released_at(date) && !x.supported_at(date) {
                res.push(x);
            }
            proof {
                assert(rels@.subrange(0, i + 1).drop_last() == rels@.subrange(0, i as int));
                assert(res@.unref() =~= old_res.unref().push(rels@[i as int]) || res@ == old_res);
                reveal(Seq::filter);
            }
            i += 1;
        }
        proof {
            assert(rels@.subrange(0, rels@.len() as int) == rels@);
        }
        res
    }

    /// The releases that were in development on `date`.
    fn devel(&self, date: Date) -> (r: Vec<&DistroRelease>)
        ensures
            r@.unref() == devel_in(self.spec_releases(), date),
    {
        let rels = self.releases();
        let mut res: Vec<&DistroRelease> = Vec::new();
        let mut i: usize = 0;
        while i < rels.len()
            invariant
                i <= rels@.len(),
                rels@ == self.spec_releases(),
                res@.unref() == devel_in(rels@.subrange(0, i as int), date),
            decreases rels@.len() - i,
        {
            let ghost old_res = res@;
            let x = &rels[i];
            if x.in_development_at(date) {
                res.push(x);
            }
            proof {
                assert(rels@.subrange(0, i + 1).drop_last() == rels@.subrange(0, i as int));
                assert(res@.unref() =~= old_res.unref().push(rels@[i as int]) || res@ == old_res);
                reveal(Seq::filter);
            }
            i += 1;
        }
        proof {
            assert(rels@.subrange(0, rels@.len() as int) == rels@);
        }
        res
    }

    /// The last release that was out and supported on `date`, if any.
    fn latest(&self, date: Date) -> (r: Option<&DistroRelease>)
        ensures
            deref_opt(r) == last_of(current_in(self.spec_releases(), date)),
    {
        let rels = self.releases();
        let mut best: Option<&DistroRelease> = None;
        let mut i: usize = 0;
        while i < rels.len()
            invariant
                i <= rels@.len(),
                rels@ == self.spec_releases(),
                deref_opt(best) == last_of(current_in(rels@.subrange(0, i as int), date)),
            decreases rels@.len() - i,
        {
            let x = &rels[i];
            if x.supported_at(date) && x.released_at(date) {
                best = Some(x);
            }
            proof {
                assert(rels@.subrange(0, i + 1).drop_last() == rels@.subrange(0, i as int));
                reveal(Seq::filter);
            }
            i += 1;
        }
        proof {
            assert(rels@.subrange(0, rels@.len() as int) == rels@);
        }
        best
    }

    /// The last long-term-support release created by `date`, if any.
    fn lts(&self, date: Date) -> (r: Option<&DistroRelease>)
        ensures
            deref_opt(r) == last_of(lts_in(self.spec_releases(), date)),
    {
        let rels = self.releases();
        let mut best: Option<&DistroRelease> = None;
        let mut i: usize = 0;
        while i < rels.len()
            invariant
                i <= rels@.len(),
                rels@ == self.spec_releases(),
                deref_opt(best) == last_of(lts_in(rels@.subrange(0, i as int), date)),
            decreases rels@.len() - i,
        {
            let x = &rels[i];
            if x.created_at(date) && x.is_lts() {
                best = Some(x);
            }
            proof {
                assert(rels@.subrange(0, i + 1).drop_last() == rels@.subrange(0, i as int));
                reveal(Seq::filter);
            }
            i += 1;
        }
        proof {
            assert(rels@.subrange(0, rels@.len() as int) == rels@);
        }
        best
    }

    /// The last release that was supported on `date`, if any.
    fn stable(&self, date: Date) -> (r: Option<&DistroRelease>)
        ensures
            deref_opt(r) == last_of(supported_in(self.spec_releases(), date)),
    {
        let rels = self.releases();
        let mut best: Option<&DistroRelease> = None;
        let mut i: usize = 0;
        while i < rels.len()
            invariant
                i <= rels@.len(),
                rels@ == self.spec_releases(),
                deref_opt(best) == last_of(supported_in(rels@.subrange(0, i as int), date)),
            decreases rels@.len() - i,
        {
            let x = &rels[i];
            if x.supported_at(date) {
                best = Some(x);
            }
            proof {
                assert(rels@.subrange(0, i + 1).drop_last() == rels@.subrange(0, i as int));
                reveal(Seq::filter);
            }
            i += 1;
        }
        proof {
            assert(rels@.subrange(0, rels@.len() as int) == rels@);
        }
        best
    }

    /// The releases whose series is `series`.
    /// The releases in table order, for `for` loops and iterator chains.
    fn iter(&self) -> (r: std::slice::Iter<'_, DistroRelease>)
        ensures
            r.remaining().unref() == self.spec_releases(),
    {
        let r = self.releases().as_slice().iter();
        proof {
            assert(r.remaining().unref() =~= self.spec_releases());
        }
        r
    }

    fn with_series(&self, series: &String) -> (r: Vec<&DistroRelease>)
        ensures
            r@.unref() == with_series_in(self.spec_releases(), series@),
    {
        let rels = self.releases();
        let mut res: Vec<&DistroRelease> = Vec::new();
        let mut i: usize = 0;
        while i < rels.len()
            invariant
                i <= rels@.len(),
                rels@ == self.spec_releases(),
                res@.unref() == with_series_in(rels@.subrange(0, i as int), series@),
            decreases rels@.len() - i,
        {
            let ghost old_res = res@;
            let x = &rels[i];
            if x.has_series(series) {
                res.push(x);
            }
            proof {
                assert(rels@.subrange(0, i + 1).drop_last() == rels@.subrange(0, i as int));
                assert(res@.unref() =~= old_res.unref().push(rels@[i as int]) || res@ == old_res);
                reveal(Seq::filter);
            }
            i += 1;
        }
        proof {
            assert(rels@.subrange(0, rels@.len() as int) == rels@);
        }
        res
    }
}

/// Where distro-info-data installs the Ubuntu table.
pub const UBUNTU_CSV_PATH: &'static str = "/usr/share/distro-info/ubuntu.csv";

/// Where distro-info-data installs the Debian table.
pub const DEBIAN_CSV_PATH: &'static str = "/usr/share/distro-info/debian.csv";

/// The releases of Ubuntu.
pub struct UbuntuDistroInfo {
    releases: Vec<DistroRelease>,
}

impl DistroInfo for UbuntuDistroInfo {
    closed spec fn spec_releases(&self) -> Seq<DistroRelease> {
        self.releases@
    }

    fn distro_name(&self) -> (r: &'static str)
        ensures
            r@ == "Ubuntu"@,
    {
        "Ubuntu"
    }

    fn releases(&self) -> &Vec<DistroRelease> {
        &self.releases
    }

    fn from_vec(releases: Vec<DistroRelease>) -> Self {
        UbuntuDistroInfo { releases }
    }

    fn csv_path() -> (r: &'static str)
        ensures
            r@ == UBUNTU_CSV_PATH@,
    {
        UBUNTU_CSV_PATH
    }
}

impl IntoIterator for UbuntuDistroInfo {
    type Item = DistroRelease;

    type IntoIter = std::vec::IntoIter<DistroRelease>;

    fn into_iter(self) -> (r: std::vec::IntoIter<DistroRelease>)
        ensures
            r.remaining() == self.spec_releases(),
    {
        self.releases.into_iter()
    }
}

/// The releases of Debian.
pub struct DebianDistroInfo {
    releases: Vec<DistroRelease>,
}

impl DistroInfo for DebianDistroInfo {
    closed spec fn spec_releases(&self) -> Seq<DistroRelease> {
        self.releases@
    }

    fn distro_name(&self) -> (r: &'static str)
        ensures
            r@ == "Debian"@,
    {
        "Debian"
    }

    fn releases(&self) -> &Vec<DistroRelease> {
        &self.releases
    }

    fn from_vec(releases: Vec<DistroRelease>) -> Self {
        DebianDistroInfo { releases }
    }

    fn csv_path() -> (r: &'static str)
        ensures
            r@ == DEBIAN_CSV_PATH@,
    {
        DEBIAN_CSV_PATH
    }
}

impl IntoIterator for DebianDistroInfo {
    type Item = DistroRelease;

    type IntoIter = std::vec::IntoIter<DistroRelease>;

    fn into_iter(self) -> (r: std::vec::IntoIter<DistroRelease>)
        ensures
            r.remaining() == self.spec_releases(),
    {
        self.releases.into_iter()
    }
}

} // verus!
