//! One release of a distribution and its lifecycle on a given day.
use crate::date::Date;
use vstd::prelude::*;

verus! {

/// `pat` stands somewhere in `s` as a run of consecutive characters.
pub open spec fn contains_seq(s: Seq<char>, pat: Seq<char>) -> bool {
    exists|i: int| 0 <= i <= s.len() - pat.len() && #[trigger] s.subrange(i, i + pat.len()) == pat
}

/// Relies on std's `str::contains` with a `&str` pattern: true exactly when
/// `pat` matches a sub-slice of `s`.
#[verifier::external_body]
fn str_contains(s: &str, pat: &str) -> (r: bool)
    ensures
        r == contains_seq(s@, pat@),
{
    s.contains(pat)
}

/// `bound` is set and `date` is that day or later.
pub open spec fn reached(bound: Option<Date>, date: Date) -> bool {
    match bound {
        Some(b) => b.spec_le(date),
        None => false,
    }
}

/// `date` is `bound` or earlier, where `bound` is set.
pub open spec fn not_past(date: Date, bound: Option<Date>) -> bool {
    match bound {
        Some(b) => date.spec_le(b),
        None => false,
    }
}

fn exec_reached(bound: &Option<Date>, date: &Date) -> (r: bool)
    ensures
        r == reached(*bound, *date),
{
    match bound {
        Some(b) => b.le(date),
        None => false,
    }
}

/// A release of a distribution: its names and the days of its lifecycle.
pub struct DistroRelease {
    version: String,
    codename: String,
    series: String,
    created: Option<Date>,
    release: Option<Date>,
    eol: Option<Date>,
    eol_server: Option<Date>,
}

impl DistroRelease {
    pub closed spec fn spec_version(self) -> Seq<char> {
        self.version@
    }

    pub closed spec fn spec_codename(self) -> Seq<char> {
        self.codename@
    }

    pub closed spec fn spec_series(self) -> Seq<char> {
        self.series@
    }

    pub closed spec fn spec_created(self) -> Option<Date> {
        self.created
    }

    pub closed spec fn spec_release(self) -> Option<Date> {
        self.release
    }

    pub closed spec fn spec_eol(self) -> Option<Date> {
        self.eol
    }

    pub closed spec fn spec_eol_server(self) -> Option<Date> {
        self.eol_server
    }

    /// The version label holds the long-term-support marker.
    pub open spec fn spec_is_lts(self) -> bool {
        contains_seq(self.spec_version(), "LTS"@)
    }

    /// Work on the release had begun by `date`.
    pub open spec fn spec_created_at(self, date: Date) -> bool {
        reached(self.spec_created(), date)
    }

    /// The release was out by `date`; it stays released after its end of life.
    pub open spec fn spec_released_at(self, date: Date) -> bool {
        reached(self.spec_release(), date)
    }

    /// The release was created by `date` and `date` lies within its support,
    /// which ends at the later of the two ends of life. A release without an
    /// end of life is never supported.
    pub open spec fn spec_supported_at(self, date: Date) -> bool {
        &&& self.spec_created_at(date)
        &&& self.spec_eol() is Some
        &&& (not_past(date, self.spec_eol()) || not_past(date, self.spec_eol_server()))
    }

    /// Work on the release had begun by `date` and its release day is set
    /// and still to come. A release without a release day is never in
    /// development.
    pub open spec fn spec_in_development_at(self, date: Date) -> bool {
        &&& self.spec_created_at(date)
        &&& self.spec_release() is Some
        &&& !self.spec_released_at(date)
    }

    pub fn new(
        version: String,
        codename: String,
        series: String,
        created: Option<Date>,
        release: Option<Date>,
        eol: Option<Date>,
        eol_server: Option<Date>,
    ) -> (r: Self)
        ensures
            r.spec_version() == version@,
            r.spec_codename() == codename@,
            r.spec_series() == series@,
            r.spec_created() == created,
            r.spec_release() == release,
            r.spec_eol() == eol,
            r.spec_eol_server() == eol_server,
    {
        DistroRelease { version, codename, series, created, release, eol, eol_server }
    }

    pub fn version(&self) -> (r: &String)
        ensures
            r@ == self.spec_version(),
    {
        &self.version
    }

    pub fn codename(&self) -> (r: &String)
        ensures
            r@ == self.spec_codename(),
    {
        &self.codename
    }

    pub fn series(&self) -> (r: &String)
        ensures
            r@ == self.spec_series(),
    {
        &self.series
    }

    pub fn created(&self) -> (r: &Option<Date>)
        ensures
            *r == self.spec_created(),
    {
        &self.created
    }

    pub fn release(&self) -> (r: &Option<Date>)
        ensures
            *r == self.spec_release(),
    {
        &self.release
    }

    pub fn eol(&self) -> (r: &Option<Date>)
        ensures
            *r == self.spec_eol(),
    {
        &self.eol
    }

    pub fn eol_server(&self) -> (r: &Option<Date>)
        ensures
            *r == self.spec_eol_server(),
    {
        &self.eol_server
    }

    pub fn is_lts(&self) -> (r: bool)
        ensures
            r == self.spec_is_lts(),
    {
        str_contains(self.version.as_str(), "LTS")
    }

    pub fn created_at(&self, date: Date) -> (r: bool)
        ensures
            r == self.spec_created_at(date),
    {
        exec_reached(&self.created, &date)
    }

    pub fn released_at(&self, date: Date) -> (r: bool)
        ensures
            r == self.spec_released_at(date),
    {
        exec_reached(&self.release, &date)
    }

    pub fn supported_at(&self, date: Date) -> (r: bool)
        ensures
            r == self.spec_supported_at(date),
    {
        if !self.created_at(date) {
            return false;
        }
        match (&self.eol, &self.eol_server) {
            (Some(eol), Some(eol_server)) => {
                let end = if eol.le(eol_server) { eol_server } else { eol };
                date.le(end)
            },
            (Some(eol), None) => date.le(eol),
            (None, _) => false,
        }
    }

    pub fn has_series(&self, series: &String) -> (r: bool)
        ensures
            r == (self.spec_series() == series@),
    {
        self.series == *series
    }

    pub fn in_development_at(&self, date: Date) -> (r: bool)
        ensures
            r == self.spec_in_development_at(date),
    {
        self.created_at(date) && self.release.is_some() && !self.released_at(date)
    }
}

/// Once released, a release stays released on every later day.
pub proof fn lemma_released_at_monotonic(r: DistroRelease, d1: Date, d2: Date)
    requires
        d1.spec_le(d2),
        r.spec_released_at(d1),
    ensures
        r.spec_released_at(d2),
{
}

/// Where both ends of life are set and the extended one is not earlier, a
/// release that was created by its extended end of life is still supported on
/// that day: the extended track extends support.
pub proof fn lemma_supported_until_extended_eol(r: DistroRelease, eol: Date, eol_server: Date)
    requires
        r.spec_eol() == Some(eol),
        r.spec_eol_server() == Some(eol_server),
        eol.spec_le(eol_server),
        r.spec_created_at(eol_server),
    ensures
        r.spec_supported_at(eol_server),
{
}

} // verus!
