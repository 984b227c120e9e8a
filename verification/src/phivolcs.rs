//! The PHIVOLCS bulletin as a source: which pages to fetch, how much of a
//! response to read, how a response becomes text, and how the quakes of the
//! current and the previous month are merged into one chronological list.

use vstd::prelude::*;
use crate::datetime::{calendar_date, chrono_date_label, chrono_weeks_before, date_label, days_in_month, weeks_before};
use crate::number::{parse_unsigned, parse_usize};
use crate::quake::{Quake, QuakeView, quake_views};

verus! {

/// The error of the bulletin scraper: a description of what went wrong.
#[derive(Clone, Debug)]
pub struct ScraperError {
    description: String,
}

impl ScraperError {
    pub closed spec fn spec_description(&self) -> Seq<char> {
        self.description@
    }

    pub fn new(description: String) -> (e: ScraperError)
        ensures
            e.spec_description() == description@,
    {
        ScraperError { description }
    }

    pub fn description(&self) -> (d: &str)
        ensures
            d@ == self.spec_description(),
    {
        self.description.as_str()
    }

    /// The text the error shows: `"Scraper error: "` and the description.
    pub fn message(&self) -> (m: String)
        ensures
            m@ == "Scraper error: "@ + self.spec_description(),
    {
        let mut m = String::from_str("Scraper error: ");
        m.append(self.description.as_str());
        m
    }

    /// The error for a failed read or write, given the text of the I/O error.
    pub fn from_io_error(error_text: &str) -> (e: ScraperError)
        ensures
            e.spec_description() == "IO error in Scraper: "@ + error_text@,
    {
        let mut d = String::from_str("IO error in Scraper: ");
        d.append(error_text);
        ScraperError { description: d }
    }

    /// The error for a response body that could not be read, given the error's text.
    pub fn from_payload_error(error_text: &str) -> (e: ScraperError)
        ensures
            e.spec_description() == "Scraper payload error: "@ + error_text@,
    {
        let mut d = String::from_str("Scraper payload error: ");
        d.append(error_text);
        ScraperError { description: d }
    }

    /// The error for a request that could not be sent, given the error's text.
    pub fn from_send_error(error_text: &str) -> (e: ScraperError)
        ensures
            e.spec_description() == "Scraper send error: "@ + error_text@,
    {
        let mut d = String::from_str("Scraper send error: ");
        d.append(error_text);
        ScraperError { description: d }
    }

    /// The error for a response that is not UTF-8, given the decoding error's text.
    pub fn from_utf8_error(error_text: &str) -> (e: ScraperError)
        ensures
            e.spec_description() == "Scraper decoding error: "@ + error_text@,
    {
        let mut d = String::from_str("Scraper decoding error: ");
        d.append(error_text);
        ScraperError { description: d }
    }
}

pub open spec fn spec_phivolcs_url() -> Seq<char> {
    "https://earthquake.phivolcs.dost.gov.ph/"@
}

/// The bulletin of the current month.
pub fn phivolcs_url() -> (u: String)
    ensures
        u@ == spec_phivolcs_url(),
{
    String::from_str("https://earthquake.phivolcs.dost.gov.ph/")
}

/// How the monthly pages are named: the year, `_` and the month's name.
pub open spec fn page_name_format() -> Seq<char> {
    "%Y_%B"@
}

/// The page of the previous month, read in month `month`, given the month
/// of the date four weeks back and the label that date is named by: fetched
/// only where that month is an earlier one of the year (so not in January).
pub open spec fn spec_previous_month_page(month: int, horizon_month: int, label: Option<Seq<char>>) -> Option<Seq<char>> {
    if horizon_month < month {
        match label {
            Some(l) => Some(spec_phivolcs_url() + l + ".html"@),
            None => None,
        }
    } else {
        None
    }
}

/// The page of the previous month, read on `year`-`month`-`day`: the date
/// four weeks back decides whether it is fetched, and names it.
pub open spec fn spec_previous_month_url(year: int, month: int, day: int) -> Option<Seq<char>> {
    match chrono_weeks_before(year, month, day, 4) {
        Some((hy, hm, hd)) => spec_previous_month_page(month, hm, chrono_date_label(hy, hm, hd, page_name_format())),
        None => None,
    }
}

/// The page of the previous month to fetch in month `month`, given the month
/// of the date four weeks back and that date's label (see `spec_previous_month_page`).
pub fn previous_month_page(month: u32, horizon_month: u32, label: Option<String>) -> (r: Option<String>)
    ensures
        match r {
            Some(u) => spec_previous_month_page(month as int, horizon_month as int, opt_label(label)) == Some(u@),
            None => spec_previous_month_page(month as int, horizon_month as int, opt_label(label)) is None,
        },
{
    if horizon_month < month {
        match label {
            Some(l) => {
                let mut u = phivolcs_url();
                u.append(l.as_str());
                u.append(".html");
                Some(u)
            },
            None => None,
        }
    } else {
        None
    }
}

pub open spec fn opt_label(label: Option<String>) -> Option<Seq<char>> {
    match label {
        Some(l) => Some(l@),
        None => None,
    }
}

/// The page of the previous month to fetch on `year`-`month`-`day`, if any.
/// The horizon is four weeks: from February on, on the days 1 to 28 of a
/// month the date 28 days back lies in the month before, whose page is
/// fetched, named after that date; on the later days of a month it lies in
/// the same month, and no page is fetched.
pub fn previous_month_url(year: i32, month: u32, day: u32) -> (r: Option<String>)
    ensures
        match r {
            Some(u) => spec_previous_month_url(year as int, month as int, day as int) == Some(u@),
            None => spec_previous_month_url(year as int, month as int, day as int) is None,
        },
        calendar_date(year as int, month as int, day as int) && 2 <= month && day <= 28 ==> opt_label(r) == (
        match chrono_date_label(
            year as int,
            month - 1,
            days_in_month(year as int, month - 1) - (28 - day),
            page_name_format(),
        ) {
            Some(l) => Some(spec_phivolcs_url() + l + ".html"@),
            None => None::<Seq<char>>,
        }),
        calendar_date(year as int, month as int, day as int) && day > 28 ==> r is None,
{
    match weeks_before(year, month, day, 4) {
        Some((hy, hm, hd)) => {
            let label = date_label(hy, hm, hd, "%Y_%B");
            previous_month_page(month, hm, label)
        },
        None => None,
    }
}

pub open spec fn default_body_limit() -> nat {
    4_000_000
}

/// How many bytes of a response to read: its `content-length` where that
/// header is present and holds a `usize`, else 4 000 000.
pub open spec fn spec_body_limit(content_length: Option<Seq<char>>) -> nat {
    match content_length {
        Some(h) => match parse_unsigned(h, usize::MAX as nat) {
            Ok(n) => n,
            Err(_) => default_body_limit(),
        },
        None => default_body_limit(),
    }
}

pub fn body_limit(content_length: Option<&str>) -> (n: usize)
    ensures
        n as nat == spec_body_limit(
            match content_length {
                Some(h) => Some(h@),
                None => None,
            },
        ),
{
    match content_length {
        Some(h) => match parse_usize(h) {
            Ok(n) => n,
            Err(_) => 4_000_000,
        },
        None => 4_000_000,
    }
}

/// What `std::str::from_utf8` reports for bytes that are not UTF-8: the text of its `Utf8Error`.
pub uninterp spec fn std_utf8_error_text(bytes: Seq<u8>) -> Seq<char>;

/// Calls `std::str::from_utf8`. As its documentation says, it succeeds
/// exactly on valid UTF-8 and then gives the characters the bytes encode;
/// the text of the error is named.
#[verifier::external_body]
fn utf8_decode(bytes: &[u8]) -> (r: Result<String, String>)
    ensures
        match r {
            Ok(s) => vstd::utf8::valid_utf8(bytes@) && s@ == vstd::utf8::decode_utf8(bytes@),
            Err(e) => !vstd::utf8::valid_utf8(bytes@) && e@ == std_utf8_error_text(bytes@),
        },
{
    match std::str::from_utf8(bytes) {
        Ok(s) => Ok(s.to_string()),
        Err(e) => Err(e.to_string()),
    }
}

/// A response body as text; an error where it is not UTF-8.
pub fn decode_body(bytes: &[u8]) -> (r: Result<String, ScraperError>)
    ensures
        match r {
            Ok(s) => vstd::utf8::valid_utf8(bytes@) && s@ == vstd::utf8::decode_utf8(bytes@),
            Err(e) => !vstd::utf8::valid_utf8(bytes@) && e.spec_description()
                == "Scraper decoding error: "@ + std_utf8_error_text(bytes@),
        },
{
    match utf8_decode(bytes) {
        Ok(s) => Ok(s),
        Err(t) => Err(ScraperError::from_utf8_error(t.as_str())),
    }
}

/// `q` occurs in `qs`.
pub open spec fn has_quake(qs: Seq<QuakeView>, q: QuakeView) -> bool {
    exists|i: int| 0 <= i < qs.len() && qs[i] == q
}

/// No quake occurs twice in `qs`.
pub open spec fn distinct(qs: Seq<QuakeView>) -> bool {
    forall|i: int, j: int| 0 <= i < j < qs.len() ==> qs[i] != qs[j]
}

/// `qs` is in chronological order.
pub open spec fn chronological(qs: Seq<QuakeView>) -> bool {
    forall|i: int, j: int| 0 <= i <= j < qs.len() ==> qs[i].datetime <= qs[j].datetime
}

/// Whether `q` occurs in `qs`.
pub fn contains_quake(qs: &Vec<Quake>, q: &Quake) -> (b: bool)
    ensures
        b == has_quake(quake_views(qs@), q@),
{
    let mut i: usize = 0;
    while i < qs.len()
        invariant
            i <= qs.len(),
            forall|k: int| 0 <= k < i ==> qs@[k]@ != q@,
        decreases qs.len() - i,
    {
        if qs[i].same_as(q) {
            proof {
                assert(quake_views(qs@)[i as int] == q@);
            }
            return true;
        }
        i = i + 1;
    }
    proof {
        assert forall|k: int| 0 <= k < qs@.len() implies quake_views(qs@)[k] != q@ by {
            assert(quake_views(qs@)[k] == qs@[k]@);
        }
    }
    false
}

/// Puts `q` into the chronological list `qs`, after every quake that is not
/// later than it; gives the place it went to.
fn insert_chronological(qs: &mut Vec<Quake>, q: Quake) -> (pos: usize)
    requires
        chronological(quake_views(old(qs)@)),
    ensures
        pos <= old(qs)@.len(),
        quake_views(final(qs)@) == quake_views(old(qs)@).insert(pos as int, q@),
        chronological(quake_views(final(qs)@)),
{
    let ghost before = quake_views(qs@);
    let t = q.get_datetime();
    let mut pos: usize = 0;
    while pos < qs.len() && qs[pos].get_datetime() <= t
        invariant
            pos <= qs.len(),
            before == quake_views(qs@),
            chronological(before),
            forall|k: int| 0 <= k < pos ==> before[k].datetime <= t,
        decreases qs.len() - pos,
    {
        pos = pos + 1;
    }
    let ghost qv = q@;
    qs.insert(pos, q);
    proof {
        let after = quake_views(qs@);
        assert(after =~= before.insert(pos as int, qv));
        assert forall|i: int, j: int| 0 <= i <= j < after.len() implies after[i].datetime
            <= after[j].datetime by {
            if pos < before.len() {
                assert(before[pos as int].datetime > t);
            }
        }
    }
    pos
}

/// Occurrence in a list with one quake inserted.
proof fn lemma_has_after_insert(before: Seq<QuakeView>, pos: int, q: QuakeView, x: QuakeView)
    requires
        0 <= pos <= before.len(),
    ensures
        has_quake(before.insert(pos, q), x) <==> (has_quake(before, x) || x == q),
{
    let after = before.insert(pos, q);
    if has_quake(after, x) {
        let i = choose|i: int| 0 <= i < after.len() && after[i] == x;
        if i < pos {
            assert(before[i] == x);
        } else if i > pos {
            assert(before[i - 1] == x);
        }
    }
    if has_quake(before, x) {
        let i = choose|i: int| 0 <= i < before.len() && before[i] == x;
        if i < pos {
            assert(after[i] == x);
        } else {
            assert(after[i + 1] == x);
        }
    }
    if x == q {
        assert(after[pos] == x);
    }
}

/// Inserting a quake that is absent from a list of distinct quakes keeps them distinct.
proof fn lemma_distinct_after_insert(before: Seq<QuakeView>, pos: int, q: QuakeView)
    requires
        0 <= pos <= before.len(),
        distinct(before),
        !has_quake(before, q),
    ensures
        distinct(before.insert(pos, q)),
{
    let after = before.insert(pos, q);
    assert forall|a: int, b: int| 0 <= a < b < after.len() implies after[a] != after[b] by {
        if a == pos {
            assert(after[b] == before[b - 1]);
        } else if b == pos {
            assert(after[a] == before[a]);
        } else {
            let a0 = if a < pos { a } else { a - 1 };
            let b0 = if b < pos { b } else { b - 1 };
            assert(after[a] == before[a0]);
            assert(after[b] == before[b0]);
        }
    }
}

/// The quakes of the current month and of the previous month as one list:
/// each distinct quake once, in chronological order.
pub fn merge_quakes(current: Vec<Quake>, history: Vec<Quake>) -> (r: Vec<Quake>)
    ensures
        distinct(quake_views(r@)),
        chronological(quake_views(r@)),
        forall|x: QuakeView| has_quake(quake_views(r@), x) <==> has_quake(
            quake_views(current@ + history@),
            x,
        ),
{
    let mut all = current;
    let mut more = history;
    let ghost input = all@ + more@;
    all.append(&mut more);
    let mut r: Vec<Quake> = Vec::new();
    let mut i: usize = 0;
    while i < all.len()
        invariant
            i <= all.len(),
            all@ == input,
            distinct(quake_views(r@)),
            chronological(quake_views(r@)),
            forall|x: QuakeView| has_quake(quake_views(r@), x) <==> has_quake(
                quake_views(all@.subrange(0, i as int)),
                x,
            ),
        decreases all.len() - i,
    {
        let q = all[i].clone();
        let ghost prefix = quake_views(all@.subrange(0, i as int));
        let ghost next = quake_views(all@.subrange(0, i + 1));
        proof {
            assert(next =~= prefix.insert(i as int, q@));
            assert forall|x: QuakeView| has_quake(next, x) <==> (has_quake(prefix, x) || x == q@) by {
                lemma_has_after_insert(prefix, i as int, q@, x);
            }
        }
        let ghost qv = q@;
        let ghost before = quake_views(r@);
        let found = contains_quake(&r, &q);
        if !found {
            let pos = insert_chronological(&mut r, q);
            proof {
                lemma_distinct_after_insert(before, pos as int, qv);
                assert forall|x: QuakeView| has_quake(quake_views(r@), x) <==> (has_quake(before, x) || x == qv) by {
                    lemma_has_after_insert(before, pos as int, qv, x);
                }
            }
        }
        proof {
            assert forall|x: QuakeView| has_quake(quake_views(r@), x) <==> has_quake(next, x) by {
                assert(has_quake(before, x) <==> has_quake(prefix, x));
                assert(has_quake(next, x) <==> (has_quake(prefix, x) || x == qv));
                if found {
                    assert(quake_views(r@) == before);
                    assert(has_quake(before, qv));
                } else {
                    assert(has_quake(quake_views(r@), x) <==> (has_quake(before, x) || x == qv));
                }
            }
        }
        i = i + 1;
    }
    proof {
        assert(all@.subrange(0, all@.len() as int) =~= all@);
    }
    r
}

} // verus!
