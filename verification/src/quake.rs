//! The earthquake record shared by every source, and the error type of the API.

use vstd::prelude::*;
use crate::decimal::{Decimal, DecimalView};
use crate::text::{chars_of, lemma_rfind_matches, matches_at, rfind, rfind_exec, rfind_upto, slice, string_of};

verus! {

/// One earthquake: when (seconds since the Unix epoch, UTC), where, how strong,
/// how deep (km), the place it was reported at, and the page that reports it.
#[derive(Debug)]
pub struct Quake {
    datetime: i64,
    longitude: Decimal,
    latitude: Decimal,
    magnitude: Decimal,
    depth: u16,
    location: String,
    province: String,
    url: String,
}

/// What a `Quake` holds, as plain values.
pub struct QuakeView {
    pub datetime: i64,
    pub longitude: DecimalView,
    pub latitude: DecimalView,
    pub magnitude: DecimalView,
    pub depth: u16,
    pub location: Seq<char>,
    pub province: Seq<char>,
    pub url: Seq<char>,
}

impl View for Quake {
    type V = QuakeView;

    closed spec fn view(&self) -> QuakeView {
        QuakeView {
            datetime: self.datetime,
            longitude: self.longitude@,
            latitude: self.latitude@,
            magnitude: self.magnitude@,
            depth: self.depth,
            location: self.location@,
            province: self.province@,
            url: self.url@,
        }
    }
}

impl Quake {
    pub fn new(
        datetime: i64,
        longitude: Decimal,
        latitude: Decimal,
        magnitude: Decimal,
        depth: u16,
        location: String,
        province: String,
        url: String,
    ) -> (q: Quake)
        ensures
            q@ == (QuakeView {
                datetime,
                longitude: longitude@,
                latitude: latitude@,
                magnitude: magnitude@,
                depth,
                location: location@,
                province: province@,
                url: url@,
            }),
    {
        Quake { datetime, longitude, latitude, magnitude, depth, location, province, url }
    }

    pub fn get_datetime(&self) -> (r: i64)
        ensures
            r == self@.datetime,
    {
        self.datetime
    }

    pub fn get_longitude(&self) -> (r: Decimal)
        ensures
            r@ == self@.longitude,
    {
        self.longitude.clone()
    }

    pub fn get_latitude(&self) -> (r: Decimal)
        ensures
            r@ == self@.latitude,
    {
        self.latitude.clone()
    }

    pub fn get_magnitude(&self) -> (r: Decimal)
        ensures
            r@ == self@.magnitude,
    {
        self.magnitude.clone()
    }

    pub fn get_depth(&self) -> (r: u16)
        ensures
            r == self@.depth,
    {
        self.depth
    }

    pub fn get_location(&self) -> (r: String)
        ensures
            r@ == self@.location,
    {
        self.location.clone()
    }

    pub fn get_province(&self) -> (r: String)
        ensures
            r@ == self@.province,
    {
        self.province.clone()
    }

    pub fn get_url(&self) -> (r: String)
        ensures
            r@ == self@.url,
    {
        self.url.clone()
    }

    /// Whether `self` and `other` hold the same values.
    pub fn same_as(&self, other: &Quake) -> (b: bool)
        ensures
            b == (self@ == other@),
    {
        self.datetime == other.datetime && self.longitude.same_value(&other.longitude)
            && self.latitude.same_value(&other.latitude) && self.magnitude.same_value(&other.magnitude)
            && self.depth == other.depth
            && self.location == other.location && self.province == other.province && self.url
            == other.url
    }
}

impl Clone for Quake {
    fn clone(&self) -> (r: Self)
        ensures
            r@ == self@,
    {
        Quake {
            datetime: self.datetime,
            longitude: self.longitude.clone(),
            latitude: self.latitude.clone(),
            magnitude: self.magnitude.clone(),
            depth: self.depth,
            location: self.location.clone(),
            province: self.province.clone(),
            url: self.url.clone(),
        }
    }
}

/// The views of a list of quakes.
pub open spec fn quake_views(qs: Seq<Quake>) -> Seq<QuakeView> {
    qs.map_values(|q: Quake| q@)
}

/// A list of quakes as the server hands it out.
#[derive(Debug)]
pub struct QuakeList {
    quakes: Vec<Quake>,
}

impl Clone for QuakeList {
    fn clone(&self) -> (r: Self)
        ensures
            r.spec_quakes() == self.spec_quakes(),
    {
        QuakeList { quakes: self.get_quakes() }
    }
}

impl QuakeList {
    pub closed spec fn spec_quakes(&self) -> Seq<QuakeView> {
        quake_views(self.quakes@)
    }

    pub fn new(quakes: Vec<Quake>) -> (l: QuakeList)
        ensures
            l.spec_quakes() == quake_views(quakes@),
    {
        QuakeList { quakes }
    }

    pub fn get_quakes(&self) -> (r: Vec<Quake>)
        ensures
            quake_views(r@) == self.spec_quakes(),
    {
        let r = self.quakes.clone();
        proof {
            assert(quake_views(r@) =~= quake_views(self.quakes@)) by {
                assert forall|i: int| 0 <= i < r@.len() implies r@[i]@ == self.quakes@[i]@ by {
                    assert(vstd::pervasive::cloned(self.quakes[i], r[i]));
                }
            }
        }
        r
    }

    pub fn len(&self) -> (n: usize)
        ensures
            n == self.spec_quakes().len(),
    {
        self.quakes.len()
    }
}

/// A text whose last `'('` can be split off without cutting a character:
/// it does not open the text, it is not the last character, the character
/// before it and the last character are both one byte long.
pub open spec fn province_ok(t: Seq<char>) -> bool {
    match rfind(t, seq!['(']) {
        Some(p) => 1 <= p && p + 2 <= t.len() && (t[p - 1] as u32) < 128 && (t.last() as u32) < 128,
        None => true,
    }
}

/// A report's place split into the location and the province given in its
/// last parentheses, `"10km N of Town (Province)"` giving `("10km N of Town", "Province")`.
/// Without parentheses, the whole text and an empty province.
pub open spec fn spec_find_province(t: Seq<char>) -> (Seq<char>, Seq<char>) {
    match rfind(t, seq!['(']) {
        Some(p) => (t.subrange(0, p - 1), t.subrange(p + 1, t.len() - 1)),
        None => (t, Seq::<char>::empty()),
    }
}

pub fn province_ok_exec(text: &str) -> (b: bool)
    ensures
        b == province_ok(text@),
{
    let t = chars_of(text);
    let open: Vec<char> = vec!['('];
    proof {
        assert(open@ =~= seq!['(']);
    }
    let n = t.len();
    match rfind_exec(&t, &open) {
        Some(p) => {
            proof {
                lemma_rfind_matches(t@, open@, t@.len() - 1);
            }
            1 <= p && p + 1 < n && (t[p - 1] as u32) < 128 && (t[n - 1] as u32) < 128
        },
        None => true,
    }
}

/// The location and the province of a report's place (see `spec_find_province`).
pub fn find_province(text: String) -> (r: (String, String))
    requires
        province_ok(text@),
    ensures
        (r.0@, r.1@) == spec_find_province(text@),
{
    let t = chars_of(text.as_str());
    let open: Vec<char> = vec!['('];
    proof {
        assert(open@ =~= seq!['(']);
    }
    match rfind_exec(&t, &open) {
        Some(p) => {
            let n = t.len();
            let province = slice(&t, p + 1, n - 1);
            let location = slice(&t, 0, p - 1);
            (string_of(&location), string_of(&province))
        },
        None => (text, String::new()),
    }
}

/// The description of a field that could not be read as a `target`.
pub open spec fn trouble(value: Seq<char>, target: Seq<char>, detail: Seq<char>) -> Seq<char> {
    "Trouble converting "@ + value + " to "@ + target + ": "@ + detail
}

pub fn trouble_text(value: &str, target: &str, detail: &str) -> (r: String)
    ensures
        r@ == trouble(value@, target@, detail@),
{
    let mut r = String::from_str("Trouble converting ");
    r.append(value);
    r.append(" to ");
    r.append(target);
    r.append(": ");
    r.append(detail);
    r
}

/// The error of the quake API: a description of what went wrong.
#[derive(Clone, Debug)]
pub struct QuakeError {
    description: String,
}

impl QuakeError {
    pub closed spec fn spec_description(&self) -> Seq<char> {
        self.description@
    }

    pub fn new(description: String) -> (e: QuakeError)
        ensures
            e.spec_description() == description@,
    {
        QuakeError { description }
    }

    pub fn description(&self) -> (d: &str)
        ensures
            d@ == self.spec_description(),
    {
        self.description.as_str()
    }

    /// The text the error shows: `"Quake error: "` and the description.
    pub fn message(&self) -> (m: String)
        ensures
            m@ == "Quake error: "@ + self.spec_description(),
    {
        let mut m = String::from_str("Quake error: ");
        m.append(self.description.as_str());
        m
    }

    /// The error for a failed read or write, given the text of the I/O error.
    pub fn from_io_error(error_text: String) -> (e: QuakeError)
        ensures
            e.spec_description() == "IO error occurred! "@ + error_text@,
    {
        let mut d = String::from_str("IO error occurred! ");
        d.append(error_text.as_str());
        QuakeError { description: d }
    }
}

proof fn lemma_rfind_upto_at(s: Seq<char>, p: Seq<char>, j: int, k: int)
    requires
        0 <= j <= k,
        matches_at(s, p, j),
        forall|i: int| j < i <= k ==> !matches_at(s, p, i),
    ensures
        rfind_upto(s, p, k) == Some(j),
    decreases k - j,
{
    if k > j {
        lemma_rfind_upto_at(s, p, j, k - 1);
    }
}

/// A place written `LOCATION (PROVINCE)`, with no `(` in the province, is
/// split back into the location and the province, without a failure.
pub proof fn lemma_find_province_round_trip(location: Seq<char>, province: Seq<char>)
    requires
        forall|i: int| 0 <= i < province.len() ==> province[i] != '(',
    ensures
        province_ok(location + " ("@ + province + ")"@),
        spec_find_province(location + " ("@ + province + ")"@) == (location, province),
{
    reveal_strlit(" (");
    reveal_strlit(")");
    let t = location + " ("@ + province + ")"@;
    let j: int = location.len() as int + 1;
    assert(t.len() == location.len() + province.len() + 3);
    assert(t[j - 1] == ' ');
    assert(t[j] == '(');
    assert(t.last() == ')');
    assert(matches_at(t, seq!['('], j)) by {
        assert(t.subrange(j, j + 1) =~= seq!['(']);
    }
    assert forall|i: int| j < i <= t.len() - 1 implies !matches_at(t, seq!['('], i) by {
        if i < t.len() - 1 {
            assert(t[i] == province[i - j - 1]);
        }
        assert(t.subrange(i, i + 1)[0] == t[i]);
    }
    lemma_rfind_upto_at(t, seq!['('], j, t.len() - 1);
    assert(t.subrange(0, j - 1) =~= location);
    assert(t.subrange(j + 1, t.len() - 1) =~= province);
}

} // verus!
