//! The PHIVOLCS "Earthquake Information" tweets read into quakes.
//!
//! A tweet's text is read line by line (a line break is a `'\n'`, or a
//! backslash followed by `n` as an escaped text writes it): `Date and Time: `,
//! `Magnitude = `, `Depth = ... kilometers` and
//! `Location = LAT, LNG - PLACE (PROVINCE)` give the fields of the quake; a
//! later line overrides an earlier one.

use vstd::prelude::*;
use crate::fields::{datetime_field, decimal_field, depth_field, opt_str, spec_datetime_field, spec_decimal_field, spec_depth_field, spec_text_field, text_field};
use crate::decimal::{Decimal, DecimalView};
use crate::quake::{Quake, QuakeView, find_province, province_ok, quake_views, spec_find_province};
use crate::text::{chars_of, contains, contains_exec, ends_with_escaped_break, lemma_lines_concat, lines, matches_at_exec, replace_all, replace_all_exec, rfind, rfind_exec, slice, split2, split2_exec, starts_with, string_of, trim, trim_chars};
use crate::twitter::TwitterError;
use crate::twitter_client::{Tweet, TweetView, last_url};

verus! {

/// The fields read from a tweet's text, each absent until a line gives it.
#[derive(Debug)]
pub struct TweetFields {
    pub datetime: Option<String>,
    pub magnitude: Option<String>,
    pub depth: Option<String>,
    pub longitude: Option<String>,
    pub latitude: Option<String>,
    pub location: Option<String>,
    pub province: Option<String>,
}

pub struct FieldsView {
    pub datetime: Option<Seq<char>>,
    pub magnitude: Option<Seq<char>>,
    pub depth: Option<Seq<char>>,
    pub longitude: Option<Seq<char>>,
    pub latitude: Option<Seq<char>>,
    pub location: Option<Seq<char>>,
    pub province: Option<Seq<char>>,
}

impl View for TweetFields {
    type V = FieldsView;

    open spec fn view(&self) -> FieldsView {
        FieldsView {
            datetime: opt_str(self.datetime),
            magnitude: opt_str(self.magnitude),
            depth: opt_str(self.depth),
            longitude: opt_str(self.longitude),
            latitude: opt_str(self.latitude),
            location: opt_str(self.location),
            province: opt_str(self.province),
        }
    }
}

pub open spec fn empty_fields() -> FieldsView {
    FieldsView {
        datetime: None,
        magnitude: None,
        depth: None,
        longitude: None,
        latitude: None,
        location: None,
        province: None,
    }
}

impl TweetFields {
    pub fn new() -> (f: TweetFields)
        ensures
            f@ == empty_fields(),
    {
        TweetFields {
            datetime: None,
            magnitude: None,
            depth: None,
            longitude: None,
            latitude: None,
            location: None,
            province: None,
        }
    }
}

/// The rest of `line` after `prefix`, trimmed, where `line` starts with
/// `prefix` and is longer than it.
pub open spec fn capture(line: Seq<char>, prefix: Seq<char>) -> Option<Seq<char>> {
    if line.len() > prefix.len() && starts_with(line, prefix) {
        Some(trim(line.subrange(prefix.len() as int, line.len() as int)))
    } else {
        None
    }
}

/// Latitude and longitude of `"06.44N, 125.22E"`: each part without its last
/// character (`("06.44", "125.22")`); two empty texts unless the text has
/// exactly two parts around `", "`.
pub open spec fn latlng(text: Seq<char>) -> (Seq<char>, Seq<char>) {
    match split2(text, ", "@) {
        Some((a, b)) => (a.drop_last(), b.drop_last()),
        None => (Seq::<char>::empty(), Seq::<char>::empty()),
    }
}

/// A coordinate text whose parts can each lose their last character without
/// cutting one: both are non-empty and end in a one-byte character.
pub open spec fn latlng_ok(text: Seq<char>) -> bool {
    match split2(text, ", "@) {
        Some((a, b)) => a.len() > 0 && (a.last() as u32) < 128 && b.len() > 0 && (b.last() as u32) < 128,
        None => true,
    }
}

/// The fields after reading one line of a tweet.
pub open spec fn spec_apply_line(f: FieldsView, line: Seq<char>) -> FieldsView {
    let f1 = match capture(line, "Date and Time: "@) {
        Some(d) => FieldsView { datetime: Some(d + " +08"@), ..f },
        None => f,
    };
    let f2 = match capture(line, "Magnitude = "@) {
        Some(m) => FieldsView { magnitude: Some(m), ..f1 },
        None => f1,
    };
    let f3 = match capture(line, "Depth = "@) {
        Some(d) => match rfind(d, " kilometers"@) {
            Some(p) => FieldsView { depth: Some(d.subrange(0, p)), ..f2 },
            None => f2,
        },
        None => f2,
    };
    match capture(line, "Location = "@) {
        Some(l) => match split2(l, " - "@) {
            Some((coords, place)) => {
                let (latitude, longitude) = latlng(coords);
                let (location, province) = spec_find_province(place);
                FieldsView {
                    longitude: Some(longitude),
                    latitude: Some(latitude),
                    location: Some(location),
                    province: Some(province),
                    ..f3
                }
            },
            None => f3,
        },
        None => f3,
    }
}

/// A line that can be read without a failure: its location, if it has one,
/// can be cut into coordinates and a place.
pub open spec fn line_ok(line: Seq<char>) -> bool {
    match capture(line, "Location = "@) {
        Some(l) => match split2(l, " - "@) {
            Some((coords, place)) => latlng_ok(coords) && province_ok(place),
            None => true,
        },
        None => true,
    }
}

/// The fields after reading the lines in order.
pub open spec fn fields_of_lines(ls: Seq<Seq<char>>) -> FieldsView
    decreases ls.len(),
{
    if ls.len() == 0 {
        empty_fields()
    } else {
        spec_apply_line(fields_of_lines(ls.drop_last()), ls.last())
    }
}

/// The fields of `g` where it has them, and those of `f` elsewhere.
pub open spec fn override_fields(f: FieldsView, g: FieldsView) -> FieldsView {
    FieldsView {
        datetime: if g.datetime is Some { g.datetime } else { f.datetime },
        magnitude: if g.magnitude is Some { g.magnitude } else { f.magnitude },
        depth: if g.depth is Some { g.depth } else { f.depth },
        longitude: if g.longitude is Some { g.longitude } else { f.longitude },
        latitude: if g.latitude is Some { g.latitude } else { f.latitude },
        location: if g.location is Some { g.location } else { f.location },
        province: if g.province is Some { g.province } else { f.province },
    }
}

proof fn lemma_apply_line_override(f: FieldsView, g: FieldsView, line: Seq<char>)
    ensures
        spec_apply_line(override_fields(f, g), line) == override_fields(f, spec_apply_line(g, line)),
{
}

proof fn lemma_fields_of_lines_concat(l1: Seq<Seq<char>>, l2: Seq<Seq<char>>)
    ensures
        fields_of_lines(l1 + l2) == override_fields(fields_of_lines(l1), fields_of_lines(l2)),
    decreases l2.len(),
{
    if l2.len() == 0 {
        assert(l1 + l2 =~= l1);
    } else {
        assert((l1 + l2).drop_last() =~= l1 + l2.drop_last());
        assert((l1 + l2).last() == l2.last());
        lemma_fields_of_lines_concat(l1, l2.drop_last());
        lemma_apply_line_override(fields_of_lines(l1), fields_of_lines(l2.drop_last()), l2.last());
    }
}

/// The fields of a tweet's text.
pub open spec fn spec_parse_text(text: Seq<char>) -> FieldsView {
    fields_of_lines(lines(text))
}

/// Every line of the text can be read without a failure.
pub open spec fn text_ok(text: Seq<char>) -> bool {
    forall|i: int| 0 <= i < lines(text).len() ==> line_ok(#[trigger] lines(text)[i])
}

pub open spec fn is_quake_tweet(t: TweetView) -> bool {
    contains(t.text, "Earthquake Information"@)
}

/// A tweet that can be read without a failure.
pub open spec fn tweet_ok(t: TweetView) -> bool {
    is_quake_tweet(t) ==> text_ok(t.text)
}

pub open spec fn tweets_ok(ts: Seq<TweetView>) -> bool {
    forall|i: int| 0 <= i < ts.len() ==> tweet_ok(#[trigger] ts[i])
}

pub open spec fn tweet_views(ts: Seq<Tweet>) -> Seq<TweetView> {
    ts.map_values(|t: Tweet| t@)
}

/// A tweet's link, made `https`.
pub open spec fn spec_tweet_url(url: Option<Seq<char>>) -> Result<Seq<char>, Seq<char>> {
    match url {
        Some(u) => Ok(replace_all(u, "http://"@, "https://"@)),
        None => Err("URL not found in tweet!"@),
    }
}

/// The quake a tweet reports, or the description of the first field, in the
/// order date, longitude, latitude, magnitude, depth, location, province,
/// link, that cannot be read.
pub open spec fn quake_of_tweet(t: TweetView) -> Result<QuakeView, Seq<char>> {
    let f = spec_parse_text(t.text);
    match spec_datetime_field(f.datetime, "Date - Time not found in tweet text!"@) {
        Err(e) => Err(e),
        Ok(datetime) => match spec_decimal_field(f.longitude, "Longitude not found in tweet text!"@) {
            Err(e) => Err(e),
            Ok(longitude) => match spec_decimal_field(f.latitude, "Latitude not found in tweet text!"@) {
                Err(e) => Err(e),
                Ok(latitude) => match spec_decimal_field(f.magnitude, "Magnitude not found in tweet text!"@) {
                    Err(e) => Err(e),
                    Ok(magnitude) => match spec_depth_field(f.depth, "Depth not found in tweet text!"@) {
                        Err(e) => Err(e),
                        Ok(depth) => match spec_text_field(f.location, "Location not found in tweet text!"@) {
                            Err(e) => Err(e),
                            Ok(location) => match spec_text_field(f.province, "province not found in tweet text!"@) {
                                Err(e) => Err(e),
                                Ok(province) => match spec_tweet_url(last_url(t.urls)) {
                                    Err(e) => Err(e),
                                    Ok(url) => Ok(QuakeView {
                                        datetime,
                                        longitude,
                                        latitude,
                                        magnitude,
                                        depth,
                                        location,
                                        province,
                                        url,
                                    }),
                                },
                            },
                        },
                    },
                },
            },
        },
    }
}

/// The quakes of the "Earthquake Information" tweets in order (other tweets
/// are passed over), or the description of the first failure.
pub open spec fn quakes_of_tweets(ts: Seq<TweetView>) -> Result<Seq<QuakeView>, Seq<char>>
    decreases ts.len(),
{
    if ts.len() == 0 {
        Ok(Seq::<QuakeView>::empty())
    } else {
        match quakes_of_tweets(ts.drop_last()) {
            Err(e) => Err(e),
            Ok(qs) => if is_quake_tweet(ts.last()) {
                match quake_of_tweet(ts.last()) {
                    Ok(q) => Ok(qs.push(q)),
                    Err(e) => Err(e),
                }
            } else {
                Ok(qs)
            },
        }
    }
}

pub open spec fn lines_view(ls: Seq<Vec<char>>) -> Seq<Seq<char>> {
    ls.map_values(|l: Vec<char>| l@)
}

/// The lines of `s` (see `lines`).
pub fn split_lines(s: &Vec<char>) -> (r: Vec<Vec<char>>)
    ensures
        lines_view(r@) == lines(s@),
{
    let mut done: Vec<Vec<char>> = Vec::new();
    let mut cur: Vec<char> = Vec::new();
    let mut i: usize = 0;
    proof {
        assert(s@.subrange(0, 0).len() == 0);
        assert(lines_view(done@).push(cur@) =~= lines(s@.subrange(0, 0)));
    }
    while i < s.len()
        invariant
            i <= s.len(),
            lines_view(done@).push(cur@) == lines(s@.subrange(0, i as int)),
            0 < i < s.len() && s@[i - 1] == '\\' ==> s@[i as int] != 'n',
        decreases s.len() - i,
    {
        let c = s[i];
        let ghost prev = lines(s@.subrange(0, i as int));
        if c == '\n' {
            proof {
                assert(s@.subrange(0, i + 1).drop_last() =~= s@.subrange(0, i as int));
                assert(s@.subrange(0, i + 1).last() == c);
            }
            let ghost d = lines_view(done@);
            done.push(cur);
            cur = Vec::new();
            proof {
                assert(lines_view(done@) =~= d.push(prev.last()));
                assert(lines_view(done@).push(cur@) =~= prev.push(Seq::<char>::empty()));
            }
            i = i + 1;
        } else if c == '\\' && i + 1 < s.len() && s[i + 1] == 'n' {
            proof {
                let w = s@.subrange(0, i + 2);
                assert(w.last() == 'n');
                assert(w[w.len() - 2] == '\\');
                assert(w.subrange(0, w.len() - 2) =~= s@.subrange(0, i as int));
            }
            let ghost d = lines_view(done@);
            done.push(cur);
            cur = Vec::new();
            proof {
                assert(lines_view(done@) =~= d.push(prev.last()));
                assert(lines_view(done@).push(cur@) =~= prev.push(Seq::<char>::empty()));
            }
            i = i + 2;
        } else {
            proof {
                let w = s@.subrange(0, i + 1);
                assert(w.drop_last() =~= s@.subrange(0, i as int));
                assert(w.last() == c);
                if w.len() >= 2 {
                    assert(w[w.len() - 2] == s@[i - 1]);
                }
                assert(!ends_with_escaped_break(w));
            }
            let ghost old_cur = cur@;
            cur.push(c);
            proof {
                assert(lines_view(done@).push(cur@) =~= prev.update(prev.len() - 1, old_cur.push(c)));
            }
            i = i + 1;
        }
    }
    proof {
        assert(s@.subrange(0, s@.len() as int) =~= s@);
    }
    let ghost d = lines_view(done@);
    done.push(cur);
    proof {
        assert(lines_view(done@) =~= d.push(cur@));
    }
    done
}

/// The rest of `line` after `prefix`, trimmed, where `line` starts with `prefix` and is longer.
fn capture_chars(line: &Vec<char>, prefix: &str) -> (r: Option<Vec<char>>)
    ensures
        match r {
            Some(v) => capture(line@, prefix@) == Some(v@),
            None => capture(line@, prefix@) is None,
        },
{
    let p = chars_of(prefix);
    if line.len() > p.len() && matches_at_exec(line, &p, 0) {
        let rest = slice(line, p.len(), line.len());
        Some(trim_chars(&rest))
    } else {
        None
    }
}

/// Latitude and longitude of a coordinate text (see `latlng`).
fn latlng_chars(text: &Vec<char>) -> (r: (Vec<char>, Vec<char>))
    requires
        latlng_ok(text@),
    ensures
        (r.0@, r.1@) == latlng(text@),
{
    let sep = chars_of(", ");
    match split2_exec(text, &sep) {
        Some((a, b)) => {
            let lat = slice(&a, 0, a.len() - 1);
            let lng = slice(&b, 0, b.len() - 1);
            proof {
                assert(lat@ =~= a@.drop_last());
                assert(lng@ =~= b@.drop_last());
            }
            (lat, lng)
        },
        None => (Vec::new(), Vec::new()),
    }
}

fn latlng_ok_exec(text: &Vec<char>) -> (b: bool)
    ensures
        b == latlng_ok(text@),
{
    let sep = chars_of(", ");
    match split2_exec(text, &sep) {
        Some((a, b)) => a.len() > 0 && (a[a.len() - 1] as u32) < 128 && b.len() > 0 && (b[b.len() - 1] as u32) < 128,
        None => true,
    }
}

/// Whether a line can be read without a failure.
pub fn line_ok_exec(line: &Vec<char>) -> (b: bool)
    ensures
        b == line_ok(line@),
{
    match capture_chars(line, "Location = ") {
        Some(l) => {
            let sep = chars_of(" - ");
            match split2_exec(&l, &sep) {
                Some((coords, place)) => {
                    latlng_ok_exec(&coords) && crate::quake::province_ok_exec(string_of(&place).as_str())
                },
                None => true,
            }
        },
        None => true,
    }
}

/// Reads one line of a tweet into the fields.
pub fn apply_line(f: &mut TweetFields, line: &Vec<char>)
    requires
        line_ok(line@),
    ensures
        final(f)@ == spec_apply_line(old(f)@, line@),
{
    if let Some(d) = capture_chars(line, "Date and Time: ") {
        let mut v = string_of(&d);
        v.append(" +08");
        f.datetime = Some(v);
    }
    if let Some(m) = capture_chars(line, "Magnitude = ") {
        f.magnitude = Some(string_of(&m));
    }
    if let Some(d) = capture_chars(line, "Depth = ") {
        let unit = chars_of(" kilometers");
        if let Some(p) = rfind_exec(&d, &unit) {
            proof {
                crate::text::lemma_rfind_matches(d@, unit@, d@.len() - unit@.len());
            }
            f.depth = Some(string_of(&slice(&d, 0, p)));
        }
    }
    if let Some(l) = capture_chars(line, "Location = ") {
        let sep = chars_of(" - ");
        if let Some((coords, place)) = split2_exec(&l, &sep) {
            let (latitude, longitude) = latlng_chars(&coords);
            let (location, province) = find_province(string_of(&place));
            f.longitude = Some(string_of(&longitude));
            f.latitude = Some(string_of(&latitude));
            f.location = Some(location);
            f.province = Some(province);
        }
    }
}

/// Whether every line of the text can be read without a failure.
pub fn text_ok_exec(text: &str) -> (b: bool)
    ensures
        b == text_ok(text@),
{
    let cs = chars_of(text);
    let ls = split_lines(&cs);
    let mut k: usize = 0;
    while k < ls.len()
        invariant
            k <= ls.len(),
            lines_view(ls@) == lines(text@),
            forall|i: int| 0 <= i < k ==> line_ok(#[trigger] lines(text@)[i]),
        decreases ls.len() - k,
    {
        if !line_ok_exec(&ls[k]) {
            proof {
                assert(lines(text@)[k as int] == ls@[k as int]@);
            }
            return false;
        }
        proof {
            assert(lines(text@)[k as int] == ls@[k as int]@);
        }
        k = k + 1;
    }
    true
}

/// The tweets to read quakes from.
pub struct TweetParser(Vec<Tweet>);

impl TweetParser {
    pub closed spec fn spec_tweets(&self) -> Seq<TweetView> {
        tweet_views(self.0@)
    }

    pub fn new(tweets: Vec<Tweet>) -> (p: TweetParser)
        ensures
            p.spec_tweets() == tweet_views(tweets@),
    {
        TweetParser(tweets)
    }

    /// The rest of `string` after `prefix`, trimmed, where `string` starts with `prefix` and is longer.
    pub fn capture(string: String, prefix: String) -> (r: Option<String>)
        ensures
            match r {
                Some(v) => capture(string@, prefix@) == Some(v@),
                None => capture(string@, prefix@) is None,
            },
    {
        let cs = chars_of(string.as_str());
        match capture_chars(&cs, prefix.as_str()) {
            Some(v) => Some(string_of(&v)),
            None => None,
        }
    }

    /// The location and the province of a place (see `spec_find_province`).
    pub fn find_province(text: String) -> (r: (String, String))
        requires
            province_ok(text@),
        ensures
            (r.0@, r.1@) == spec_find_province(text@),
    {
        find_province(text)
    }

    /// Latitude and longitude of a coordinate text (see `latlng`).
    pub fn find_latlng(text: String) -> (r: (String, String))
        requires
            latlng_ok(text@),
        ensures
            (r.0@, r.1@) == latlng(text@),
    {
        let cs = chars_of(text.as_str());
        let (a, b) = latlng_chars(&cs);
        (string_of(&a), string_of(&b))
    }

    /// The fields of a tweet's text.
    pub fn parse_text(text: String) -> (f: TweetFields)
        requires
            text_ok(text@),
        ensures
            f@ == spec_parse_text(text@),
    {
        let cs = chars_of(text.as_str());
        let ls = split_lines(&cs);
        let mut f = TweetFields::new();
        let mut k: usize = 0;
        while k < ls.len()
            invariant
                k <= ls.len(),
                lines_view(ls@) == lines(text@),
                text_ok(text@),
                f@ == fields_of_lines(lines(text@).subrange(0, k as int)),
            decreases ls.len() - k,
        {
            proof {
                assert(lines(text@)[k as int] == ls@[k as int]@);
                assert(lines(text@).subrange(0, k + 1).drop_last() =~= lines(text@).subrange(0, k as int));
                assert(line_ok(lines(text@)[k as int]));
            }
            apply_line(&mut f, &ls[k]);
            k = k + 1;
        }
        proof {
            assert(lines(text@).subrange(0, ls@.len() as int) =~= lines(text@));
        }
        f
    }

    /// The instant of the `datetime` field, read as `%d %B %Y - %I:%M %p %#z`.
    pub fn get_datetime(f: &TweetFields) -> (r: Result<i64, TwitterError>)
        ensures
            match r {
                Ok(t) => spec_datetime_field(f@.datetime, "Date - Time not found in tweet text!"@) == Ok::<i64, Seq<char>>(t),
                Err(e) => spec_datetime_field(f@.datetime, "Date - Time not found in tweet text!"@) == Err::<i64, Seq<char>>(e.spec_description()),
            },
    {
        match datetime_field(&f.datetime, "Date - Time not found in tweet text!") {
            Ok(v) => Ok(v),
            Err(e) => Err(TwitterError::new(e)),
        }
    }

    pub fn get_longitude(f: &TweetFields) -> (r: Result<Decimal, TwitterError>)
        ensures
            match r {
                Ok(d) => spec_decimal_field(f@.longitude, "Longitude not found in tweet text!"@) == Ok::<DecimalView, Seq<char>>(d@),
                Err(e) => spec_decimal_field(f@.longitude, "Longitude not found in tweet text!"@) == Err::<DecimalView, Seq<char>>(e.spec_description()),
            },
    {
        match decimal_field(&f.longitude, "Longitude not found in tweet text!") {
            Ok(v) => Ok(v),
            Err(e) => Err(TwitterError::new(e)),
        }
    }

    pub fn get_latitude(f: &TweetFields) -> (r: Result<Decimal, TwitterError>)
        ensures
            match r {
                Ok(d) => spec_decimal_field(f@.latitude, "Latitude not found in tweet text!"@) == Ok::<DecimalView, Seq<char>>(d@),
                Err(e) => spec_decimal_field(f@.latitude, "Latitude not found in tweet text!"@) == Err::<DecimalView, Seq<char>>(e.spec_description()),
            },
    {
        match decimal_field(&f.latitude, "Latitude not found in tweet text!") {
            Ok(v) => Ok(v),
            Err(e) => Err(TwitterError::new(e)),
        }
    }

    pub fn get_magnitude(f: &TweetFields) -> (r: Result<Decimal, TwitterError>)
        ensures
            match r {
                Ok(d) => spec_decimal_field(f@.magnitude, "Magnitude not found in tweet text!"@) == Ok::<DecimalView, Seq<char>>(d@),
                Err(e) => spec_decimal_field(f@.magnitude, "Magnitude not found in tweet text!"@) == Err::<DecimalView, Seq<char>>(e.spec_description()),
            },
    {
        match decimal_field(&f.magnitude, "Magnitude not found in tweet text!") {
            Ok(v) => Ok(v),
            Err(e) => Err(TwitterError::new(e)),
        }
    }

    pub fn get_depth(f: &TweetFields) -> (r: Result<u16, TwitterError>)
        ensures
            match r {
                Ok(d) => spec_depth_field(f@.depth, "Depth not found in tweet text!"@) == Ok::<u16, Seq<char>>(d),
                Err(e) => spec_depth_field(f@.depth, "Depth not found in tweet text!"@) == Err::<u16, Seq<char>>(e.spec_description()),
            },
    {
        match depth_field(&f.depth, "Depth not found in tweet text!") {
            Ok(v) => Ok(v),
            Err(e) => Err(TwitterError::new(e)),
        }
    }

    pub fn get_location(f: &TweetFields) -> (r: Result<String, TwitterError>)
        ensures
            match r {
                Ok(s) => spec_text_field(f@.location, "Location not found in tweet text!"@) == Ok::<Seq<char>, Seq<char>>(s@),
                Err(e) => spec_text_field(f@.location, "Location not found in tweet text!"@) == Err::<Seq<char>, Seq<char>>(e.spec_description()),
            },
    {
        match text_field(&f.location, "Location not found in tweet text!") {
            Ok(v) => Ok(v),
            Err(e) => Err(TwitterError::new(e)),
        }
    }

    pub fn get_province(f: &TweetFields) -> (r: Result<String, TwitterError>)
        ensures
            match r {
                Ok(s) => spec_text_field(f@.province, "province not found in tweet text!"@) == Ok::<Seq<char>, Seq<char>>(s@),
                Err(e) => spec_text_field(f@.province, "province not found in tweet text!"@) == Err::<Seq<char>, Seq<char>>(e.spec_description()),
            },
    {
        match text_field(&f.province, "province not found in tweet text!") {
            Ok(v) => Ok(v),
            Err(e) => Err(TwitterError::new(e)),
        }
    }

    /// A tweet's link, made `https`.
    pub fn get_url(text: Option<String>) -> (r: Result<String, TwitterError>)
        ensures
            match r {
                Ok(u) => spec_tweet_url(opt_str(text)) == Ok::<Seq<char>, Seq<char>>(u@),
                Err(e) => spec_tweet_url(opt_str(text)) == Err::<Seq<char>, Seq<char>>(e.spec_description()),
            },
    {
        match text {
            Some(u) => {
                let cs = chars_of(u.as_str());
                let from = chars_of("http://");
                let to = chars_of("https://");
                proof {
                    reveal_strlit("http://");
                }
                Ok(string_of(&replace_all_exec(&cs, &from, &to)))
            },
            None => Err(TwitterError::new(String::from_str("URL not found in tweet!"))),
        }
    }

    /// The quake a tweet reports.
    pub fn quake_from_tweet(tweet: &Tweet) -> (r: Result<Quake, TwitterError>)
        requires
            text_ok(tweet@.text),
        ensures
            match r {
                Ok(q) => quake_of_tweet(tweet@) == Ok::<QuakeView, Seq<char>>(q@),
                Err(e) => quake_of_tweet(tweet@) == Err::<QuakeView, Seq<char>>(e.spec_description()),
            },
    {
        let f = Self::parse_text(tweet.get_text());
        let datetime = Self::get_datetime(&f)?;
        let longitude = Self::get_longitude(&f)?;
        let latitude = Self::get_latitude(&f)?;
        let magnitude = Self::get_magnitude(&f)?;
        let depth = Self::get_depth(&f)?;
        let location = Self::get_location(&f)?;
        let province = Self::get_province(&f)?;
        let url = Self::get_url(tweet.get_url())?;
        Ok(Quake::new(datetime, longitude, latitude, magnitude, depth, location, province, url))
    }

    /// Whether every quake tweet is within what the reading can take apart:
    /// the coordinates of each location line end in one-byte characters, and
    /// its place can be split at its last parenthesis (see `tweets_ok`).
    pub fn can_parse(&self) -> (b: bool)
        ensures
            b == tweets_ok(self.spec_tweets()),
    {
        let marker = chars_of("Earthquake Information");
        let mut i: usize = 0;
        while i < self.0.len()
            invariant
                i <= self.0.len(),
                marker@ == "Earthquake Information"@,
                forall|k: int| 0 <= k < i ==> tweet_ok(#[trigger] self.spec_tweets()[k]),
            decreases self.0.len() - i,
        {
            let text = self.0[i].get_text();
            let cs = chars_of(text.as_str());
            proof {
                assert(self.spec_tweets()[i as int] == self.0@[i as int]@);
            }
            if contains_exec(&cs, &marker) && !text_ok_exec(text.as_str()) {
                return false;
            }
            i = i + 1;
        }
        true
    }

    /// The quakes of the "Earthquake Information" tweets, in order; other
    /// tweets are passed over, and the first tweet that cannot be read gives
    /// the error.
    pub fn get_quakes(&self) -> (r: Result<Vec<Quake>, TwitterError>)
        requires
            tweets_ok(self.spec_tweets()),
        ensures
            match r {
                Ok(qs) => quakes_of_tweets(self.spec_tweets()) == Ok::<Seq<QuakeView>, Seq<char>>(quake_views(qs@)),
                Err(e) => quakes_of_tweets(self.spec_tweets()) == Err::<Seq<QuakeView>, Seq<char>>(e.spec_description()),
            },
    {
        let ghost ts = self.spec_tweets();
        let marker = chars_of("Earthquake Information");
        let mut quakes: Vec<Quake> = Vec::new();
        let mut i: usize = 0;
        proof {
            assert(ts.subrange(0, 0) =~= Seq::<TweetView>::empty());
            assert(quake_views(quakes@) =~= Seq::<QuakeView>::empty());
        }
        while i < self.0.len()
            invariant
                i <= self.0.len(),
                ts == self.spec_tweets(),
                tweets_ok(ts),
                marker@ == "Earthquake Information"@,
                quakes_of_tweets(ts.subrange(0, i as int)) == Ok::<Seq<QuakeView>, Seq<char>>(quake_views(quakes@)),
            decreases self.0.len() - i,
        {
            let tweet = &self.0[i];
            proof {
                assert(ts[i as int] == tweet@);
                assert(ts.subrange(0, i + 1).drop_last() =~= ts.subrange(0, i as int));
                assert(ts.subrange(0, i + 1).last() == tweet@);
                assert(tweet_ok(ts[i as int]));
            }
            let text = tweet.get_text();
            let cs = chars_of(text.as_str());
            if contains_exec(&cs, &marker) {
                match Self::quake_from_tweet(tweet) {
                    Ok(q) => {
                        let ghost prev = quake_views(quakes@);
                        quakes.push(q);
                        proof {
                            assert(quake_views(quakes@) =~= prev.push(q@));
                        }
                    },
                    Err(e) => {
                        proof {
                            lemma_tweet_err_extends(ts, i + 1);
                        }
                        return Err(e);
                    },
                }
            }
            i = i + 1;
        }
        proof {
            assert(ts.subrange(0, ts.len() as int) =~= ts);
        }
        Ok(quakes)
    }
}

/// A failure among the first tweets is the failure of all of them.
pub proof fn lemma_tweet_err_extends(ts: Seq<TweetView>, k: int)
    requires
        0 <= k <= ts.len(),
        quakes_of_tweets(ts.subrange(0, k)) is Err,
    ensures
        quakes_of_tweets(ts) == quakes_of_tweets(ts.subrange(0, k)),
    decreases ts.len() - k,
{
    if k == ts.len() {
        assert(ts.subrange(0, k) =~= ts);
    } else {
        assert(ts.drop_last().subrange(0, k) =~= ts.subrange(0, k));
        lemma_tweet_err_extends(ts.drop_last(), k);
    }
}

/// Reading two texts joined by a line break gives the fields of the second
/// where it has them and those of the first elsewhere: a later line
/// overrides an earlier one.
pub proof fn lemma_parse_text_override(a: Seq<char>, b: Seq<char>)
    ensures
        spec_parse_text(a + seq!['\n'] + b) == override_fields(spec_parse_text(a), spec_parse_text(b)),
{
    lemma_lines_concat(a, b);
    lemma_fields_of_lines_concat(lines(a), lines(b));
}

/// The "Earthquake Information" tweets among `ts`, in order.
pub open spec fn quake_tweets(ts: Seq<TweetView>) -> Seq<TweetView>
    decreases ts.len(),
{
    if ts.len() == 0 {
        Seq::<TweetView>::empty()
    } else if is_quake_tweet(ts.last()) {
        quake_tweets(ts.drop_last()).push(ts.last())
    } else {
        quake_tweets(ts.drop_last())
    }
}

/// Tweets are read into quakes one for one and in order: a further quake
/// tweet that reads adds its quake after those read before it, one that does
/// not read gives its error, and any other tweet adds nothing.
pub proof fn lemma_quakes_of_tweets_append(ts: Seq<TweetView>, t: TweetView)
    ensures
        quakes_of_tweets(ts) matches Ok(qs) ==> quakes_of_tweets(ts.push(t)) == (if is_quake_tweet(t) {
            match quake_of_tweet(t) {
                Ok(q) => Ok::<Seq<QuakeView>, Seq<char>>(qs.push(q)),
                Err(e) => Err::<Seq<QuakeView>, Seq<char>>(e),
            }
        } else {
            Ok::<Seq<QuakeView>, Seq<char>>(qs)
        }),
        quakes_of_tweets(ts) is Err ==> quakes_of_tweets(ts.push(t)) == quakes_of_tweets(ts),
{
    assert(ts.push(t).drop_last() =~= ts);
}

/// Where every quake tweet reads, the quakes are one per quake tweet, in
/// order: quake `k` is the quake of the `k`-th quake tweet.
pub proof fn lemma_quakes_of_tweets_one_per_tweet(ts: Seq<TweetView>)
    requires
        forall|i: int| 0 <= i < ts.len() && is_quake_tweet(#[trigger] ts[i]) ==> quake_of_tweet(ts[i]) is Ok,
    ensures
        quakes_of_tweets(ts) is Ok,
        quakes_of_tweets(ts) matches Ok(qs) ==> qs.len() == quake_tweets(ts).len() && forall|k: int|
            0 <= k < qs.len() ==> quake_of_tweet(#[trigger] quake_tweets(ts)[k]) == Ok::<QuakeView, Seq<char>>(
                qs[k],
            ),
    decreases ts.len(),
{
    if ts.len() > 0 {
        let init = ts.drop_last();
        assert forall|i: int| 0 <= i < init.len() && is_quake_tweet(#[trigger] init[i]) implies quake_of_tweet(
            init[i],
        ) is Ok by {
            assert(init[i] == ts[i]);
        }
        lemma_quakes_of_tweets_one_per_tweet(init);
        let qs = quakes_of_tweets(init)->Ok_0;
        let qt = quake_tweets(init);
        if is_quake_tweet(ts.last()) {
            assert(is_quake_tweet(ts[ts.len() - 1]));
            let q = quake_of_tweet(ts.last())->Ok_0;
            assert(quakes_of_tweets(ts) == Ok::<Seq<QuakeView>, Seq<char>>(qs.push(q)));
            assert(quake_tweets(ts) == qt.push(ts.last()));
            assert forall|k: int| 0 <= k < qs.push(q).len() implies quake_of_tweet(#[trigger] quake_tweets(ts)[k])
                == Ok::<QuakeView, Seq<char>>(qs.push(q)[k]) by {
                if k < qs.len() {
                    assert(quake_tweets(ts)[k] == qt[k]);
                }
            }
        } else {
            assert(quake_tweets(ts) == qt);
        }
    }
}

} // verus!
