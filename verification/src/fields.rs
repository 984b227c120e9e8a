//! Reading the named fields of a report (a bulletin row or a tweet) into
//! the values of a quake, with the descriptions of what cannot be read.

use vstd::prelude::*;
use crate::datetime::{chrono_parse_timestamp, parse_timestamp};
use crate::decimal::{Decimal, DecimalView, parse_decimal, parse_decimal_exec};
use crate::number::{float_error_message, lemma_parse_unsigned_bound, parse_unsigned, parse_unsigned_exec};
use crate::quake::{trouble, trouble_text};
use crate::text::chars_of;

verus! {

pub open spec fn opt_str(o: Option<String>) -> Option<Seq<char>> {
    match o {
        Some(s) => Some(s@),
        None => None,
    }
}

/// How reports write their date and time.
pub open spec fn datetime_format() -> Seq<char> {
    "%d %B %Y - %I:%M %p %#z"@
}

/// A field read as an instant (seconds since the Unix epoch); `missing` where the field is absent.
pub open spec fn spec_datetime_field(field: Option<Seq<char>>, missing: Seq<char>) -> Result<i64, Seq<char>> {
    match field {
        Some(v) => match chrono_parse_timestamp(v, datetime_format()) {
            Ok(t) => Ok(t as i64),
            Err(e) => Err(trouble(v, "timestamp"@, e)),
        },
        None => Err(missing),
    }
}

/// A field read as a decimal number; `missing` where the field is absent.
pub open spec fn spec_decimal_field(field: Option<Seq<char>>, missing: Seq<char>) -> Result<DecimalView, Seq<char>> {
    match field {
        Some(v) => match parse_decimal(v) {
            Some(d) => Ok(d),
            None => Err(trouble(v, "f64"@, float_error_message(v))),
        },
        None => Err(missing),
    }
}

/// A field read as a depth in kilometres (a `u16`); `missing` where the field is absent.
pub open spec fn spec_depth_field(field: Option<Seq<char>>, missing: Seq<char>) -> Result<u16, Seq<char>> {
    match field {
        Some(v) => match parse_unsigned(v, u16::MAX as nat) {
            Ok(n) => Ok(n as u16),
            Err(k) => Err(trouble(v, "i8"@, k.spec_message())),
        },
        None => Err(missing),
    }
}

/// A text field; `missing` where the field is absent.
pub open spec fn spec_text_field(field: Option<Seq<char>>, missing: Seq<char>) -> Result<Seq<char>, Seq<char>> {
    match field {
        Some(v) => Ok(v),
        None => Err(missing),
    }
}

pub fn datetime_field(field: &Option<String>, missing: &str) -> (r: Result<i64, String>)
    ensures
        match r {
            Ok(t) => spec_datetime_field(opt_str(*field), missing@) == Ok::<i64, Seq<char>>(t),
            Err(e) => spec_datetime_field(opt_str(*field), missing@) == Err::<i64, Seq<char>>(e@),
        },
{
    match field {
        Some(v) => match parse_timestamp(v.as_str(), "%d %B %Y - %I:%M %p %#z") {
            Ok(t) => Ok(t),
            Err(e) => Err(trouble_text(v.as_str(), "timestamp", e.as_str())),
        },
        None => Err(String::from_str(missing)),
    }
}

pub fn decimal_field(field: &Option<String>, missing: &str) -> (r: Result<Decimal, String>)
    ensures
        match r {
            Ok(d) => spec_decimal_field(opt_str(*field), missing@) == Ok::<DecimalView, Seq<char>>(d@),
            Err(e) => spec_decimal_field(opt_str(*field), missing@) == Err::<DecimalView, Seq<char>>(e@),
        },
{
    match field {
        Some(v) => {
            let cs = chars_of(v.as_str());
            match parse_decimal_exec(&cs) {
                Some(d) => Ok(d),
                None => {
                    let detail = if cs.len() == 0 {
                        String::from_str("cannot parse float from empty string")
                    } else {
                        String::from_str("invalid float literal")
                    };
                    Err(trouble_text(v.as_str(), "f64", detail.as_str()))
                },
            }
        },
        None => Err(String::from_str(missing)),
    }
}

pub fn depth_field(field: &Option<String>, missing: &str) -> (r: Result<u16, String>)
    ensures
        match r {
            Ok(d) => spec_depth_field(opt_str(*field), missing@) == Ok::<u16, Seq<char>>(d),
            Err(e) => spec_depth_field(opt_str(*field), missing@) == Err::<u16, Seq<char>>(e@),
        },
{
    match field {
        Some(v) => {
            let cs = chars_of(v.as_str());
            match parse_unsigned_exec(&cs, 0xFFFF) {
                Ok(n) => {
                    proof {
                        lemma_parse_unsigned_bound(cs@, 0xFFFF);
                    }
                    Ok(n as u16)
                },
                Err(k) => Err(trouble_text(v.as_str(), "i8", k.message().as_str())),
            }
        },
        None => Err(String::from_str(missing)),
    }
}

pub fn text_field(field: &Option<String>, missing: &str) -> (r: Result<String, String>)
    ensures
        match r {
            Ok(s) => spec_text_field(opt_str(*field), missing@) == Ok::<Seq<char>, Seq<char>>(s@),
            Err(e) => spec_text_field(opt_str(*field), missing@) == Err::<Seq<char>, Seq<char>>(e@),
        },
{
    match field {
        Some(v) => Ok(v.clone()),
        None => Err(String::from_str(missing)),
    }
}

} // verus!
