//! Reading unsigned integers out of text as `str::parse` reads them, and
//! the digit arithmetic that the number readers share.

use vstd::prelude::*;
use crate::text::{chars_of, decimal, digit_char, find, find_from_exec, lemma_find_from_matches, slice};

verus! {

/// Why a text is not an unsigned integer (the kinds `str::parse` reports).
#[derive(Clone, Copy, Debug, PartialEq, Eq, Structural)]
pub enum IntError {
    Empty,
    InvalidDigit,
    PosOverflow,
}

impl IntError {
    pub open spec fn spec_message(self) -> Seq<char> {
        match self {
            IntError::Empty => "cannot parse integer from empty string"@,
            IntError::InvalidDigit => "invalid digit found in string"@,
            IntError::PosOverflow => "number too large to fit in target type"@,
        }
    }

    /// The text that `Display` gives for this kind of error.
    pub fn message(&self) -> (m: String)
        ensures
            m@ == self.spec_message(),
    {
        match self {
            IntError::Empty => String::from_str("cannot parse integer from empty string"),
            IntError::InvalidDigit => String::from_str("invalid digit found in string"),
            IntError::PosOverflow => String::from_str("number too large to fit in target type"),
        }
    }
}

pub open spec fn is_digit(c: char) -> bool {
    48 <= (c as u32) <= 57
}

pub open spec fn digit_value(c: char) -> nat {
    ((c as u32) - 48) as nat
}

pub fn is_digit_exec(c: char) -> (b: bool)
    ensures
        b == is_digit(c),
{
    let u = c as u32;
    48 <= u && u <= 57
}

pub proof fn lemma_extend_single(acc: nat, one: Seq<char>)
    requires
        one.len() == 1,
    ensures
        extend_value(acc, one) == acc * 10 + digit_value(one[0]),
{
    assert(one.drop_first().len() == 0);
    assert(extend_value((acc * 10 + digit_value(one[0])) as nat, one.drop_first()) == acc * 10
        + digit_value(one[0]));
}

proof fn lemma_scan_bound(ds: Seq<char>, acc: nat, max: nat)
    requires
        acc <= max,
    ensures
        scan_digits(ds, acc, max) matches Ok(v) ==> v <= max,
    decreases ds.len(),
{
    if ds.len() > 0 && is_digit(ds[0]) && acc * 10 + digit_value(ds[0]) <= max {
        lemma_scan_bound(ds.drop_first(), acc * 10 + digit_value(ds[0]), max);
    }
}

pub open spec fn all_digits(ds: Seq<char>) -> bool {
    forall|i: int| 0 <= i < ds.len() ==> is_digit(#[trigger] ds[i])
}

/// The number written by `acc`'s digits followed by the digits `ds`.
pub open spec fn extend_value(acc: nat, ds: Seq<char>) -> nat
    decreases ds.len(),
{
    if ds.len() == 0 {
        acc
    } else {
        extend_value(acc * 10 + digit_value(ds[0]), ds.drop_first())
    }
}

/// Reading the digits `ds` left to right onto `acc`, failing at the first
/// character that is not a digit or at the first step past `max`.
pub open spec fn scan_digits(ds: Seq<char>, acc: nat, max: nat) -> Result<nat, IntError>
    decreases ds.len(),
{
    if ds.len() == 0 {
        Ok(acc)
    } else if !is_digit(ds[0]) {
        Err(IntError::InvalidDigit)
    } else if acc * 10 + digit_value(ds[0]) > max {
        Err(IntError::PosOverflow)
    } else {
        scan_digits(ds.drop_first(), acc * 10 + digit_value(ds[0]), max)
    }
}

/// What `str::parse` gives for an unsigned integer type whose largest value is `max`.
pub open spec fn parse_unsigned(s: Seq<char>, max: nat) -> Result<nat, IntError> {
    if s.len() == 0 {
        Err(IntError::Empty)
    } else if s.len() == 1 && (s[0] == '+' || s[0] == '-') {
        Err(IntError::InvalidDigit)
    } else if s[0] == '+' {
        scan_digits(s.drop_first(), 0, max)
    } else {
        scan_digits(s, 0, max)
    }
}

pub proof fn lemma_step_bound(acc: nat, d: nat, max: nat)
    requires
        d <= 9,
        max >= 9,
    ensures
        (acc * 10 + d > max) == (acc > (max - d) / 10),
{
    assert((acc * 10 + d > max) == (acc > (max - d) / 10)) by (nonlinear_arith)
        requires
            d <= 9,
            max >= 9,
    ;
}

pub fn digit_of(c: char) -> (d: u64)
    requires
        is_digit(c),
    ensures
        d == digit_value(c),
        d <= 9,
{
    ((c as u32) - 48) as u64
}

/// Reads the digits of `s` from index `start` onto `acc`, as `scan_digits` does.
fn scan_digits_exec(s: &Vec<char>, start: usize, acc_init: u64, max: u64) -> (r: Result<u64, IntError>)
    requires
        start <= s.len(),
        acc_init <= max,
        max >= 9,
    ensures
        match r {
            Ok(v) => scan_digits(s@.skip(start as int), acc_init as nat, max as nat) == Ok::<nat, IntError>(v as nat),
            Err(e) => scan_digits(s@.skip(start as int), acc_init as nat, max as nat) == Err::<nat, IntError>(e),
        },
{
    let mut i = start;
    let mut acc = acc_init;
    let ghost goal = scan_digits(s@.skip(start as int), acc as nat, max as nat);
    while i < s.len()
        invariant
            start <= i <= s.len(),
            goal == scan_digits(s@.skip(start as int), acc_init as nat, max as nat),
            acc <= max,
            max >= 9,
            goal == scan_digits(s@.skip(i as int), acc as nat, max as nat),
        decreases s.len() - i,
    {
        let c = s[i];
        proof {
            assert(s@.skip(i as int)[0] == c);
            assert(s@.skip(i as int).drop_first() =~= s@.skip(i + 1));
        }
        if !is_digit_exec(c) {
            return Err(IntError::InvalidDigit);
        }
        let d = digit_of(c);
        proof {
            lemma_step_bound(acc as nat, d as nat, max as nat);
        }
        if acc > (max - d) / 10 {
            return Err(IntError::PosOverflow);
        }
        acc = acc * 10 + d;
        i = i + 1;
    }
    proof {
        assert(s@.skip(i as int).len() == 0);
    }
    Ok(acc)
}

/// `s` read as an unsigned integer no larger than `max`, as `str::parse` reads it.
pub fn parse_unsigned_exec(s: &Vec<char>, max: u64) -> (r: Result<u64, IntError>)
    requires
        max >= 9,
    ensures
        match r {
            Ok(v) => parse_unsigned(s@, max as nat) == Ok::<nat, IntError>(v as nat),
            Err(e) => parse_unsigned(s@, max as nat) == Err::<nat, IntError>(e),
        },
{
    if s.len() == 0 {
        return Err(IntError::Empty);
    }
    if s.len() == 1 && (s[0] == '+' || s[0] == '-') {
        return Err(IntError::InvalidDigit);
    }
    if s[0] == '+' {
        proof {
            assert(s@.skip(1) =~= s@.drop_first());
        }
        scan_digits_exec(s, 1, 0, max)
    } else {
        proof {
            assert(s@.skip(0) =~= s@);
        }
        scan_digits_exec(s, 0, 0, max)
    }
}

/// A `u16` read from `s` (what `s.parse::<u16>()` gives).
pub fn parse_u16(s: &str) -> (r: Result<u16, IntError>)
    ensures
        match r {
            Ok(v) => parse_unsigned(s@, u16::MAX as nat) == Ok::<nat, IntError>(v as nat),
            Err(e) => parse_unsigned(s@, u16::MAX as nat) == Err::<nat, IntError>(e),
        },
{
    let cs = chars_of(s);
    proof {
        lemma_scan_bound(cs@.drop_first(), 0, 0xFFFF);
        lemma_scan_bound(cs@, 0, 0xFFFF);
    }
    match parse_unsigned_exec(&cs, 0xFFFF) {
        Ok(v) => Ok(v as u16),
        Err(e) => Err(e),
    }
}

/// A `usize` read from `s` (what `s.parse::<usize>()` gives).
pub fn parse_usize(s: &str) -> (r: Result<usize, IntError>)
    ensures
        match r {
            Ok(v) => parse_unsigned(s@, usize::MAX as nat) == Ok::<nat, IntError>(v as nat),
            Err(e) => parse_unsigned(s@, usize::MAX as nat) == Err::<nat, IntError>(e),
        },
{
    let cs = chars_of(s);
    proof {
        lemma_scan_bound(cs@.drop_first(), 0, usize::MAX as nat);
        lemma_scan_bound(cs@, 0, usize::MAX as nat);
    }
    match parse_unsigned_exec(&cs, usize::MAX as u64) {
        Ok(v) => Ok(v as usize),
        Err(e) => Err(e),
    }
}


/// The message `str::parse::<f64>` gives for a text it rejects.
pub open spec fn float_error_message(s: Seq<char>) -> Seq<char> {
    if s.len() == 0 {
        "cannot parse float from empty string"@
    } else {
        "invalid float literal"@
    }
}

pub proof fn lemma_extend_value_concat(acc: nat, a: Seq<char>, b: Seq<char>)
    ensures
        extend_value(acc, a + b) == extend_value(extend_value(acc, a), b),
    decreases a.len(),
{
    if a.len() == 0 {
        assert(a + b =~= b);
    } else {
        assert((a + b).drop_first() =~= a.drop_first() + b);
        lemma_extend_value_concat(acc * 10 + digit_value(a[0]), a.drop_first(), b);
    }
}

pub proof fn lemma_extend_value_grows(acc: nat, ds: Seq<char>)
    ensures
        extend_value(acc, ds) >= acc,
    decreases ds.len(),
{
    if ds.len() > 0 {
        lemma_extend_value_grows(acc * 10 + digit_value(ds[0]), ds.drop_first());
    }
}


pub proof fn lemma_parse_unsigned_bound(s: Seq<char>, max: nat)
    ensures
        parse_unsigned(s, max) matches Ok(v) ==> v <= max,
{
    lemma_scan_bound(s, 0, max);
    if s.len() > 0 {
        lemma_scan_bound(s.drop_first(), 0, max);
    }
}

proof fn lemma_scan_all_digits(ds: Seq<char>, acc: nat, max: nat)
    requires
        all_digits(ds),
        extend_value(acc, ds) <= max,
    ensures
        scan_digits(ds, acc, max) == Ok::<nat, IntError>(extend_value(acc, ds)),
    decreases ds.len(),
{
    if ds.len() > 0 {
        let next = acc * 10 + digit_value(ds[0]);
        lemma_extend_value_grows(next, ds.drop_first());
        assert(all_digits(ds.drop_first())) by {
            assert forall|i: int| 0 <= i < ds.drop_first().len() implies is_digit(#[trigger] ds.drop_first()[i]) by {
                assert(ds.drop_first()[i] == ds[i + 1]);
            }
        }
        lemma_scan_all_digits(ds.drop_first(), next, max);
    }
}

proof fn lemma_decimal_digits(n: nat)
    ensures
        all_digits(decimal(n)),
        decimal(n).len() > 0,
        extend_value(0, decimal(n)) == n,
    decreases n,
{
    let d = (n % 10) as nat;
    assert(is_digit(digit_char(d)) && digit_value(digit_char(d)) == d) by {
        assert(n % 10 < 10);
    }
    if n < 10 {
        lemma_extend_single(0, decimal(n));
    } else {
        lemma_decimal_digits(n / 10);
        let p = decimal(n / 10);
        lemma_extend_value_concat(0, p, seq![digit_char(d)]);
        assert(p.push(digit_char(d)) =~= p + seq![digit_char(d)]);
        lemma_extend_single(n / 10, seq![digit_char(d)]);
        assert((n / 10) * 10 + d == n);
        assert forall|i: int| 0 <= i < decimal(n).len() implies is_digit(#[trigger] decimal(n)[i]) by {
            if i < p.len() {
                assert(decimal(n)[i] == p[i]);
            }
        }
    }
}

/// Reading back the decimal digits of a number no larger than `max` gives the number.
pub proof fn lemma_parse_decimal_digits(n: nat, max: nat)
    requires
        n <= max,
    ensures
        parse_unsigned(decimal(n), max) == Ok::<nat, IntError>(n),
{
    lemma_decimal_digits(n);
    lemma_scan_all_digits(decimal(n), 0, max);
    assert(is_digit(decimal(n)[0]));
}

} // verus!
