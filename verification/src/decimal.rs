//! Numbers read as `str::parse::<f64>` reads them, kept exactly: a finite
//! value as the digits and the exponent that a numeral writes, an infinity,
//! or NaN.
//!
//! The numerals accepted are those of `f64`'s `FromStr`:
//! `[+|-]` followed by `inf`, `infinity` or `nan` (in any case), or by
//! digits with at most one `.` and at least one digit, optionally followed
//! by `e` or `E`, an optional sign and at least one digit.

use vstd::prelude::*;
use crate::number::{all_digits, digit_of, extend_value, is_digit, is_digit_exec, lemma_extend_single, lemma_extend_value_concat, lemma_step_bound};
use crate::text::{chars_of, find, find_from_exec, lemma_find_from_matches, slice};

verus! {

/// The largest exponent a numeral is read with: a written exponent beyond
/// it counts as this one (a value that far out is an infinity or a zero to
/// an `f64`).
pub const EXPONENT_LIMIT: u64 = 1_000_000_000_000_000_000;

/// What a `Decimal` holds: a finite value `± digits × 10^exp`, where the
/// digits neither start nor end with `0` (zero has no digits, no sign and
/// exponent 0), an infinity, or NaN.
pub enum DecimalView {
    Finite { negative: bool, digits: Seq<char>, exp: int },
    Infinite { negative: bool },
    NaN,
}

/// A number as a numeral writes it (see `DecimalView`).
#[derive(Debug, PartialEq, Eq)]
pub enum Decimal {
    Finite { negative: bool, digits: Vec<char>, exp: i128 },
    Infinite { negative: bool },
    NaN,
}

impl View for Decimal {
    type V = DecimalView;

    open spec fn view(&self) -> DecimalView {
        match self {
            Decimal::Finite { negative, digits, exp } => DecimalView::Finite {
                negative: *negative,
                digits: digits@,
                exp: *exp as int,
            },
            Decimal::Infinite { negative } => DecimalView::Infinite { negative: *negative },
            Decimal::NaN => DecimalView::NaN,
        }
    }
}

impl Clone for Decimal {
    fn clone(&self) -> (r: Self)
        ensures
            r@ == self@,
    {
        match self {
            Decimal::Finite { negative, digits, exp } => {
                let mut d: Vec<char> = Vec::new();
                let mut i: usize = 0;
                while i < digits.len()
                    invariant
                        i <= digits.len(),
                        d@ == digits@.subrange(0, i as int),
                    decreases digits.len() - i,
                {
                    d.push(digits[i]);
                    i = i + 1;
                }
                proof {
                    assert(digits@.subrange(0, digits@.len() as int) =~= digits@);
                }
                Decimal::Finite { negative: *negative, digits: d, exp: *exp }
            },
            Decimal::Infinite { negative } => Decimal::Infinite { negative: *negative },
            Decimal::NaN => Decimal::NaN,
        }
    }
}

impl Decimal {
    /// Whether `self` and `other` hold the same number.
    pub fn same_value(&self, other: &Decimal) -> (b: bool)
        ensures
            b == (self@ == other@),
    {
        match (self, other) {
            (
                Decimal::Finite { negative: n1, digits: d1, exp: e1 },
                Decimal::Finite { negative: n2, digits: d2, exp: e2 },
            ) => {
                if *n1 != *n2 || *e1 != *e2 || d1.len() != d2.len() {
                    proof {
                        if d1.len() != d2.len() {
                            assert(d1@.len() != d2@.len());
                        }
                    }
                    return false;
                }
                let mut i: usize = 0;
                while i < d1.len()
                    invariant
                        i <= d1.len() == d2.len(),
                        forall|k: int| 0 <= k < i ==> d1@[k] == d2@[k],
                        self@ == (DecimalView::Finite { negative: *n1, digits: d1@, exp: *e1 as int }),
                        other@ == (DecimalView::Finite { negative: *n2, digits: d2@, exp: *e2 as int }),
                        *n1 == *n2,
                        *e1 == *e2,
                    decreases d1.len() - i,
                {
                    if d1[i] != d2[i] {
                        proof {
                            assert(d1@[i as int] != d2@[i as int]);
                            assert(d1@ != d2@);
                        }
                        return false;
                    }
                    i = i + 1;
                }
                proof {
                    assert(d1@ =~= d2@);
                }
                true
            },
            (Decimal::Infinite { negative: a }, Decimal::Infinite { negative: b }) => *a == *b,
            (Decimal::NaN, Decimal::NaN) => true,
            _ => false,
        }
    }
}

/// The sign and the unsigned part of a numeral.
pub open spec fn split_sign(s: Seq<char>) -> (bool, Seq<char>) {
    if s.len() > 0 && (s[0] == '+' || s[0] == '-') {
        (s[0] == '-', s.drop_first())
    } else {
        (false, s)
    }
}

/// The digits before and after the first `'.'` of an unsigned numeral.
pub open spec fn split_point(body: Seq<char>) -> (Seq<char>, Seq<char>) {
    match find(body, seq!['.']) {
        Some(p) => (body.subrange(0, p), body.subrange(p + 1, body.len() as int)),
        None => (body, Seq::<char>::empty()),
    }
}

/// The code of `c` with an ASCII capital made small.
pub open spec fn ascii_lower(c: char) -> u32 {
    let u = c as u32;
    if 65 <= u <= 90 {
        (u + 32) as u32
    } else {
        u
    }
}

/// `s` is the word `w` (written in small letters), in any case.
pub open spec fn same_word(s: Seq<char>, w: Seq<char>) -> bool {
    s.len() == w.len() && forall|i: int| 0 <= i < s.len() ==> ascii_lower(#[trigger] s[i]) == w[i] as u32
}

/// Where the exponent of a numeral starts: its first `e` or `E`.
pub open spec fn exponent_mark(s: Seq<char>) -> Option<int> {
    match (find(s, seq!['e']), find(s, seq!['E'])) {
        (Some(i), Some(j)) => Some(if i < j { i } else { j }),
        (Some(i), None) => Some(i),
        (None, Some(j)) => Some(j),
        (None, None) => None,
    }
}

/// `v`, or `EXPONENT_LIMIT` where `v` is larger.
pub open spec fn capped(v: nat) -> nat {
    if v > EXPONENT_LIMIT {
        EXPONENT_LIMIT as nat
    } else {
        v
    }
}

/// The exponent a numeral writes after its `e`: a sign and at least one digit.
pub open spec fn exponent_value(t: Seq<char>) -> Option<int> {
    let (negative, ds) = split_sign(t);
    if ds.len() >= 1 && all_digits(ds) {
        let v = capped(extend_value(0, ds));
        Some(if negative { -v } else { v as int })
    } else {
        None
    }
}

/// How many `0`s `ds` ends with.
pub open spec fn trailing_zeros(ds: Seq<char>) -> nat
    decreases ds.len(),
{
    if ds.len() > 0 && ds.last() == '0' {
        1 + trailing_zeros(ds.drop_last())
    } else {
        0
    }
}

/// How many `0`s `ds` starts with.
pub open spec fn leading_zeros(ds: Seq<char>) -> nat
    decreases ds.len(),
{
    if ds.len() > 0 && ds[0] == '0' {
        1 + leading_zeros(ds.drop_first())
    } else {
        0
    }
}

/// The number `± ds × 10^x` without the zeros that `ds` starts and ends with.
pub open spec fn canonical(negative: bool, ds: Seq<char>, x: int) -> DecimalView {
    let z = trailing_zeros(ds);
    let t = ds.subrange(0, ds.len() - z);
    let d = t.subrange(leading_zeros(t) as int, t.len() as int);
    if d.len() == 0 {
        DecimalView::Finite { negative: false, digits: Seq::<char>::empty(), exp: 0 }
    } else {
        DecimalView::Finite { negative, digits: d, exp: x + z }
    }
}

/// A finite numeral without its sign: digits with at most one `.`, at least
/// one digit, and an optional exponent.
pub open spec fn parse_finite(negative: bool, body: Seq<char>) -> Option<DecimalView> {
    let (mant, x) = match exponent_mark(body) {
        Some(i) => (body.subrange(0, i), exponent_value(body.subrange(i + 1, body.len() as int))),
        None => (body, Some(0int)),
    };
    let (whole, frac) = split_point(mant);
    match x {
        Some(x) => if all_digits(whole) && all_digits(frac) && whole.len() + frac.len() >= 1 {
            Some(canonical(negative, whole + frac, x - frac.len()))
        } else {
            None
        },
        None => None,
    }
}

/// `s` read as `str::parse::<f64>` reads it, the value kept exactly; `None`
/// where `str::parse::<f64>` refuses `s`.
pub open spec fn parse_decimal(s: Seq<char>) -> Option<DecimalView> {
    let (negative, body) = split_sign(s);
    if same_word(body, "inf"@) || same_word(body, "infinity"@) {
        Some(DecimalView::Infinite { negative })
    } else if same_word(body, "nan"@) {
        Some(DecimalView::NaN)
    } else {
        parse_finite(negative, body)
    }
}

proof fn lemma_trailing_zeros_bound(ds: Seq<char>)
    ensures
        trailing_zeros(ds) <= ds.len(),
    decreases ds.len(),
{
    if ds.len() > 0 && ds.last() == '0' {
        lemma_trailing_zeros_bound(ds.drop_last());
    }
}

proof fn lemma_leading_zeros_bound(ds: Seq<char>)
    ensures
        leading_zeros(ds) <= ds.len(),
    decreases ds.len(),
{
    if ds.len() > 0 && ds[0] == '0' {
        lemma_leading_zeros_bound(ds.drop_first());
    }
}

/// Whether `s` is the word `w` (given in small letters), in any case.
fn same_word_exec(s: &Vec<char>, w: &str) -> (b: bool)
    ensures
        b == same_word(s@, w@),
{
    let wc = chars_of(w);
    if s.len() != wc.len() {
        return false;
    }
    let mut i: usize = 0;
    while i < s.len()
        invariant
            i <= s.len(),
            s.len() == wc.len(),
            wc@ == w@,
            forall|k: int| 0 <= k < i ==> ascii_lower(#[trigger] s@[k]) == wc@[k] as u32,
        decreases s.len() - i,
    {
        let u = s[i] as u32;
        let l = if 65 <= u && u <= 90 {
            u + 32
        } else {
            u
        };
        if l != wc[i] as u32 {
            proof {
                assert(ascii_lower(s@[i as int]) != w@[i as int] as u32);
            }
            return false;
        }
        i = i + 1;
    }
    true
}

/// Whether every character of `v` is a digit.
fn all_digits_exec(v: &Vec<char>) -> (b: bool)
    ensures
        b == all_digits(v@),
{
    let mut i: usize = 0;
    while i < v.len()
        invariant
            i <= v.len(),
            forall|k: int| 0 <= k < i ==> is_digit(#[trigger] v@[k]),
        decreases v.len() - i,
    {
        if !is_digit_exec(v[i]) {
            return false;
        }
        i = i + 1;
    }
    true
}

/// Where the exponent of a numeral starts (see `exponent_mark`).
fn exponent_mark_exec(s: &Vec<char>) -> (r: Option<usize>)
    ensures
        match r {
            Some(i) => exponent_mark(s@) == Some(i as int) && i < s.len(),
            None => exponent_mark(s@) is None,
        },
{
    let small: Vec<char> = vec!['e'];
    let capital: Vec<char> = vec!['E'];
    proof {
        assert(small@ =~= seq!['e']);
        assert(capital@ =~= seq!['E']);
        lemma_find_from_matches(s@, seq!['e'], 0);
        lemma_find_from_matches(s@, seq!['E'], 0);
    }
    match (find_from_exec(s, &small, 0), find_from_exec(s, &capital, 0)) {
        (Some(i), Some(j)) => Some(if i < j { i } else { j }),
        (Some(i), None) => Some(i),
        (None, Some(j)) => Some(j),
        (None, None) => None,
    }
}

/// The exponent a numeral writes after its `e` (see `exponent_value`).
fn exponent_value_exec(t: &Vec<char>) -> (r: Option<i128>)
    ensures
        match r {
            Some(x) => exponent_value(t@) == Some(x as int),
            None => exponent_value(t@) is None,
        },
{
    let n = t.len();
    let mut negative = false;
    let mut lo: usize = 0;
    if n > 0 && (t[0] == '+' || t[0] == '-') {
        negative = t[0] == '-';
        lo = 1;
    }
    proof {
        if lo == 1 {
            assert(t@.drop_first() =~= t@.subrange(1, n as int));
        } else {
            assert(t@ =~= t@.subrange(0, n as int));
        }
        assert(split_sign(t@) == (negative, t@.subrange(lo as int, n as int)));
    }
    if lo >= n {
        return None;
    }
    let mut acc: u64 = 0;
    let mut i: usize = lo;
    proof {
        assert(t@.subrange(lo as int, lo as int) =~= Seq::<char>::empty());
    }
    while i < n
        invariant
            lo <= i <= n == t.len(),
            split_sign(t@) == (negative, t@.subrange(lo as int, n as int)),
            acc <= EXPONENT_LIMIT,
            all_digits(t@.subrange(lo as int, i as int)),
            acc as nat == capped(extend_value(0, t@.subrange(lo as int, i as int))),
        decreases n - i,
    {
        let c = t[i];
        let ghost p = t@.subrange(lo as int, i as int);
        let ghost q = t@.subrange(lo as int, i + 1);
        proof {
            assert(q =~= p + seq![c]);
        }
        if !is_digit_exec(c) {
            proof {
                let ds = t@.subrange(lo as int, n as int);
                assert(ds[i - lo] == c);
                assert(!is_digit(ds[i - lo]));
                assert(!all_digits(ds));
            }
            return None;
        }
        let d = digit_of(c);
        proof {
            lemma_extend_value_concat(0, p, seq![c]);
            lemma_extend_single(extend_value(0, p), seq![c]);
            assert(extend_value(0, q) == extend_value(0, p) * 10 + d);
            lemma_step_bound(acc as nat, d as nat, EXPONENT_LIMIT as nat);
            assert forall|k: int| 0 <= k < q.len() implies is_digit(#[trigger] q[k]) by {
                if k < p.len() {
                    assert(q[k] == p[k]);
                }
            }
        }
        if acc > (EXPONENT_LIMIT - d) / 10 {
            acc = EXPONENT_LIMIT;
        } else {
            acc = acc * 10 + d;
        }
        i = i + 1;
    }
    if negative {
        Some(-(acc as i128))
    } else {
        Some(acc as i128)
    }
}

/// `a` followed by `b`.
fn concat(a: &Vec<char>, b: &Vec<char>) -> (r: Vec<char>)
    ensures
        r@ == a@ + b@,
{
    let mut r: Vec<char> = Vec::new();
    let mut i: usize = 0;
    while i < a.len()
        invariant
            i <= a.len(),
            r@ == a@.subrange(0, i as int),
        decreases a.len() - i,
    {
        r.push(a[i]);
        i = i + 1;
    }
    let mut j: usize = 0;
    while j < b.len()
        invariant
            j <= b.len(),
            r@ == a@ + b@.subrange(0, j as int),
        decreases b.len() - j,
    {
        r.push(b[j]);
        j = j + 1;
        proof {
            assert(r@ =~= a@ + b@.subrange(0, j as int));
        }
    }
    proof {
        assert(a@.subrange(0, a@.len() as int) =~= a@);
        assert(b@.subrange(0, b@.len() as int) =~= b@);
    }
    r
}

/// The number `± ds × 10^x` without the zeros that `ds` starts and ends with.
fn canonical_exec(negative: bool, ds: &Vec<char>, x: i128) -> (r: Decimal)
    requires
        -0x1_0000_0000_0000_0000_0000_0000 <= x <= 0x1_0000_0000_0000_0000_0000_0000,
    ensures
        r@ == canonical(negative, ds@, x as int),
{
    let n = ds.len();
    let mut k: usize = n;
    proof {
        assert(ds@.subrange(0, n as int) =~= ds@);
    }
    while k > 0 && ds[k - 1] == '0'
        invariant
            k <= n == ds.len(),
            trailing_zeros(ds@) == (n - k) + trailing_zeros(ds@.subrange(0, k as int)),
        decreases k,
    {
        proof {
            assert(ds@.subrange(0, k as int).drop_last() =~= ds@.subrange(0, k - 1));
        }
        k = k - 1;
    }
    let ghost t = ds@.subrange(0, k as int);
    assert(trailing_zeros(t) == 0);
    assert(t =~= ds@.subrange(0, ds@.len() - trailing_zeros(ds@)));
    let mut j: usize = 0;
    proof {
        assert(t.subrange(0, k as int) =~= t);
    }
    while j < k && ds[j] == '0'
        invariant
            j <= k <= n == ds.len(),
            t == ds@.subrange(0, k as int),
            leading_zeros(t) == j + leading_zeros(t.subrange(j as int, k as int)),
        decreases k - j,
    {
        proof {
            assert(t.subrange(j as int, k as int).drop_first() =~= t.subrange(j + 1, k as int));
            assert(t.subrange(j as int, k as int)[0] == ds@[j as int]);
        }
        j = j + 1;
    }
    proof {
        if j < k {
            assert(t.subrange(j as int, k as int)[0] == ds@[j as int]);
        }
        assert(leading_zeros(t.subrange(j as int, k as int)) == 0);
    }
    let d = slice(ds, j, k);
    proof {
        assert(d@ =~= t.subrange(leading_zeros(t) as int, t.len() as int));
    }
    if d.len() == 0 {
        Decimal::Finite { negative: false, digits: Vec::new(), exp: 0 }
    } else {
        Decimal::Finite { negative, digits: d, exp: x + (n - k) as i128 }
    }
}

/// `s` read as `str::parse::<f64>` reads it, the value kept exactly (see `parse_decimal`).
pub fn parse_decimal_exec(s: &Vec<char>) -> (r: Option<Decimal>)
    ensures
        match r {
            Some(d) => parse_decimal(s@) == Some(d@),
            None => parse_decimal(s@) is None,
        },
{
    let n = s.len();
    let mut negative = false;
    let mut lo: usize = 0;
    if n > 0 && (s[0] == '+' || s[0] == '-') {
        negative = s[0] == '-';
        lo = 1;
    }
    let b = slice(s, lo, n);
    proof {
        if lo == 1 {
            assert(s@.drop_first() =~= b@);
        } else {
            assert(s@ =~= b@);
        }
        assert(split_sign(s@) == (negative, b@));
    }
    if same_word_exec(&b, "inf") || same_word_exec(&b, "infinity") {
        return Some(Decimal::Infinite { negative });
    }
    if same_word_exec(&b, "nan") {
        return Some(Decimal::NaN);
    }
    let mark = exponent_mark_exec(&b);
    let mant_end: usize = match mark {
        Some(i) => i,
        None => b.len(),
    };
    let x: Option<i128> = match mark {
        Some(i) => exponent_value_exec(&slice(&b, i + 1, b.len())),
        None => Some(0),
    };
    let mant = slice(&b, 0, mant_end);
    proof {
        if mark is None {
            assert(mant@ =~= b@);
        }
    }
    let dot: Vec<char> = vec!['.'];
    proof {
        assert(dot@ =~= seq!['.']);
        lemma_find_from_matches(mant@, dot@, 0);
    }
    let (whole_end, frac_start) = match find_from_exec(&mant, &dot, 0) {
        Some(p) => (p, p + 1),
        None => (mant.len(), mant.len()),
    };
    let whole = slice(&mant, 0, whole_end);
    let frac = slice(&mant, frac_start, mant.len());
    proof {
        let (w, f) = split_point(mant@);
        if whole_end == mant.len() {
            assert(mant@.subrange(0, mant@.len() as int) =~= mant@);
        }
        assert(w =~= whole@);
        assert(f =~= frac@);
    }
    match x {
        None => None,
        Some(xv) => {
            if !all_digits_exec(&whole) || !all_digits_exec(&frac) || (whole.len() == 0 && frac.len() == 0) {
                return None;
            }
            let ds = concat(&whole, &frac);
            proof {
                assert(-(EXPONENT_LIMIT as int) <= xv <= EXPONENT_LIMIT);
            }
            Some(canonical_exec(negative, &ds, xv - frac.len() as i128))
        },
    }
}

} // verus!
