//! Character-level text operations used by the parsers: whitespace trimming,
//! searching, splitting and replacing, each stated over `Seq<char>`.

use vstd::prelude::*;

verus! {

/// Unicode `White_Space`, the property behind `char::is_whitespace`.
pub open spec fn is_ws(c: char) -> bool {
    let u = c as u32;
    ||| 0x09 <= u <= 0x0D
    ||| u == 0x20
    ||| u == 0x85
    ||| u == 0xA0
    ||| u == 0x1680
    ||| 0x2000 <= u <= 0x200A
    ||| u == 0x2028
    ||| u == 0x2029
    ||| u == 0x202F
    ||| u == 0x205F
    ||| u == 0x3000
}

/// `s` without its leading whitespace.
pub open spec fn trim_left(s: Seq<char>) -> Seq<char>
    decreases s.len(),
{
    if s.len() > 0 && is_ws(s[0]) {
        trim_left(s.drop_first())
    } else {
        s
    }
}

/// `s` without its trailing whitespace.
pub open spec fn trim_right(s: Seq<char>) -> Seq<char>
    decreases s.len(),
{
    if s.len() > 0 && is_ws(s.last()) {
        trim_right(s.drop_last())
    } else {
        s
    }
}

/// `s` without leading and trailing whitespace (what `str::trim` gives).
pub open spec fn trim(s: Seq<char>) -> Seq<char> {
    trim_right(trim_left(s))
}

/// `p` occurs in `s` starting at index `i`.
pub open spec fn matches_at(s: Seq<char>, p: Seq<char>, i: int) -> bool {
    0 <= i && i + p.len() <= s.len() && s.subrange(i, i + p.len()) == p
}

pub open spec fn starts_with(s: Seq<char>, p: Seq<char>) -> bool {
    matches_at(s, p, 0)
}

/// The leftmost occurrence of `p` in `s` at or after `start`.
pub open spec fn find_from(s: Seq<char>, p: Seq<char>, start: int) -> Option<int>
    decreases s.len() + 1 - start,
{
    if start < 0 || start + p.len() > s.len() {
        None
    } else if matches_at(s, p, start) {
        Some(start)
    } else {
        find_from(s, p, start + 1)
    }
}

/// The leftmost occurrence of `p` in `s` (what `str::find` gives, counted in chars).
pub open spec fn find(s: Seq<char>, p: Seq<char>) -> Option<int> {
    find_from(s, p, 0)
}

pub open spec fn contains(s: Seq<char>, p: Seq<char>) -> bool {
    find(s, p) is Some
}

/// The rightmost occurrence of `p` in `s` that starts at or before `k`.
pub open spec fn rfind_upto(s: Seq<char>, p: Seq<char>, k: int) -> Option<int>
    decreases k + 1,
{
    if k < 0 {
        None
    } else if matches_at(s, p, k) {
        Some(k)
    } else {
        rfind_upto(s, p, k - 1)
    }
}

/// The rightmost occurrence of `p` in `s` (what `str::rfind` gives, counted in chars).
pub open spec fn rfind(s: Seq<char>, p: Seq<char>) -> Option<int> {
    rfind_upto(s, p, s.len() - p.len())
}

/// Every non-overlapping occurrence of `from`, scanning left to right,
/// replaced by `to` (what `str::replace` gives).
pub open spec fn replace_all(s: Seq<char>, from: Seq<char>, to: Seq<char>) -> Seq<char>
    decreases s.len(),
{
    if s.len() == 0 || from.len() == 0 {
        s
    } else if starts_with(s, from) {
        to + replace_all(s.skip(from.len() as int), from, to)
    } else {
        seq![s[0]] + replace_all(s.skip(1), from, to)
    }
}

/// `s` cut at its first `sep` into exactly two parts, where splitting on
/// `sep` (as `str::split` does) yields exactly two parts.
pub open spec fn split2(s: Seq<char>, sep: Seq<char>) -> Option<(Seq<char>, Seq<char>)> {
    match find(s, sep) {
        Some(i) => if find_from(s, sep, i + sep.len()) is None {
            Some((s.subrange(0, i), s.subrange(i + sep.len(), s.len() as int)))
        } else {
            None
        },
        None => None,
    }
}

/// `s` ends with a line break written out as a backslash followed by `n`.
pub open spec fn ends_with_escaped_break(s: Seq<char>) -> bool {
    s.len() >= 2 && s[s.len() - 2] == '\\' && s.last() == 'n'
}

/// No line break in `s` is written out as a backslash followed by `n`.
pub open spec fn no_escaped_break(s: Seq<char>) -> bool {
    forall|i: int| 0 <= i < s.len() - 1 ==> !(#[trigger] s[i] == '\\' && s[i + 1] == 'n')
}

/// The lines of `s`: the parts between its line breaks, where a line break
/// is a `'\n'` character or a backslash followed by `n` (a line break as an
/// escaped text writes it).
pub open spec fn lines(s: Seq<char>) -> Seq<Seq<char>>
    decreases s.len(),
{
    if s.len() == 0 {
        seq![Seq::<char>::empty()]
    } else if s.last() == '\n' {
        lines(s.drop_last()).push(Seq::<char>::empty())
    } else if ends_with_escaped_break(s) {
        lines(s.subrange(0, s.len() - 2)).push(Seq::<char>::empty())
    } else {
        let l = lines(s.drop_last());
        l.update(l.len() - 1, l.last().push(s.last()))
    }
}

/// The pieces of `parts` joined with `sep` between them (what `join` gives).
pub open spec fn join(parts: Seq<Seq<char>>, sep: Seq<char>) -> Seq<char>
    decreases parts.len(),
{
    if parts.len() == 0 {
        Seq::<char>::empty()
    } else if parts.len() == 1 {
        parts[0]
    } else {
        join(parts.drop_last(), sep) + sep + parts.last()
    }
}

/// The decimal digits of `n` (what `to_string` gives for an unsigned integer).
pub open spec fn decimal(n: nat) -> Seq<char>
    decreases n,
{
    if n < 10 {
        seq![digit_char(n)]
    } else {
        decimal(n / 10).push(digit_char(n % 10))
    }
}

pub open spec fn digit_char(d: nat) -> char {
    (('0' as u32) + d) as char
}

pub proof fn lemma_lines_nonempty(s: Seq<char>)
    ensures
        lines(s).len() >= 1,
    decreases s.len(),
{
    if s.len() > 0 {
        lemma_lines_nonempty(s.drop_last());
        if s.len() >= 2 {
            lemma_lines_nonempty(s.subrange(0, s.len() - 2));
        }
    }
}

/// A `String` holding the characters of `v`.
#[verifier::external_body]
pub(crate) fn string_of(v: &Vec<char>) -> (s: String)
    ensures
        s@ == v@,
{
    String::from_iter(v.iter())
}

/// The characters of `s`.
pub fn chars_of(s: &str) -> (v: Vec<char>)
    ensures
        v@ == s@,
{
    let mut v: Vec<char> = Vec::new();
    let mut chars = s.chars();
    proof {
        broadcast use vstd::string::axiom_spec_iter;
        assert(vstd::std_specs::iter::IteratorSpec::remaining(&chars) == s@);
    }
    loop
        invariant
            v@ + vstd::std_specs::iter::IteratorSpec::remaining(&chars) == s@,
        ensures
            v@ == s@,
        decreases s@.len() - v@.len(),
    {
        let ghost before = vstd::std_specs::iter::IteratorSpec::remaining(&chars);
        match chars.next() {
            Some(c) => {
                proof {
                    broadcast use vstd::string::next_postcondition;
                    assert(v@.push(c) + vstd::std_specs::iter::IteratorSpec::remaining(&chars) =~= v@ + before);
                }
                v.push(c);
            },
            None => {
                proof {
                    broadcast use vstd::string::next_postcondition;
                    assert(v@ =~= s@);
                }
                break;
            },
        }
    }
    v
}

pub fn is_whitespace(c: char) -> (b: bool)
    ensures
        b == is_ws(c),
{
    let u = c as u32;
    (0x09 <= u && u <= 0x0D) || u == 0x20 || u == 0x85 || u == 0xA0 || u == 0x1680 || (0x2000
        <= u && u <= 0x200A) || u == 0x2028 || u == 0x2029 || u == 0x202F || u == 0x205F || u
        == 0x3000
}

/// The characters of `s` from `lo` up to `hi`.
pub fn slice(s: &Vec<char>, lo: usize, hi: usize) -> (r: Vec<char>)
    requires
        lo <= hi <= s.len(),
    ensures
        r@ == s@.subrange(lo as int, hi as int),
{
    let mut r: Vec<char> = Vec::new();
    let mut i = lo;
    while i < hi
        invariant
            lo <= i <= hi <= s.len(),
            r@ == s@.subrange(lo as int, i as int),
        decreases hi - i,
    {
        r.push(s[i]);
        i = i + 1;
    }
    r
}

proof fn lemma_trim_left_step(s: Seq<char>, i: int)
    requires
        0 <= i < s.len(),
        is_ws(s[i]),
    ensures
        trim_left(s.subrange(i, s.len() as int)) == trim_left(s.subrange(i + 1, s.len() as int)),
{
    assert(s.subrange(i, s.len() as int).drop_first() =~= s.subrange(i + 1, s.len() as int));
}

proof fn lemma_trim_right_step(s: Seq<char>, lo: int, hi: int)
    requires
        0 <= lo < hi <= s.len(),
        is_ws(s[hi - 1]),
    ensures
        trim_right(s.subrange(lo, hi)) == trim_right(s.subrange(lo, hi - 1)),
{
    assert(s.subrange(lo, hi).drop_last() =~= s.subrange(lo, hi - 1));
}

/// `s` without leading and trailing whitespace.
pub fn trim_chars(s: &Vec<char>) -> (r: Vec<char>)
    ensures
        r@ == trim(s@),
{
    let n = s.len();
    let mut lo: usize = 0;
    proof {
        assert(s@.subrange(0, n as int) =~= s@);
    }
    while lo < n && is_whitespace(s[lo])
        invariant
            lo <= n == s.len(),
            trim_left(s@) == trim_left(s@.subrange(lo as int, n as int)),
        decreases n - lo,
    {
        proof {
            lemma_trim_left_step(s@, lo as int);
        }
        lo = lo + 1;
    }
    let ghost t = s@.subrange(lo as int, n as int);
    assert(trim_left(s@) == t);
    let mut hi: usize = n;
    while hi > lo && is_whitespace(s[hi - 1])
        invariant
            lo <= hi <= n == s.len(),
            t == s@.subrange(lo as int, n as int),
            trim_right(t) == trim_right(s@.subrange(lo as int, hi as int)),
        decreases hi - lo,
    {
        proof {
            lemma_trim_right_step(s@, lo as int, hi as int);
        }
        hi = hi - 1;
    }
    assert(trim_right(s@.subrange(lo as int, hi as int)) == s@.subrange(lo as int, hi as int));
    slice(s, lo, hi)
}

/// Whether `p` occurs in `s` at index `i`.
pub fn matches_at_exec(s: &Vec<char>, p: &Vec<char>, i: usize) -> (b: bool)
    ensures
        b == matches_at(s@, p@, i as int),
{
    if i > s.len() || p.len() > s.len() - i {
        return false;
    }
    let mut j: usize = 0;
    while j < p.len()
        invariant
            i + p.len() <= s.len(),
            j <= p.len(),
            forall|k: int| 0 <= k < j ==> s@[i + k] == p@[k],
        decreases p.len() - j,
    {
        if s[i + j] != p[j] {
            proof {
                assert(s@.subrange(i as int, i + p.len())[j as int] != p@[j as int]);
            }
            return false;
        }
        j = j + 1;
    }
    proof {
        assert(s@.subrange(i as int, i + p.len()) =~= p@);
    }
    true
}

/// The leftmost occurrence of `p` in `s` at or after `start`.
pub fn find_from_exec(s: &Vec<char>, p: &Vec<char>, start: usize) -> (r: Option<usize>)
    ensures
        r matches Some(i) ==> find_from(s@, p@, start as int) == Some(i as int),
        r is None ==> find_from(s@, p@, start as int) is None,
{
    if p.len() > s.len() || start > s.len() - p.len() {
        return None;
    }
    let last = s.len() - p.len();
    let mut i = start;
    loop
        invariant
            start <= i <= last,
            last + p.len() == s.len(),
            find_from(s@, p@, start as int) == find_from(s@, p@, i as int),
        decreases last - i,
    {
        if matches_at_exec(s, p, i) {
            return Some(i);
        }
        if i == last {
            assert(find_from(s@, p@, i + 1) is None);
            return None;
        }
        i = i + 1;
    }
}

/// The rightmost occurrence of `p` in `s`.
pub fn rfind_exec(s: &Vec<char>, p: &Vec<char>) -> (r: Option<usize>)
    ensures
        r matches Some(i) ==> rfind(s@, p@) == Some(i as int),
        r is None ==> rfind(s@, p@) is None,
{
    if p.len() > s.len() {
        proof {
            assert(rfind_upto(s@, p@, s@.len() - p@.len()) is None);
        }
        return None;
    }
    let mut k: usize = s.len() - p.len();
    loop
        invariant
            k <= s.len() - p.len(),
            p.len() <= s.len(),
            rfind(s@, p@) == rfind_upto(s@, p@, k as int),
        decreases k,
    {
        if matches_at_exec(s, p, k) {
            return Some(k);
        }
        if k == 0 {
            assert(rfind_upto(s@, p@, -1) is None);
            return None;
        }
        k = k - 1;
    }
}

/// Whether `p` occurs in `s`.
pub fn contains_exec(s: &Vec<char>, p: &Vec<char>) -> (b: bool)
    ensures
        b == contains(s@, p@),
{
    find_from_exec(s, p, 0).is_some()
}

/// `s` with every non-overlapping occurrence of `from` replaced by `to`.
pub fn replace_all_exec(s: &Vec<char>, from: &Vec<char>, to: &Vec<char>) -> (r: Vec<char>)
    requires
        from.len() > 0,
    ensures
        r@ == replace_all(s@, from@, to@),
{
    let mut r: Vec<char> = Vec::new();
    let mut i: usize = 0;
    proof {
        assert(s@.skip(0) =~= s@);
        assert(r@ + replace_all(s@.skip(0), from@, to@) =~= replace_all(s@, from@, to@));
    }
    while i < s.len()
        invariant
            i <= s.len(),
            from.len() > 0,
            replace_all(s@, from@, to@) == r@ + replace_all(s@.skip(i as int), from@, to@),
        decreases s.len() - i,
    {
        let ghost rest = s@.skip(i as int);
        if matches_at_exec(s, from, i) {
            proof {
                assert(rest.subrange(0, from@.len() as int) =~= s@.subrange(
                    i as int,
                    i + from@.len(),
                ));
                assert(starts_with(rest, from@));
                assert(rest.skip(from@.len() as int) =~= s@.skip(i + from@.len()));
            }
            let mut j: usize = 0;
            let ghost r0 = r@;
            while j < to.len()
                invariant
                    j <= to.len(),
                    r@ == r0 + to@.subrange(0, j as int),
                decreases to.len() - j,
            {
                r.push(to[j]);
                j = j + 1;
                proof {
                    assert(r@ =~= r0 + to@.subrange(0, j as int));
                }
            }
            proof {
                assert(to@.subrange(0, to@.len() as int) =~= to@);
                assert(r0 + (to@ + replace_all(s@.skip(i + from@.len()), from@, to@)) =~= r@
                    + replace_all(s@.skip(i + from@.len()), from@, to@));
            }
            i = i + from.len();
        } else {
            proof {
                if starts_with(rest, from@) {
                    assert(rest.subrange(0, from@.len() as int) =~= s@.subrange(
                        i as int,
                        i + from@.len(),
                    ));
                }
                assert(rest.skip(1) =~= s@.skip(i + 1));
                assert(rest[0] == s@[i as int]);
            }
            let ghost r0 = r@;
            r.push(s[i]);
            proof {
                assert(r0 + (seq![s@[i as int]] + replace_all(s@.skip(i + 1), from@, to@))
                    =~= r@ + replace_all(s@.skip(i + 1), from@, to@));
            }
            i = i + 1;
        }
    }
    proof {
        assert(s@.skip(i as int).len() == 0);
        assert(r@ + s@.skip(i as int) =~= r@);
    }
    r
}

/// `s` cut into its two parts around `sep`, where splitting on `sep` gives exactly two.
pub fn split2_exec(s: &Vec<char>, sep: &Vec<char>) -> (r: Option<(Vec<char>, Vec<char>)>)
    ensures
        match r {
            Some((a, b)) => split2(s@, sep@) == Some((a@, b@)),
            None => split2(s@, sep@) is None,
        },
{
    let n = s.len();
    match find_from_exec(s, sep, 0) {
        Some(i) => {
            proof {
                lemma_find_from_matches(s@, sep@, 0);
                assert(matches_at(s@, sep@, i as int));
                assert(i + sep@.len() <= s@.len());
            }
            match find_from_exec(s, sep, i + sep.len()) {
                Some(_) => None,
                None => {
                    let a = slice(s, 0, i);
                    let b = slice(s, i + sep.len(), n);
                    Some((a, b))
                },
            }
        },
        None => None,
    }
}

pub proof fn lemma_find_from_matches(s: Seq<char>, p: Seq<char>, start: int)
    ensures
        find_from(s, p, start) matches Some(i) ==> start <= i && matches_at(s, p, i),
    decreases s.len() + 1 - start,
{
    if !(start < 0 || start + p.len() > s.len()) && !matches_at(s, p, start) {
        lemma_find_from_matches(s, p, start + 1);
    }
}

pub proof fn lemma_rfind_matches(s: Seq<char>, p: Seq<char>, k: int)
    ensures
        rfind_upto(s, p, k) matches Some(i) ==> i <= k && matches_at(s, p, i),
    decreases k + 1,
{
    if k >= 0 && !matches_at(s, p, k) {
        lemma_rfind_matches(s, p, k - 1);
    }
}

/// The decimal digits of `n`.
pub fn decimal_exec(n: u64) -> (r: Vec<char>)
    ensures
        r@ == decimal(n as nat),
    decreases n,
{
    if n < 10 {
        let c = char_of_digit(n);
        let mut r: Vec<char> = Vec::new();
        r.push(c);
        proof {
            assert(r@ =~= seq![digit_char(n as nat)]);
        }
        r
    } else {
        let mut r = decimal_exec(n / 10);
        r.push(char_of_digit(n % 10));
        r
    }
}

fn char_of_digit(d: u64) -> (c: char)
    requires
        d < 10,
    ensures
        c == digit_char(d as nat),
{
    if d == 0 { '0' }
    else if d == 1 { '1' }
    else if d == 2 { '2' }
    else if d == 3 { '3' }
    else if d == 4 { '4' }
    else if d == 5 { '5' }
    else if d == 6 { '6' }
    else if d == 7 { '7' }
    else if d == 8 { '8' }
    else { '9' }
}

proof fn lemma_join_extend_last(p: Seq<Seq<char>>, sep: Seq<char>, t: Seq<char>)
    requires
        p.len() >= 1,
    ensures
        join(p.update(p.len() - 1, p.last() + t), sep) == join(p, sep) + t,
{
    let q = p.update(p.len() - 1, p.last() + t);
    if p.len() == 1 {
        assert(q[0] == p[0] + t);
    } else {
        assert(q.drop_last() =~= p.drop_last());
        assert(join(p, sep) + t =~= join(p.drop_last(), sep) + sep + (p.last() + t));
    }
}

/// The lines of two texts joined by a line break are the lines of the first
/// followed by those of the second.
pub proof fn lemma_lines_concat(x: Seq<char>, y: Seq<char>)
    ensures
        lines(x + seq!['\n'] + y) == lines(x) + lines(y),
    decreases y.len(),
{
    let w = x + seq!['\n'] + y;
    if y.len() == 0 {
        assert(w.drop_last() =~= x);
        assert(lines(x) + lines(y) =~= lines(x).push(Seq::<char>::empty()));
    } else if y.last() == '\n' {
        let y1 = y.drop_last();
        assert(w.drop_last() =~= x + seq!['\n'] + y1);
        lemma_lines_concat(x, y1);
        assert(lines(x) + lines(y) =~= (lines(x) + lines(y1)).push(Seq::<char>::empty()));
    } else if ends_with_escaped_break(y) {
        let y2 = y.subrange(0, y.len() - 2);
        assert(w[w.len() - 2] == y[y.len() - 2]);
        assert(w.subrange(0, w.len() - 2) =~= x + seq!['\n'] + y2);
        lemma_lines_concat(x, y2);
        assert(lines(x) + lines(y) =~= (lines(x) + lines(y2)).push(Seq::<char>::empty()));
    } else {
        let y1 = y.drop_last();
        assert(w.drop_last() =~= x + seq!['\n'] + y1);
        if y.len() >= 2 {
            assert(w[w.len() - 2] == y[y.len() - 2]);
        } else {
            assert(w[w.len() - 2] == '\n');
        }
        assert(!ends_with_escaped_break(w));
        lemma_lines_concat(x, y1);
        lemma_lines_nonempty(y1);
        let a = lines(x);
        let b = lines(y1);
        let l = a + b;
        assert(l.update(l.len() - 1, l.last().push(y.last())) =~= a + b.update(b.len() - 1, b.last().push(y.last())));
    }
}

/// Joining the lines of a text with `"\n"` gives the text back, where the
/// text writes no line break as a backslash followed by `n`.
pub proof fn lemma_join_lines(s: Seq<char>)
    requires
        no_escaped_break(s),
    ensures
        join(lines(s), seq!['\n']) == s,
    decreases s.len(),
{
    if s.len() == 0 {
        assert(join(lines(s), seq!['\n']) =~= s);
    } else {
        let t = s.drop_last();
        assert(no_escaped_break(t)) by {
            assert forall|i: int| 0 <= i < t.len() - 1 implies !(#[trigger] t[i] == '\\' && t[i + 1] == 'n') by {
                assert(t[i] == s[i] && t[i + 1] == s[i + 1]);
            }
        }
        if s.len() >= 2 {
            assert(!(s[s.len() - 2] == '\\' && s[s.len() - 1] == 'n'));
        }
        lemma_join_lines(t);
        lemma_lines_nonempty(t);
        let l = lines(t);
        if s.last() == '\n' {
            let m = l.push(Seq::<char>::empty());
            assert(m.drop_last() =~= l);
            assert(join(m, seq!['\n']) =~= t + seq!['\n'] + Seq::<char>::empty());
            assert(t + seq!['\n'] =~= s);
        } else {
            assert(l.last().push(s.last()) =~= l.last() + seq![s.last()]);
            lemma_join_extend_last(l, seq!['\n'], seq![s.last()]);
            assert(t + seq![s.last()] =~= s);
        }
    }
}

proof fn lemma_trim_left_suffix(s: Seq<char>)
    ensures
        exists|k: int| 0 <= k <= s.len() && trim_left(s) == s.subrange(k, s.len() as int),
        trim_left(s).len() == 0 || !is_ws(trim_left(s)[0]),
    decreases s.len(),
{
    if s.len() > 0 && is_ws(s[0]) {
        lemma_trim_left_suffix(s.drop_first());
        let k = choose|k: int| 0 <= k <= s.drop_first().len() && trim_left(s.drop_first()) == s.drop_first().subrange(k, s.drop_first().len() as int);
        assert(s.drop_first().subrange(k, s.drop_first().len() as int) =~= s.subrange(k + 1, s.len() as int));
    } else {
        assert(s.subrange(0, s.len() as int) =~= s);
    }
}

proof fn lemma_trim_right_prefix(s: Seq<char>)
    ensures
        exists|k: int| 0 <= k <= s.len() && trim_right(s) == s.subrange(0, k),
        trim_right(s).len() == 0 || !is_ws(trim_right(s).last()),
        trim_right(trim_right(s)) == trim_right(s),
    decreases s.len(),
{
    if s.len() > 0 && is_ws(s.last()) {
        lemma_trim_right_prefix(s.drop_last());
        let k = choose|k: int| 0 <= k <= s.drop_last().len() && trim_right(s.drop_last()) == s.drop_last().subrange(0, k);
        assert(s.drop_last().subrange(0, k) =~= s.subrange(0, k));
    } else {
        assert(s.subrange(0, s.len() as int) =~= s);
    }
}

/// Trimming a trimmed text changes nothing.
pub proof fn lemma_trim_idempotent(s: Seq<char>)
    ensures
        trim(trim(s)) == trim(s),
{
    let x = trim_left(s);
    lemma_trim_left_suffix(s);
    lemma_trim_right_prefix(x);
    let y = trim_right(x);
    let k = choose|k: int| 0 <= k <= x.len() && y == x.subrange(0, k);
    if y.len() > 0 {
        assert(y[0] == x[0]);
    }
    assert(trim_left(y) == y);
}

} // verus!
