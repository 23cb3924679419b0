//! Half-open index intervals and the range-list grammar.
//!
//! A selection list such as `"1,3,5-7"` is a comma-separated sequence of
//! tokens; a bare numeral `n` selects the single index `n` (the interval
//! `[n, n+1)`) and a pair `a-b` with `a < b` selects `[a, b)`.  Intervals are
//! kept in declaration order, uncollapsed; membership of an index is
//! membership in the union.

use vstd::prelude::*;
use vstd::string::*;

verus! {

/// A half-open, zero-based index interval `[start, end)`.
///
/// A well-formed interval is never empty: `start < end`.
#[derive(Clone, Copy, Debug, PartialEq, Eq, Structural)]
pub struct Interval {
    pub start: usize,
    pub end: usize,
}

impl Interval {
    /// Well-formedness: the interval is non-empty.
    pub open spec fn wf(self) -> bool {
        self.start < self.end
    }

    /// Membership of index `i` in `[start, end)`.
    pub open spec fn spec_contains(self, i: int) -> bool {
        self.start <= i < self.end
    }
}

/// Membership of index `i` in the union of the intervals.
pub open spec fn in_ranges(ranges: Seq<Interval>, i: int) -> bool {
    exists|k: int| 0 <= k < ranges.len() && ranges[k].spec_contains(i)
}

/// Every interval of the sequence is well-formed.
pub open spec fn ranges_wf(ranges: Seq<Interval>) -> bool {
    forall|k: int| 0 <= k < ranges.len() ==> (#[trigger] ranges[k]).wf()
}

/// Decimal digit test.
pub open spec fn is_digit(c: char) -> bool {
    '0' <= c && c <= '9'
}

/// Numeric value of one decimal digit.
pub open spec fn digit_val(c: char) -> nat
    recommends
        is_digit(c),
{
    ((c as int) - ('0' as int)) as nat
}

/// The characters form a (possibly empty) run of decimal digits.
pub open spec fn all_digits(s: Seq<char>) -> bool {
    forall|i: int| 0 <= i < s.len() ==> is_digit(#[trigger] s[i])
}

/// Value of a digit run read as a base-10 numeral (0 for the empty run).
pub open spec fn digits_val(s: Seq<char>) -> nat
    decreases s.len(),
{
    if s.len() == 0 {
        0
    } else {
        digits_val(s.drop_last()) * 10 + digit_val(s.last())
    }
}

/// Index of the first occurrence of `c` in `s`, or `s.len()` if absent.
pub open spec fn find_char(s: Seq<char>, c: char) -> int
    decreases s.len(),
{
    if s.len() == 0 {
        0
    } else if s[0] == c {
        0
    } else {
        1 + find_char(s.drop_first(), c)
    }
}

/// `find_char` points at the first occurrence: nothing before it matches,
/// and it is in bounds exactly when `c` occurs at all.
pub proof fn lemma_find_char(s: Seq<char>, c: char)
    ensures
        0 <= find_char(s, c) <= s.len(),
        find_char(s, c) < s.len() ==> s[find_char(s, c)] == c,
        forall|i: int| 0 <= i < find_char(s, c) ==> s[i] != c,
    decreases s.len(),
{
    if s.len() != 0 && s[0] != c {
        lemma_find_char(s.drop_first(), c);
        assert forall|i: int| 0 <= i < find_char(s, c) implies s[i] != c by {
            if i > 0 {
                assert(s[i] == s.drop_first()[i - 1]);
            }
        }
    }
}

/// A scan that saw no `c` strictly before `k`, and `c` (or the end) at `k`,
/// found the first occurrence.
pub proof fn lemma_find_char_at(s: Seq<char>, c: char, k: int)
    requires
        0 <= k <= s.len(),
        forall|i: int| 0 <= i < k ==> s[i] != c,
        k < s.len() ==> s[k] == c,
    ensures
        find_char(s, c) == k,
    decreases s.len(),
{
    if s.len() != 0 && s[0] != c {
        lemma_find_char_at(s.drop_first(), c, k - 1);
    }
}

/// The comma-separated tokens of a list, in order.  The empty list yields
/// one empty token; a trailing comma yields a final empty token.
pub open spec fn split_list(s: Seq<char>) -> Seq<Seq<char>>
    decreases s.len(),
{
    if s.len() == 0 {
        seq![Seq::<char>::empty()]
    } else if s[0] == ',' {
        seq![Seq::<char>::empty()] + split_list(s.drop_first())
    } else {
        let r = split_list(s.drop_first());
        seq![seq![s[0]] + r[0]] + r.drop_first()
    }
}

/// `split_list` always yields at least one token.
pub proof fn lemma_split_list_len(s: Seq<char>)
    ensures
        split_list(s).len() >= 1,
    decreases s.len(),
{
    if s.len() != 0 {
        lemma_split_list_len(s.drop_first());
    }
}

/// A comma-free string is a single token.
pub proof fn lemma_split_list_whole(s: Seq<char>)
    requires
        forall|i: int| 0 <= i < s.len() ==> s[i] != ',',
    ensures
        split_list(s) =~~= seq![s],
    decreases s.len(),
{
    if s.len() != 0 {
        lemma_split_list_whole(s.drop_first());
        assert(seq![s[0]] + s.drop_first() =~= s);
    }
}

/// Splitting at the first comma: the head token is everything before it,
/// and the remaining tokens are those of the tail after it.
pub proof fn lemma_split_list_step(s: Seq<char>, k: int)
    requires
        0 <= k < s.len(),
        s[k] == ',',
        forall|i: int| 0 <= i < k ==> s[i] != ',',
    ensures
        split_list(s) =~~= seq![s.subrange(0, k)] + split_list(s.subrange(k + 1, s.len() as int)),
    decreases s.len(),
{
    lemma_split_list_len(s.subrange(k + 1, s.len() as int));
    if k == 0 {
        assert(s.drop_first() =~= s.subrange(1, s.len() as int));
    } else {
        lemma_split_list_step(s.drop_first(), k - 1);
        lemma_split_list_len(s.drop_first().subrange(k, s.len() - 1));
        assert(s.drop_first().subrange(0, k - 1) =~= s.subrange(0, k).drop_first());
        assert(s.drop_first().subrange(k, s.len() - 1) =~= s.subrange(k + 1, s.len() as int));
        assert(seq![s[0]] + s.subrange(0, k).drop_first() =~= s.subrange(0, k));
    }
}

/// Mathematical form of a range-list error.
pub enum RangeErrorView {
    /// A token does not match the numeral grammar; carries the token.
    Syntax(Seq<char>),
    /// A numeral does not fit the machine word; carries the numeral
    /// (for the second numeral of a pair, with its leading dash).
    Value(Seq<char>),
    /// A pair whose first bound is not strictly below its second.
    Order,
}

/// A range-list error: a token outside the grammar, a numeral too large
/// for the machine word, or a misordered pair.
#[derive(Debug)]
pub enum RangeError {
    /// A token does not match the numeral grammar; carries the token.
    Syntax(String),
    /// A numeral does not fit the machine word; carries the numeral.
    Value(String),
    /// A pair whose first bound is not strictly below its second.
    Order,
}

impl View for RangeError {
    type V = RangeErrorView;

    open spec fn view(&self) -> RangeErrorView {
        match self {
            RangeError::Syntax(t) => RangeErrorView::Syntax(t@),
            RangeError::Value(t) => RangeErrorView::Value(t@),
            RangeError::Order => RangeErrorView::Order,
        }
    }
}

/// The diagnostic text of a range-list error.
pub open spec fn spec_message(e: RangeErrorView) -> Seq<char> {
    match e {
        RangeErrorView::Syntax(t) => "invalid list value: \""@ + t + "\""@,
        RangeErrorView::Value(t) => "invalid value: \""@ + t + "\""@,
        RangeErrorView::Order => "first number in range must be lower than second"@,
    }
}

impl RangeError {
    /// The diagnostic text of this error; syntax and value errors name
    /// the offending token verbatim.
    pub fn message(&self) -> (r: String)
        ensures
            r@ == spec_message(self@),
    {
        match self {
            RangeError::Syntax(t) => {
                let mut m = String::from_str("invalid list value: \"");
                m.append(t.as_str());
                m.append("\"");
                m
            },
            RangeError::Value(t) => {
                let mut m = String::from_str("invalid value: \"");
                m.append(t.as_str());
                m.append("\"");
                m
            },
            RangeError::Order => String::from_str(
                "first number in range must be lower than second",
            ),
        }
    }
}

/// Meaning of one token: a bare numeral `n` is the interval `[n, n+1)`;
/// a pair `a-b` with `a < b` is `[a, b)`; anything else is an error.
/// A numeral whose value (for a bare token, whose successor) does not fit
/// the machine word is rejected as a value error.
pub open spec fn spec_parse_token(t: Seq<char>) -> Result<Interval, RangeErrorView> {
    let d = find_char(t, '-');
    if d == t.len() {
        if t.len() > 0 && all_digits(t) {
            if digits_val(t) < usize::MAX as nat {
                Ok(
                    Interval {
                        start: digits_val(t) as usize,
                        end: (digits_val(t) + 1) as usize,
                    },
                )
            } else {
                Err(RangeErrorView::Value(t))
            }
        } else {
            Err(RangeErrorView::Syntax(t))
        }
    } else {
        let a = t.subrange(0, d);
        let b = t.subrange(d + 1, t.len() as int);
        if a.len() > 0 && b.len() > 0 && all_digits(a) && all_digits(b) {
            if digits_val(a) > usize::MAX as nat {
                Err(RangeErrorView::Value(a))
            } else if digits_val(b) > usize::MAX as nat {
                Err(RangeErrorView::Value(t.subrange(d, t.len() as int)))
            } else if digits_val(a) >= digits_val(b) {
                Err(RangeErrorView::Order)
            } else {
                Ok(Interval { start: digits_val(a) as usize, end: digits_val(b) as usize })
            }
        } else {
            Err(RangeErrorView::Syntax(t))
        }
    }
}

/// Meaning of a token list: the intervals of the tokens in order, or the
/// first token's error.
pub open spec fn spec_parse_list(toks: Seq<Seq<char>>) -> Result<Seq<Interval>, RangeErrorView>
    decreases toks.len(),
{
    if toks.len() == 0 {
        Ok(Seq::empty())
    } else {
        match spec_parse_token(toks[0]) {
            Err(e) => Err(e),
            Ok(iv) => match spec_parse_list(toks.drop_first()) {
                Err(e) => Err(e),
                Ok(rest) => Ok(seq![iv] + rest),
            },
        }
    }
}

/// Meaning of a whole specification string: its comma-separated tokens,
/// parsed in order.
pub open spec fn spec_parse_ranges(s: Seq<char>) -> Result<Seq<Interval>, RangeErrorView> {
    spec_parse_list(split_list(s))
}

/// Prepends already-parsed intervals to the outcome of the remaining list.
pub open spec fn prepend_ok(
    v: Seq<Interval>,
    r: Result<Seq<Interval>, RangeErrorView>,
) -> Result<Seq<Interval>, RangeErrorView> {
    match r {
        Ok(w) => Ok(v + w),
        Err(e) => Err(e),
    }
}

/// Unfolds `spec_parse_list` over an explicit head token.
proof fn lemma_parse_list_cons(t: Seq<char>, rest: Seq<Seq<char>>)
    ensures
        spec_parse_list(seq![t] + rest) == match spec_parse_token(t) {
            Err(e) => Err::<Seq<Interval>, RangeErrorView>(e),
            Ok(iv) => match spec_parse_list(rest) {
                Err(e) => Err(e),
                Ok(vs) => Ok(seq![iv] + vs),
            },
        },
{
    let ts = seq![t] + rest;
    assert(ts[0] == t);
    assert(ts.drop_first() =~= rest);
}

/// A numeral's value only grows as digits are appended.
pub(crate) proof fn lemma_digits_val_prefix(s: Seq<char>, i: int)
    requires
        0 <= i <= s.len(),
    ensures
        digits_val(s.subrange(0, i)) <= digits_val(s),
    decreases s.len() - i,
{
    if i == s.len() {
        assert(s.subrange(0, i) =~= s);
    } else {
        lemma_digits_val_prefix(s.drop_last(), i);
        assert(s.drop_last().subrange(0, i) =~= s.subrange(0, i));
    }
}

/// One digit extends a numeral by a factor of ten.
pub(crate) proof fn lemma_digits_val_step(s: Seq<char>, lo: int, i: int)
    requires
        0 <= lo <= i < s.len(),
    ensures
        digits_val(s.subrange(lo, i + 1)) == digits_val(s.subrange(lo, i)) * 10 + digit_val(s[i]),
{
    assert(s.subrange(lo, i + 1).drop_last() =~= s.subrange(lo, i));
    assert(s.subrange(lo, i + 1).last() == s[i]);
}

/// Reads the numeral in `s[lo..hi]`; `None` exactly when its value
/// overflows the machine word.
fn numeral_value(s: &str, lo: usize, hi: usize) -> (r: Option<usize>)
    requires
        lo <= hi <= s@.len(),
        all_digits(s@.subrange(lo as int, hi as int)),
    ensures
        match r {
            Some(v) => v == digits_val(s@.subrange(lo as int, hi as int)),
            None => digits_val(s@.subrange(lo as int, hi as int)) > usize::MAX as nat,
        },
{
    let ghost t = s@.subrange(lo as int, hi as int);
    let mut val: usize = 0;
    let mut i: usize = lo;
    assert(s@.subrange(lo as int, lo as int) =~= Seq::<char>::empty());
    while i < hi
        invariant
            lo <= i <= hi <= s@.len(),
            t == s@.subrange(lo as int, hi as int),
            all_digits(t),
            val == digits_val(s@.subrange(lo as int, i as int)),
        decreases hi - i,
    {
        let c = s.get_char(i);
        assert(t[i - lo] == s@[i as int]);
        assert(is_digit(c));
        let d: usize = ((c as u32) - 48) as usize;
        assert(d == digit_val(s@[i as int]) && d <= 9);
        if val > (usize::MAX - d) / 10 {
            proof {
                let m = usize::MAX as int;
                let q = (m - d) / 10;
                assert(m - d == 10 * q + (m - d) % 10 && 0 <= (m - d) % 10 < 10) by {
                    vstd::arithmetic::div_mod::lemma_fundamental_div_mod(m - d as int, 10);
                }
                assert(val * 10 >= 10 * q + 10) by (nonlinear_arith)
                    requires
                        val as int > q,
                ;
                lemma_digits_val_step(s@, lo as int, i as int);
                assert(digits_val(s@.subrange(lo as int, i as int + 1)) > usize::MAX as nat);
                lemma_digits_val_prefix(t, i + 1 - lo);
                assert(t.subrange(0, i + 1 - lo) =~= s@.subrange(lo as int, i as int + 1));
            }
            return None;
        }
        proof {
            let m = usize::MAX as int;
            let q = (m - d) / 10;
            assert(m - d == 10 * q + (m - d) % 10 && 0 <= (m - d) % 10 < 10) by {
                vstd::arithmetic::div_mod::lemma_fundamental_div_mod(m - d as int, 10);
            }
            assert(val * 10 <= 10 * q) by (nonlinear_arith)
                requires
                    0 <= val as int <= q,
            ;
            lemma_digits_val_step(s@, lo as int, i as int);
        }
        val = val * 10 + d;
        i += 1;
    }
    Some(val)
}

/// True iff every character of `s[lo..hi]` is a decimal digit.
pub(crate) fn digits_in(s: &str, lo: usize, hi: usize) -> (r: bool)
    requires
        lo <= hi <= s@.len(),
    ensures
        r == all_digits(s@.subrange(lo as int, hi as int)),
{
    let ghost t = s@.subrange(lo as int, hi as int);
    let mut i: usize = lo;
    while i < hi
        invariant
            lo <= i <= hi <= s@.len(),
            t == s@.subrange(lo as int, hi as int),
            forall|j: int| 0 <= j < i - lo ==> is_digit(#[trigger] t[j]),
        decreases hi - i,
    {
        let c = s.get_char(i);
        assert(t[i - lo] == s@[i as int]);
        if c < '0' || c > '9' {
            assert(!is_digit(t[i - lo]));
            return false;
        }
        i += 1;
    }
    true
}

/// The token `s[lo..hi]` as an owned string.
fn token_string(s: &str, lo: usize, hi: usize) -> (r: String)
    requires
        lo <= hi <= s@.len(),
    ensures
        r@ == s@.subrange(lo as int, hi as int),
{
    s.substring_char(lo, hi).to_owned()
}

/// Parses one comma-free token of the selection list.
fn parse_token(s: &str, lo: usize, hi: usize) -> (r: Result<Interval, RangeError>)
    requires
        lo <= hi <= s@.len(),
    ensures
        match r {
            Ok(iv) => spec_parse_token(s@.subrange(lo as int, hi as int)) == Ok::<
                Interval,
                RangeErrorView,
            >(iv),
            Err(e) => spec_parse_token(s@.subrange(lo as int, hi as int)) == Err::<
                Interval,
                RangeErrorView,
            >(e@),
        },
{
    let ghost t = s@.subrange(lo as int, hi as int);
    // locate the first dash
    let mut d: usize = lo;
    while d < hi && s.get_char(d) != '-'
        invariant
            lo <= d <= hi <= s@.len(),
            forall|j: int| lo <= j < d ==> s@[j] != '-',
        decreases hi - d,
    {
        d += 1;
    }
    proof {
        assert forall|j: int| 0 <= j < d - lo implies t[j] != '-' by {
            assert(t[j] == s@[j + lo]);
        }
        if d < hi {
            assert(t[d - lo] == s@[d as int]);
        }
        lemma_find_char_at(t, '-', d - lo);
    }
    if d == hi {
        // bare numeral
        if lo == hi || !digits_in(s, lo, hi) {
            return Err(RangeError::Syntax(token_string(s, lo, hi)));
        }
        match numeral_value(s, lo, hi) {
            None => Err(RangeError::Value(token_string(s, lo, hi))),
            Some(n) => {
                if n == usize::MAX {
                    Err(RangeError::Value(token_string(s, lo, hi)))
                } else {
                    Ok(Interval { start: n, end: n + 1 })
                }
            },
        }
    } else {
        // pair: numerals on both sides of the dash
        proof {
            assert(t.subrange(0, d - lo) =~= s@.subrange(lo as int, d as int));
            assert(t.subrange(d - lo + 1, t.len() as int) =~= s@.subrange(
                d as int + 1,
                hi as int,
            ));
            assert(t.subrange(d - lo, t.len() as int) =~= s@.subrange(d as int, hi as int));
        }
        if d == lo || d + 1 == hi || !digits_in(s, lo, d) || !digits_in(s, d + 1, hi) {
            return Err(RangeError::Syntax(token_string(s, lo, hi)));
        }
        match numeral_value(s, lo, d) {
            None => Err(RangeError::Value(token_string(s, lo, d))),
            Some(a) => match numeral_value(s, d + 1, hi) {
                None => Err(RangeError::Value(token_string(s, d, hi))),
                Some(b) => {
                    if a >= b {
                        Err(RangeError::Order)
                    } else {
                        Ok(Interval { start: a, end: b })
                    }
                },
            },
        }
    }
}

/// Parses a comma-separated selection list, as `spec_parse_ranges` gives
/// its meaning: each token an interval, in declaration order, or the first
/// token's error.
pub fn parse_ranges(list: &str) -> (r: Result<Vec<Interval>, RangeError>)
    ensures
        match r {
            Ok(v) => spec_parse_ranges(list@) == Ok::<Seq<Interval>, RangeErrorView>(v@),
            Err(e) => spec_parse_ranges(list@) == Err::<Seq<Interval>, RangeErrorView>(e@),
        },
{
    let n = list.unicode_len();
    let mut out: Vec<Interval> = Vec::new();
    let mut pos: usize = 0;
    proof {
        assert(list@.subrange(0, n as int) =~= list@);
        assert(out@ + Seq::<Interval>::empty() =~= out@);
    }
    loop
        invariant
            pos <= n == list@.len(),
            spec_parse_ranges(list@) == prepend_ok(
                out@,
                spec_parse_list(split_list(list@.subrange(pos as int, n as int))),
            ),
        decreases n - pos,
    {
        let ghost tail = list@.subrange(pos as int, n as int);
        // locate the next comma
        let mut c: usize = pos;
        while c < n && list.get_char(c) != ','
            invariant
                pos <= c <= n <= list@.len(),
                forall|j: int| pos <= j < c ==> list@[j] != ',',
            decreases n - c,
        {
            c += 1;
        }
        proof {
            assert forall|j: int| 0 <= j < c - pos implies tail[j] != ',' by {
                assert(tail[j] == list@[j + pos]);
            }
            if c < n {
                assert(tail[c - pos] == list@[c as int]);
            }
        }
        let tok = parse_token(list, pos, c);
        proof {
            assert(tail.subrange(0, c - pos) =~= list@.subrange(pos as int, c as int));
        }
        if c == n {
            // last token
            proof {
                lemma_split_list_whole(tail);
                lemma_parse_list_cons(tail, Seq::empty());
                assert(seq![tail] + Seq::<Seq<char>>::empty() =~= seq![tail]);
            }
            match tok {
                Err(e) => {
                    return Err(e);
                },
                Ok(iv) => {
                    let ghost out_old = out@;
                    out.push(iv);
                    proof {
                        assert(out@ =~= out_old + seq![iv]);
                        assert(out_old + (seq![iv] + Seq::<Interval>::empty()) =~= out@);
                    }
                    return Ok(out);
                },
            }
        } else {
            proof {
                lemma_split_list_step(tail, c - pos);
                assert(tail.subrange(c - pos + 1, tail.len() as int) =~= list@.subrange(
                    c as int + 1,
                    n as int,
                ));
                lemma_parse_list_cons(
                    list@.subrange(pos as int, c as int),
                    split_list(list@.subrange(c as int + 1, n as int)),
                );
            }
            match tok {
                Err(e) => {
                    return Err(e);
                },
                Ok(iv) => {
                    let ghost out_old = out@;
                    out.push(iv);
                    proof {
                        assert(out@ =~= out_old + seq![iv]);
                        let rest = spec_parse_list(
                            split_list(list@.subrange(c as int + 1, n as int)),
                        );
                        if rest is Ok {
                            assert(out_old + (seq![iv] + rest->Ok_0) =~= out@ + rest->Ok_0);
                        }
                    }
                },
            }
            pos = c + 1;
        }
    }
}

/// The numeral grammar for one token: a bare digit run, or two digit runs
/// joined by a single dash.
pub open spec fn token_matches_grammar(t: Seq<char>) -> bool {
    let d = find_char(t, '-');
    if d == t.len() {
        t.len() > 0 && all_digits(t)
    } else {
        0 < d && d + 1 < t.len() && all_digits(t.subrange(0, d)) && all_digits(
            t.subrange(d + 1, t.len() as int),
        )
    }
}

/// A comma-free string is one token.
proof fn lemma_single_token(t: Seq<char>)
    requires
        forall|i: int| 0 <= i < t.len() ==> t[i] != ',',
    ensures
        spec_parse_ranges(t) == match spec_parse_token(t) {
            Ok(iv) => Ok::<Seq<Interval>, RangeErrorView>(seq![iv]),
            Err(e) => Err::<Seq<Interval>, RangeErrorView>(e),
        },
{
    lemma_split_list_whole(t);
    lemma_parse_list_cons(t, Seq::empty());
    assert(seq![t] + Seq::<Seq<char>>::empty() =~= seq![t]);
    if spec_parse_token(t) is Ok {
        assert(seq![spec_parse_token(t)->Ok_0] + Seq::<Interval>::empty() =~= seq![
            spec_parse_token(t)->Ok_0,
        ]);
    }
}

/// A bare numeral token `"n"` parses to the singleton interval `[n, n+1)`.
pub proof fn lemma_parse_single_numeral(t: Seq<char>)
    requires
        t.len() > 0,
        all_digits(t),
        digits_val(t) < usize::MAX as nat,
    ensures
        spec_parse_ranges(t) == Ok::<Seq<Interval>, RangeErrorView>(
            seq![
                Interval {
                    start: digits_val(t) as usize,
                    end: (digits_val(t) + 1) as usize,
                },
            ],
        ),
{
    lemma_find_char_at(t, '-', t.len() as int);
    lemma_single_token(t);
}

/// A pair token `"a-b"` with `a < b` parses to `[a, b)` verbatim.
pub proof fn lemma_parse_pair(a: Seq<char>, b: Seq<char>)
    requires
        a.len() > 0,
        b.len() > 0,
        all_digits(a),
        all_digits(b),
        digits_val(a) < digits_val(b),
        digits_val(b) <= usize::MAX as nat,
    ensures
        spec_parse_ranges(a + seq!['-'] + b) == Ok::<Seq<Interval>, RangeErrorView>(
            seq![Interval { start: digits_val(a) as usize, end: digits_val(b) as usize }],
        ),
{
    let t = a + seq!['-'] + b;
    lemma_pair_token_shape(a, b);
    lemma_single_token(t);
}

/// A pair token `"a-b"` with `a >= b` (whether equal or above) fails with
/// the ordering error.
pub proof fn lemma_parse_pair_misordered(a: Seq<char>, b: Seq<char>)
    requires
        a.len() > 0,
        b.len() > 0,
        all_digits(a),
        all_digits(b),
        digits_val(a) >= digits_val(b),
        digits_val(a) <= usize::MAX as nat,
        digits_val(b) <= usize::MAX as nat,
    ensures
        spec_parse_ranges(a + seq!['-'] + b) == Err::<Seq<Interval>, RangeErrorView>(
            RangeErrorView::Order,
        ),
{
    let t = a + seq!['-'] + b;
    lemma_pair_token_shape(a, b);
    lemma_single_token(t);
}

/// In `a + "-" + b` with digit runs `a` and `b`, the first dash sits right
/// after `a`, and the two sides read back as `a` and `b`.
proof fn lemma_pair_token_shape(a: Seq<char>, b: Seq<char>)
    requires
        a.len() > 0,
        b.len() > 0,
        all_digits(a),
        all_digits(b),
    ensures
        ({
            let t = a + seq!['-'] + b;
            &&& find_char(t, '-') == a.len()
            &&& t.subrange(0, a.len() as int) =~= a
            &&& t.subrange(a.len() as int + 1, t.len() as int) =~= b
            &&& forall|i: int| 0 <= i < t.len() ==> t[i] != ','
        }),
{
    let t = a + seq!['-'] + b;
    assert forall|i: int| 0 <= i < a.len() implies t[i] != '-' by {
        assert(t[i] == a[i]);
    }
    assert(t[a.len() as int] == '-');
    lemma_find_char_at(t, '-', a.len() as int);
    assert forall|i: int| 0 <= i < t.len() implies t[i] != ',' by {
        if i < a.len() {
            assert(t[i] == a[i]);
        } else if i > a.len() {
            assert(t[i] == b[i - a.len() - 1]);
        }
    }
}

/// Whatever parses, parses to well-formed intervals: every interval of a
/// successfully parsed list is non-empty, so a zero-width selection can
/// never be constructed.
pub proof fn lemma_parse_ranges_wf(s: Seq<char>)
    ensures
        spec_parse_ranges(s) is Ok ==> ranges_wf(spec_parse_ranges(s)->Ok_0),
{
    lemma_parse_list_wf(split_list(s));
}

proof fn lemma_parse_list_wf(toks: Seq<Seq<char>>)
    ensures
        spec_parse_list(toks) is Ok ==> ranges_wf(spec_parse_list(toks)->Ok_0),
    decreases toks.len(),
{
    if toks.len() != 0 && spec_parse_list(toks) is Ok {
        lemma_parse_list_wf(toks.drop_first());
        let iv = spec_parse_token(toks[0])->Ok_0;
        let rest = spec_parse_list(toks.drop_first())->Ok_0;
        assert forall|k: int| 0 <= k < 1 + rest.len() implies (#[trigger] (seq![iv]
            + rest)[k]).wf() by {
            if k > 0 {
                assert((seq![iv] + rest)[k] == rest[k - 1]);
            }
        }
    }
}

/// A comma-free token outside the numeral grammar fails with the syntax
/// error naming that token — this covers the empty token, a leading sign,
/// non-numeric characters, and malformed pairs.
pub proof fn lemma_parse_bad_token(t: Seq<char>)
    requires
        forall|i: int| 0 <= i < t.len() ==> t[i] != ',',
        !token_matches_grammar(t),
    ensures
        spec_parse_ranges(t) == Err::<Seq<Interval>, RangeErrorView>(RangeErrorView::Syntax(t)),
{
    lemma_find_char(t, '-');
    lemma_single_token(t);
}

/// True iff some interval of `ranges` contains the index `i`.
pub fn contains_index(ranges: &[Interval], i: usize) -> (r: bool)
    ensures
        r == in_ranges(ranges@, i as int),
{
    let mut k: usize = 0;
    while k < ranges.len()
        invariant
            k <= ranges@.len(),
            forall|j: int| 0 <= j < k ==> !(#[trigger] ranges@[j]).spec_contains(i as int),
        decreases ranges@.len() - k,
    {
        if ranges[k].start <= i && i < ranges[k].end {
            assert(ranges@[k as int].spec_contains(i as int));
            return true;
        }
        k += 1;
    }
    false
}

} // verus!
