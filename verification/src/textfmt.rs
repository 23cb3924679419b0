//! Decimal rendering, left-padding, and whitespace-aware text helpers
//! shared by the line-oriented utilities.

use vstd::prelude::*;
use vstd::string::*;

verus! {

/// The character for one decimal digit.
pub open spec fn digit_char(d: nat) -> char {
    if d == 0 {
        '0'
    } else if d == 1 {
        '1'
    } else if d == 2 {
        '2'
    } else if d == 3 {
        '3'
    } else if d == 4 {
        '4'
    } else if d == 5 {
        '5'
    } else if d == 6 {
        '6'
    } else if d == 7 {
        '7'
    } else if d == 8 {
        '8'
    } else {
        '9'
    }
}

/// The decimal numeral of `n`, most significant digit first, without
/// leading zeros (a single `0` for zero).
pub open spec fn dec_digits(n: nat) -> Seq<char>
    decreases n,
{
    if n < 10 {
        seq![digit_char(n)]
    } else {
        dec_digits(n / 10) + seq![digit_char(n % 10)]
    }
}

/// `k` spaces.
pub open spec fn spaces(k: int) -> Seq<char>
    decreases k,
{
    if k <= 0 {
        Seq::empty()
    } else {
        spaces(k - 1) + seq![' ']
    }
}

/// `s` left-padded with spaces to width `w` (unchanged when already as
/// wide).
pub open spec fn pad_left(s: Seq<char>, w: int) -> Seq<char> {
    spaces(w - s.len()) + s
}

/// One decimal digit as text.
fn digit_str(d: usize) -> (r: &'static str)
    requires
        d < 10,
    ensures
        r@ == seq![digit_char(d as nat)],
{
    proof {
        reveal_strlit("0");
        reveal_strlit("1");
        reveal_strlit("2");
        reveal_strlit("3");
        reveal_strlit("4");
        reveal_strlit("5");
        reveal_strlit("6");
        reveal_strlit("7");
        reveal_strlit("8");
        reveal_strlit("9");
    }
    if d == 0 {
        proof {
            assert("0"@ =~= seq!['0']);
        }
        "0"
    } else if d == 1 {
        proof {
            assert("1"@ =~= seq!['1']);
        }
        "1"
    } else if d == 2 {
        proof {
            assert("2"@ =~= seq!['2']);
        }
        "2"
    } else if d == 3 {
        proof {
            assert("3"@ =~= seq!['3']);
        }
        "3"
    } else if d == 4 {
        proof {
            assert("4"@ =~= seq!['4']);
        }
        "4"
    } else if d == 5 {
        proof {
            assert("5"@ =~= seq!['5']);
        }
        "5"
    } else if d == 6 {
        proof {
            assert("6"@ =~= seq!['6']);
        }
        "6"
    } else if d == 7 {
        proof {
            assert("7"@ =~= seq!['7']);
        }
        "7"
    } else if d == 8 {
        proof {
            assert("8"@ =~= seq!['8']);
        }
        "8"
    } else {
        proof {
            assert("9"@ =~= seq!['9']);
        }
        "9"
    }
}

/// Renders `n` as its decimal numeral.
pub fn dec_string(n: usize) -> (r: String)
    ensures
        r@ == dec_digits(n as nat),
    decreases n,
{
    if n < 10 {
        digit_str(n).to_owned()
    } else {
        let mut s = dec_string(n / 10);
        s.append(digit_str(n % 10));
        s
    }
}

/// Left-pads `s` with spaces to width `w`.
pub fn pad_left_string(s: &str, w: usize) -> (r: String)
    ensures
        r@ == pad_left(s@, w as int),
{
    let len = s.unicode_len();
    let mut out = String::new();
    let mut k: usize = len;
    while k < w
        invariant
            len <= k,
            len == s@.len(),
            w > len ==> k <= w,
            w <= len ==> k == len,
            out@ == spaces(k - len),
        decreases w - k,
    {
        proof {
            reveal_strlit(" ");
            assert(" "@ =~= seq![' ']);
        }
        out.append(" ");
        k += 1;
    }
    proof {
        assert(out@ =~= spaces(w - s@.len()));
    }
    out.append(s);
    out
}

/// A character of the White_Space class, as word splitting and trimming
/// understand whitespace.
pub open spec fn is_wsp(c: char) -> bool {
    c == ' ' || c == '\t' || c == '\n' || c == '\u{b}' || c == '\u{c}' || c == '\r' || c
        == '\u{85}' || c == '\u{a0}' || c == '\u{1680}' || ('\u{2000}' <= c && c <= '\u{200a}')
        || c == '\u{2028}' || c == '\u{2029}' || c == '\u{202f}' || c == '\u{205f}' || c
        == '\u{3000}'
}

/// Whitespace test for one character.
pub fn is_whitespace_char(c: char) -> (r: bool)
    ensures
        r == is_wsp(c),
{
    c == ' ' || c == '\t' || c == '\n' || c == '\u{b}' || c == '\u{c}' || c == '\r' || c
        == '\u{85}' || c == '\u{a0}' || c == '\u{1680}' || (c >= '\u{2000}' && c <= '\u{200a}')
        || c == '\u{2028}' || c == '\u{2029}' || c == '\u{202f}' || c == '\u{205f}' || c
        == '\u{3000}'
}

/// Character-for-character string equality.
pub fn str_eq(a: &str, b: &str) -> (r: bool)
    ensures
        r == (a@ == b@),
{
    let n = a.unicode_len();
    if n != b.unicode_len() {
        return false;
    }
    let mut i: usize = 0;
    while i < n
        invariant
            i <= n,
            n == a@.len() == b@.len(),
            forall|j: int| 0 <= j < i ==> a@[j] == b@[j],
        decreases n - i,
    {
        if a.get_char(i) != b.get_char(i) {
            return false;
        }
        i += 1;
    }
    proof {
        assert(a@ =~= b@);
    }
    true
}

/// `s` without its trailing whitespace.
pub open spec fn trimmed_end(s: Seq<char>) -> Seq<char>
    decreases s.len(),
{
    if s.len() > 0 && is_wsp(s.last()) {
        trimmed_end(s.drop_last())
    } else {
        s
    }
}

/// Trimming keeps exactly the prefix up to the last non-whitespace
/// character.
proof fn lemma_trimmed_end_take(s: Seq<char>, k: int)
    requires
        0 <= k <= s.len(),
        forall|j: int| k <= j < s.len() ==> is_wsp(#[trigger] s[j]),
        k > 0 ==> !is_wsp(s[k - 1]),
    ensures
        trimmed_end(s) == s.subrange(0, k),
    decreases s.len() - k,
{
    if k == s.len() {
        assert(s.subrange(0, k) =~= s);
    } else {
        assert(is_wsp(s.last()));
        lemma_trimmed_end_take(s.drop_last(), k);
        assert(s.drop_last().subrange(0, k) =~= s.subrange(0, k));
    }
}

/// True iff `a` and `b` are equal once trailing whitespace is dropped —
/// how adjacent lines are compared when folding duplicates.
pub fn lines_match(a: &str, b: &str) -> (r: bool)
    ensures
        r == (trimmed_end(a@) == trimmed_end(b@)),
{
    let ka = trimmed_len(a);
    let kb = trimmed_len(b);
    if ka != kb {
        proof {
            assert(trimmed_end(a@).len() != trimmed_end(b@).len());
        }
        return false;
    }
    let mut i: usize = 0;
    while i < ka
        invariant
            i <= ka == kb,
            ka <= a@.len(),
            kb <= b@.len(),
            trimmed_end(a@) == a@.subrange(0, ka as int),
            trimmed_end(b@) == b@.subrange(0, kb as int),
            forall|j: int| 0 <= j < i ==> a@[j] == b@[j],
        decreases ka - i,
    {
        if a.get_char(i) != b.get_char(i) {
            proof {
                assert(trimmed_end(a@)[i as int] != trimmed_end(b@)[i as int]);
            }
            return false;
        }
        i += 1;
    }
    proof {
        assert(trimmed_end(a@) =~= trimmed_end(b@));
    }
    true
}

/// Length of `s` once trailing whitespace is dropped, with the fact that
/// trimming is exactly that prefix.
fn trimmed_len(s: &str) -> (r: usize)
    ensures
        r <= s@.len(),
        trimmed_end(s@) == s@.subrange(0, r as int),
{
    let n = s.unicode_len();
    let mut k: usize = n;
    while k > 0 && is_whitespace_char(s.get_char(k - 1))
        invariant
            k <= n == s@.len(),
            forall|j: int| k <= j < n ==> is_wsp(#[trigger] s@[j]),
        decreases k,
    {
        k -= 1;
    }
    proof {
        lemma_trimmed_end_take(s@, k as int);
    }
    k
}

} // verus!
