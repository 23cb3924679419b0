//! The tail window: how many lines or bytes to take, and from where.
//!
//! A take size is `+0` (everything, from the start), a positive count
//! written with a leading `+` (start at that position), or a plain count
//! (the last so many).  A plain positive numeral means counting from the
//! end, so reading one negates it.

use vstd::prelude::*;
use vstd::string::*;

use crate::cut::{split_lines, lemma_split_lines_step, lemma_split_lines_whole};
use crate::ranges::{all_digits, digits_val, digits_in, lemma_digits_val_prefix,
    lemma_digits_val_step};
use crate::select::{lossy_decode, utf8_lossy};

verus! {

/// How much of an input the window takes.
#[derive(Clone, Copy, Debug, PartialEq, Eq, Structural)]
pub enum TakeSize {
    /// `+0`: the whole input, from its first position.
    PlusZero,
    /// A count: negative counts from the end, positive from the start.
    Num(i64),
}

/// Meaning of a signed decimal numeral: an optional sign, then digits,
/// within the machine's signed range.
pub open spec fn spec_parse_i64(s: Seq<char>) -> Option<int> {
    let signed = s.len() > 0 && (s[0] == '+' || s[0] == '-');
    let digits = if signed {
        s.drop_first()
    } else {
        s
    };
    let neg = s.len() > 0 && s[0] == '-';
    if digits.len() == 0 || !all_digits(digits) {
        None
    } else {
        let v = if neg {
            -(digits_val(digits) as int)
        } else {
            digits_val(digits) as int
        };
        if i64::MIN <= v <= i64::MAX {
            Some(v)
        } else {
            None
        }
    }
}

/// Meaning of a take-size option: `+0` is the whole input; otherwise a
/// signed numeral, negated when written as a plain positive count.
pub open spec fn spec_take_size(s: Seq<char>) -> Option<TakeSize> {
    if s == "+0"@ {
        Some(TakeSize::PlusZero)
    } else {
        match spec_parse_i64(s) {
            None => None,
            Some(v) => {
                let explicit = s.len() > 0 && s[0] == '+';
                Some(
                    TakeSize::Num(
                        if !explicit && v > 0 {
                            (-v) as i64
                        } else {
                            v as i64
                        },
                    ),
                )
            },
        }
    }
}

/// Reads the numeral in `s[lo..hi]` while it stays within `bound`;
/// `None` exactly when its value passes the bound.
fn numeral_within(s: &str, lo: usize, hi: usize, bound: u64) -> (r: Option<u64>)
    requires
        lo <= hi <= s@.len(),
        all_digits(s@.subrange(lo as int, hi as int)),
        bound >= 9,
    ensures
        match r {
            Some(v) => v == digits_val(s@.subrange(lo as int, hi as int)) && v <= bound,
            None => digits_val(s@.subrange(lo as int, hi as int)) > bound,
        },
{
    let ghost t = s@.subrange(lo as int, hi as int);
    let mut val: u64 = 0;
    let mut i: usize = lo;
    assert(s@.subrange(lo as int, lo as int) =~= Seq::<char>::empty());
    while i < hi
        invariant
            lo <= i <= hi <= s@.len(),
            t == s@.subrange(lo as int, hi as int),
            all_digits(t),
            bound >= 9,
            val == digits_val(s@.subrange(lo as int, i as int)),
            val <= bound,
        decreases hi - i,
    {
        let c = s.get_char(i);
        assert(t[i - lo] == s@[i as int]);
        assert(crate::ranges::is_digit(c));
        let d: u64 = ((c as u32) - 48) as u64;
        assert(d == crate::ranges::digit_val(s@[i as int]) && d <= 9);
        if val > (bound - d) / 10 {
            proof {
                let m = bound as int;
                let q = (m - d) / 10;
                assert(m - d == 10 * q + (m - d) % 10 && 0 <= (m - d) % 10 < 10) by {
                    vstd::arithmetic::div_mod::lemma_fundamental_div_mod(m - d as int, 10);
                }
                assert(val * 10 >= 10 * q + 10) by (nonlinear_arith)
                    requires
                        val as int > q,
                ;
                lemma_digits_val_step(s@, lo as int, i as int);
                assert(digits_val(s@.subrange(lo as int, i as int + 1)) > bound as nat);
                lemma_digits_val_prefix(t, i + 1 - lo);
                assert(t.subrange(0, i + 1 - lo) =~= s@.subrange(lo as int, i as int + 1));
            }
            return None;
        }
        proof {
            let m = bound as int;
            let q = (m - d) / 10;
            assert(m - d == 10 * q + (m - d) % 10 && 0 <= (m - d) % 10 < 10) by {
                vstd::arithmetic::div_mod::lemma_fundamental_div_mod(m - d as int, 10);
            }
            assert(val * 10 <= 10 * q) by (nonlinear_arith)
                requires
                    0 <= val as int <= q,
            ;
            lemma_digits_val_step(s@, lo as int, i as int);
        }
        val = val * 10 + d;
        i += 1;
    }
    Some(val)
}

impl TakeSize {
    /// Reads a take-size option, as `spec_take_size` gives its meaning.
    pub fn from_str(s: &str) -> (r: Option<TakeSize>)
        ensures
            r == spec_take_size(s@),
    {
        let n = s.unicode_len();
        if n == 2 && s.get_char(0) == '+' && s.get_char(1) == '0' {
            proof {
                reveal_strlit("+0");
                assert(s@ =~= "+0"@);
            }
            return Some(TakeSize::PlusZero);
        }
        proof {
            reveal_strlit("+0");
            if s@ == "+0"@ {
                assert(s@.len() == 2 && s@[0] == '+' && s@[1] == '0');
            }
        }
        let explicit_plus = n > 0 && s.get_char(0) == '+';
        let neg = n > 0 && s.get_char(0) == '-';
        let start: usize = if explicit_plus || neg {
            1
        } else {
            0
        };
        if start == n {
            return None;
        }
        if !digits_in(s, start, n) {
            proof {
                if start == 1 {
                    assert(s@.drop_first() =~= s@.subrange(1, n as int));
                } else {
                    assert(s@.subrange(0, n as int) =~= s@);
                }
            }
            return None;
        }
        proof {
            if start == 1 {
                assert(s@.drop_first() =~= s@.subrange(1, n as int));
            } else {
                assert(s@.subrange(0, n as int) =~= s@);
            }
        }
        let bound: u64 = if neg {
            (i64::MAX as u64) + 1
        } else {
            i64::MAX as u64
        };
        match numeral_within(s, start, n, bound) {
            None => None,
            Some(mag) => {
                let v: i64 = if neg {
                    if mag == (i64::MAX as u64) + 1 {
                        i64::MIN
                    } else {
                        -(mag as i64)
                    }
                } else {
                    mag as i64
                };
                assert(spec_parse_i64(s@) == Some(v as int));
                let w: i64 = if !explicit_plus && v > 0 {
                    -v
                } else {
                    v
                };
                Some(TakeSize::Num(w))
            },
        }
    }
}

/// First index of the window: nothing for an empty take or an empty input
/// or a count past the end; `+0` and over-long from-the-end counts start
/// at the beginning; a from-the-start count starts just before its
/// position.
pub open spec fn spec_start_index(t: TakeSize, total: int) -> Option<int> {
    match t {
        TakeSize::PlusZero => if total > 0 {
            Some(0)
        } else {
            None
        },
        TakeSize::Num(n) => {
            if n == 0 || total == 0 || n > total {
                None
            } else {
                let start = if n < 0 {
                    total + n
                } else {
                    n - 1
                };
                Some(
                    if start < 0 {
                        0
                    } else {
                        start
                    },
                )
            }
        },
    }
}

/// Computes the window's first index in a total of `total` items.
pub fn get_start_index(take_size: &TakeSize, total: i64) -> (r: Option<i64>)
    requires
        total >= 0,
    ensures
        match r {
            Some(v) => spec_start_index(*take_size, total as int) == Some(v as int),
            None => spec_start_index(*take_size, total as int) is None,
        },
{
    match take_size {
        TakeSize::PlusZero => {
            if total > 0 {
                Some(0)
            } else {
                None
            }
        },
        TakeSize::Num(n) => {
            let n = *n;
            if n == 0 || total == 0 || n > total {
                return None;
            }
            let start: i64 = if n < 0 {
                total + n
            } else {
                n - 1
            };
            Some(
                if start < 0 {
                    0
                } else {
                    start
                },
            )
        },
    }
}

/// Counts the lines and the bytes of one input.
pub fn get_lines_bytes(content: &[u8]) -> (r: (i64, i64))
    requires
        content@.len() <= i64::MAX,
    ensures
        r.0 == split_lines(content@).len(),
        r.1 == content@.len(),
{
    let n = content.len();
    let mut lines: usize = 0;
    let mut pos: usize = 0;
    proof {
        assert(content@.subrange(0, n as int) =~= content@);
    }
    while pos < n
        invariant
            pos <= n == content@.len(),
            lines <= pos,
            split_lines(content@).len() == lines + split_lines(
                content@.subrange(pos as int, n as int),
            ).len(),
        decreases n - pos,
    {
        let ghost tail = content@.subrange(pos as int, n as int);
        let mut k: usize = pos;
        while k < n && *vstd::slice::slice_index_get(content, k) != 10u8
            invariant
                pos <= k <= n <= content@.len(),
                forall|j: int| pos <= j < k ==> content@[j] != 10,
            decreases n - k,
        {
            k += 1;
        }
        let chunk_end: usize = if k < n {
            k + 1
        } else {
            n
        };
        proof {
            assert forall|j: int| 0 <= j < k - pos implies tail[j] != 10 by {
                assert(tail[j] == content@[j + pos]);
            }
            if k < n {
                assert(tail[k - pos] == content@[k as int]);
                lemma_split_lines_step(tail, k - pos);
                assert(tail.subrange(k - pos + 1, tail.len() as int) =~= content@.subrange(
                    chunk_end as int,
                    n as int,
                ));
            } else {
                lemma_split_lines_whole(tail);
                assert(content@.subrange(chunk_end as int, n as int) =~= Seq::<u8>::empty());
            }
        }
        lines += 1;
        pos = chunk_end;
    }
    proof {
        assert(content@.subrange(n as int, n as int) =~= Seq::<u8>::empty());
    }
    (lines as i64, n as i64)
}

/// Concatenated lossy decodings of the lines from index `i` on.
pub open spec fn concat_lossy_from(lines: Seq<Seq<u8>>, i: int) -> Seq<char>
    decreases lines.len() - i,
{
    if 0 <= i < lines.len() {
        lossy_decode(lines[i]) + concat_lossy_from(lines, i + 1)
    } else {
        Seq::empty()
    }
}

/// The line window: every stored line from the window's first index on,
/// each decoded lossily, in order; nothing when the window is empty.
pub fn print_lines(lines: &Vec<Vec<u8>>, count: &TakeSize, total_lines: i64) -> (r: String)
    requires
        total_lines >= 0,
        total_lines as int <= usize::MAX as int,
    ensures
        r@ == match spec_start_index(*count, total_lines as int) {
            None => Seq::<char>::empty(),
            Some(st) => concat_lossy_from(lines.deep_view(), st),
        },
{
    let ghost dv = lines.deep_view();
    match get_start_index(count, total_lines) {
        None => String::new(),
        Some(st) => {
            let stu: usize = st as usize;
            let mut out = String::new();
            let mut i: usize = stu;
            let n = lines.len();
            proof {
                assert(dv.len() == lines@.len());
                assert(Seq::<char>::empty() + concat_lossy_from(dv, st as int)
                    =~= concat_lossy_from(dv, st as int));
            }
            while i < n
                invariant
                    stu <= i,
                    n == lines@.len(),
                    dv == lines.deep_view(),
                    i >= n ==> concat_lossy_from(dv, i as int) == Seq::<char>::empty(),
                    concat_lossy_from(dv, stu as int) == out@ + concat_lossy_from(dv, i as int),
                decreases n - i,
            {
                proof {
                    assert(dv.len() == lines@.len());
                    assert(dv[i as int] == lines@[i as int]@);
                }
                let piece = utf8_lossy(lines[i].as_slice());
                let ghost out_old = out@;
                out.append(piece.as_str());
                proof {
                    assert(out@ =~= out_old + lossy_decode(dv[i as int]));
                    assert(out_old + (lossy_decode(dv[i as int]) + concat_lossy_from(
                        dv,
                        i as int + 1,
                    )) =~= out@ + concat_lossy_from(dv, i as int + 1));
                }
                i += 1;
            }
            proof {
                assert(out@ + Seq::<char>::empty() =~= out@);
            }
            out
        },
    }
}

/// The byte window: everything from the window's first byte on (from the
/// end of the input when the index lies past it), decoded lossily.
pub fn print_bytes(content: &[u8], count: &TakeSize, total_bytes: i64) -> (r: String)
    requires
        total_bytes >= 0,
        total_bytes as int <= usize::MAX as int,
    ensures
        r@ == match spec_start_index(*count, total_bytes as int) {
            None => Seq::<char>::empty(),
            Some(st) => lossy_decode(
                content@.subrange(
                    if st <= content@.len() {
                        st
                    } else {
                        content@.len() as int
                    },
                    content@.len() as int,
                ),
            ),
        },
{
    match get_start_index(count, total_bytes) {
        None => String::new(),
        Some(st) => {
            let n = content.len();
            let stu: usize = st as usize;
            let lo: usize = if stu > n {
                n
            } else {
                stu
            };
            utf8_lossy(vstd::slice::slice_subrange(content, lo, n))
        },
    }
}

} // verus!
