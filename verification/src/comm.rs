//! Comparing two sorted line streams: the three-column merge.
//!
//! Lines only in the first stream form column one, lines only in the
//! second column two (one delimiter before), lines in both column three
//! (two delimiters before); any column can be suppressed.  Case folding,
//! when asked for, is applied to the lines before merging, as the output
//! shows them.

use vstd::prelude::*;
use vstd::string::*;

verus! {

/// Three-way lexicographic comparison of character sequences, negative
/// when `a` comes first.
pub open spec fn lex_cmp(a: Seq<char>, b: Seq<char>) -> int
    decreases a.len(),
{
    if a.len() == 0 && b.len() == 0 {
        0
    } else if a.len() == 0 {
        -1
    } else if b.len() == 0 {
        1
    } else if a[0] < b[0] {
        -1
    } else if a[0] > b[0] {
        1
    } else {
        lex_cmp(a.drop_first(), b.drop_first())
    }
}

/// Lexicographic comparison: negative, zero or positive as `a` comes
/// before, equals or comes after `b`.
pub fn str_cmp(a: &str, b: &str) -> (r: i8)
    ensures
        r as int == lex_cmp(a@, b@),
{
    let na = a.unicode_len();
    let nb = b.unicode_len();
    let mut i: usize = 0;
    proof {
        assert(a@.skip(0) =~= a@);
        assert(b@.skip(0) =~= b@);
    }
    loop
        invariant
            i <= na == a@.len(),
            i <= nb == b@.len(),
            lex_cmp(a@, b@) == lex_cmp(a@.skip(i as int), b@.skip(i as int)),
        decreases na - i,
    {
        let ghost sa = a@.skip(i as int);
        let ghost sb = b@.skip(i as int);
        if i >= na && i >= nb {
            proof {
                assert(sa.len() == 0 && sb.len() == 0);
            }
            return 0;
        }
        if i >= na {
            proof {
                assert(sa.len() == 0 && sb.len() > 0);
            }
            return -1;
        }
        if i >= nb {
            return 1;
        }
        let ca = a.get_char(i);
        let cb = b.get_char(i);
        proof {
            assert(sa[0] == a@[i as int]);
            assert(sb[0] == b@[i as int]);
        }
        if ca < cb {
            return -1;
        }
        if ca > cb {
            return 1;
        }
        proof {
            assert(sa.drop_first() =~= a@.skip(i as int + 1));
            assert(sb.drop_first() =~= b@.skip(i as int + 1));
        }
        i += 1;
    }
}

/// What case folding makes of a text.
pub uninterp spec fn lower_of(s: Seq<char>) -> Seq<char>;

/// Relies on `str::to_lowercase`: the result depends on the characters
/// alone.
#[verifier::external_body]
fn lowercase(s: &str) -> (r: String)
    ensures
        r@ == lower_of(s@),
{
    s.to_lowercase()
}

/// The merged output from position `i` of `xs` and `j` of `ys` on: at
/// each step the lexicographically first head advances and prints in its
/// column — equal heads advance together into column three.
pub open spec fn spec_comm_from(
    xs: Seq<Seq<char>>,
    ys: Seq<Seq<char>>,
    i: int,
    j: int,
    show1: bool,
    show2: bool,
    show3: bool,
    delim: Seq<char>,
) -> Seq<char>
    decreases xs.len() - i + ys.len() - j,
{
    if i < 0 || j < 0 || (i >= xs.len() && j >= ys.len()) || i > xs.len() || j > ys.len() {
        Seq::empty()
    } else if j >= ys.len() || (i < xs.len() && lex_cmp(xs[i], ys[j]) < 0) {
        (if show1 {
            xs[i] + seq!['\n']
        } else {
            Seq::empty()
        }) + spec_comm_from(xs, ys, i + 1, j, show1, show2, show3, delim)
    } else if i >= xs.len() || lex_cmp(xs[i], ys[j]) > 0 {
        (if show2 {
            delim + ys[j] + seq!['\n']
        } else {
            Seq::empty()
        }) + spec_comm_from(xs, ys, i, j + 1, show1, show2, show3, delim)
    } else {
        (if show3 {
            delim + delim + xs[i] + seq!['\n']
        } else {
            Seq::empty()
        }) + spec_comm_from(xs, ys, i + 1, j + 1, show1, show2, show3, delim)
    }
}

/// The two streams, case-folded when asked.
pub open spec fn spec_comm_input(lines: Seq<Seq<char>>, ignore_case: bool) -> Seq<Seq<char>> {
    if ignore_case {
        lines.map_values(|s: Seq<char>| lower_of(s))
    } else {
        lines
    }
}

/// Case-folds every line when asked, else keeps them.
fn fold_lines(lines: &Vec<String>, ignore_case: bool) -> (r: Vec<String>)
    ensures
        r.deep_view() == spec_comm_input(lines.deep_view(), ignore_case),
{
    let ghost dv = lines.deep_view();
    if !ignore_case {
        let r = lines.clone();
        proof {
            assert(r.deep_view() =~= dv);
        }
        return r;
    }
    let mut out: Vec<String> = Vec::new();
    let mut i: usize = 0;
    let n = lines.len();
    while i < n
        invariant
            i <= n == lines@.len(),
            dv == lines.deep_view(),
            out.deep_view() =~= dv.map_values(|s: Seq<char>| lower_of(s)).take(i as int),
        decreases n - i,
    {
        proof {
            assert(dv.len() == lines@.len());
            assert(dv[i as int] == lines@[i as int]@);
        }
        let ghost out_old = out.deep_view();
        out.push(lowercase(lines[i].as_str()));
        proof {
            assert(out.deep_view() =~= out_old + seq![lower_of(dv[i as int])]);
            assert(out.deep_view() =~= dv.map_values(|s: Seq<char>| lower_of(s)).take(
                i as int + 1,
            ));
        }
        i += 1;
    }
    proof {
        assert(dv.map_values(|s: Seq<char>| lower_of(s)).take(n as int) =~= dv.map_values(
            |s: Seq<char>| lower_of(s),
        ));
    }
    out
}

/// Merges two sorted line streams into the three-column output: column
/// one the lines only in the first, column two (one delimiter) those only
/// in the second, column three (two delimiters) those in both; suppressed
/// columns print nothing.  Case folding, when asked, is applied first.
pub fn comm_merge(
    lines1: &Vec<String>,
    lines2: &Vec<String>,
    ignore_case: bool,
    show1: bool,
    show2: bool,
    show3: bool,
    delim: &str,
) -> (r: String)
    ensures
        r@ == spec_comm_from(
            spec_comm_input(lines1.deep_view(), ignore_case),
            spec_comm_input(lines2.deep_view(), ignore_case),
            0,
            0,
            show1,
            show2,
            show3,
            delim@,
        ),
{
    let xs = fold_lines(lines1, ignore_case);
    let ys = fold_lines(lines2, ignore_case);
    let ghost xv = xs.deep_view();
    let ghost yv = ys.deep_view();
    let n1 = xs.len();
    let n2 = ys.len();
    let mut out = String::new();
    let mut i: usize = 0;
    let mut j: usize = 0;
    proof {
        assert(Seq::<char>::empty() + spec_comm_from(xv, yv, 0, 0, show1, show2, show3, delim@)
            =~= spec_comm_from(xv, yv, 0, 0, show1, show2, show3, delim@));
    }
    while i < n1 || j < n2
        invariant
            i <= n1 == xv.len(),
            j <= n2 == yv.len(),
            xv == xs.deep_view(),
            yv == ys.deep_view(),
            spec_comm_from(xv, yv, 0, 0, show1, show2, show3, delim@) == out@ + spec_comm_from(
                xv,
                yv,
                i as int,
                j as int,
                show1,
                show2,
                show3,
                delim@,
            ),
        decreases n1 - i + n2 - j,
    {
        proof {
            assert(xv.len() == xs@.len());
            assert(yv.len() == ys@.len());
            if i < n1 {
                assert(xv[i as int] == xs@[i as int]@);
            }
            if j < n2 {
                assert(yv[j as int] == ys@[j as int]@);
            }
        }
        let ghost out_old = out@;
        let ghost here = spec_comm_from(xv, yv, i as int, j as int, show1, show2, show3, delim@);
        let which: i8 = if j >= n2 {
            -1
        } else if i >= n1 {
            1
        } else {
            str_cmp(xs[i].as_str(), ys[j].as_str())
        };
        if which < 0 {
            let ghost next = spec_comm_from(
                xv,
                yv,
                i as int + 1,
                j as int,
                show1,
                show2,
                show3,
                delim@,
            );
            if show1 {
                out.append(xs[i].as_str());
                proof {
                    reveal_strlit("\n");
                    assert("\n"@ =~= seq!['\n']);
                }
                out.append("\n");
                proof {
                    assert(out@ =~= out_old + (xv[i as int] + seq!['\n']));
                }
            }
            proof {
                assert(here == (if show1 {
                    xv[i as int] + seq!['\n']
                } else {
                    Seq::<char>::empty()
                }) + next);
                assert(out_old + here =~= out@ + next);
            }
            i += 1;
        } else if which > 0 {
            let ghost next = spec_comm_from(
                xv,
                yv,
                i as int,
                j as int + 1,
                show1,
                show2,
                show3,
                delim@,
            );
            if show2 {
                out.append(delim);
                out.append(ys[j].as_str());
                proof {
                    reveal_strlit("\n");
                    assert("\n"@ =~= seq!['\n']);
                }
                out.append("\n");
                proof {
                    assert(out@ =~= out_old + (delim@ + yv[j as int] + seq!['\n']));
                }
            }
            proof {
                assert(here == (if show2 {
                    delim@ + yv[j as int] + seq!['\n']
                } else {
                    Seq::<char>::empty()
                }) + next);
                assert(out_old + here =~= out@ + next);
            }
            j += 1;
        } else {
            let ghost next = spec_comm_from(
                xv,
                yv,
                i as int + 1,
                j as int + 1,
                show1,
                show2,
                show3,
                delim@,
            );
            if show3 {
                out.append(delim);
                out.append(delim);
                out.append(xs[i].as_str());
                proof {
                    reveal_strlit("\n");
                    assert("\n"@ =~= seq!['\n']);
                }
                out.append("\n");
                proof {
                    assert(out@ =~= out_old + (delim@ + delim@ + xv[i as int] + seq!['\n']));
                }
            }
            proof {
                assert(here == (if show3 {
                    delim@ + delim@ + xv[i as int] + seq!['\n']
                } else {
                    Seq::<char>::empty()
                }) + next);
                assert(out_old + here =~= out@ + next);
            }
            i += 1;
            j += 1;
        }
    }
    proof {
        assert(out@ + Seq::<char>::empty() =~= out@);
    }
    out
}

} // verus!
