//! Pattern search over lines.
//!
//! Matching itself is the regex crate's, behind trusted wrappers; which
//! lines are kept — match or, inverted, non-match, in input order — is
//! verified logic.

use vstd::prelude::*;
use vstd::string::*;

verus! {

/// The declared regex engine type; a compiled pattern is opaque here.
#[verifier::external_type_specification]
#[verifier::external_body]
pub struct ExRegex(regex::Regex);

/// Whether a pattern text (under the given case mode) compiles.
pub uninterp spec fn regex_valid(pattern: Seq<char>, case_insensitive: bool) -> bool;

/// Whether a pattern (under the given case mode) matches somewhere in a
/// text.
pub uninterp spec fn regex_match(pattern: Seq<char>, case_insensitive: bool, text: Seq<char>)
    -> bool;

/// A compiled pattern together with the text and case mode it was
/// compiled from.
pub struct Pattern {
    re: regex::Regex,
    pattern: String,
    case_insensitive: bool,
}

impl Pattern {
    /// The pattern text this was compiled from.
    pub closed spec fn spec_pattern(&self) -> Seq<char> {
        self.pattern@
    }

    /// The case mode this was compiled with.
    pub closed spec fn spec_ci(&self) -> bool {
        self.case_insensitive
    }
}

/// Relies on `regex::RegexBuilder::build`: whether a pattern compiles
/// depends on the pattern text and the case mode alone.
#[verifier::external_body]
fn compile(pattern: &str, case_insensitive: bool) -> (r: Result<Pattern, String>)
    ensures
        (r is Ok) == regex_valid(pattern@, case_insensitive),
        r is Ok ==> r.unwrap().spec_pattern() == pattern@ && r.unwrap().spec_ci()
            == case_insensitive,
{
    match regex::RegexBuilder::new(pattern).case_insensitive(case_insensitive).build() {
        Ok(re) => Ok(Pattern { re, pattern: pattern.to_string(), case_insensitive }),
        Err(e) => Err(e.to_string()),
    }
}

/// Relies on `regex::Regex::is_match`: the outcome is a function of the
/// pattern text, its case mode and the searched text alone.
#[verifier::external_body]
fn is_match(p: &Pattern, text: &str) -> (r: bool)
    ensures
        r == regex_match(p.spec_pattern(), p.spec_ci(), text@),
{
    p.re.is_match(text)
}

/// True iff the pattern text compiles under the given case mode.
pub fn pattern_is_valid(pattern: &str, case_insensitive: bool) -> (r: bool)
    ensures
        r == regex_valid(pattern@, case_insensitive),
{
    match compile(pattern, case_insensitive) {
        Ok(_) => true,
        Err(_) => false,
    }
}

/// The lines from index `i` on whose match outcome differs from `invert`,
/// in input order.
pub open spec fn spec_find_from(
    lines: Seq<Seq<char>>,
    pattern: Seq<char>,
    case_insensitive: bool,
    invert: bool,
    i: int,
) -> Seq<Seq<char>>
    decreases lines.len() - i,
{
    if 0 <= i < lines.len() {
        (if regex_match(pattern, case_insensitive, lines[i]) != invert {
            seq![lines[i]]
        } else {
            Seq::empty()
        }) + spec_find_from(lines, pattern, case_insensitive, invert, i + 1)
    } else {
        Seq::empty()
    }
}

/// Keeps the lines the pattern matches — or, inverted, the lines it does
/// not — in input order.  Fails exactly when the pattern does not
/// compile, with the engine's diagnostic.
pub fn find_lines(
    lines: &Vec<String>,
    pattern: &str,
    case_insensitive: bool,
    invert: bool,
) -> (r: Result<Vec<String>, String>)
    ensures
        (r is Ok) == regex_valid(pattern@, case_insensitive),
        r is Ok ==> r.unwrap().deep_view() == spec_find_from(
            lines.deep_view(),
            pattern@,
            case_insensitive,
            invert,
            0,
        ),
{
    let p = match compile(pattern, case_insensitive) {
        Err(e) => {
            return Err(e);
        },
        Ok(p) => p,
    };
    let ghost dv = lines.deep_view();
    let mut out: Vec<String> = Vec::new();
    let mut i: usize = 0;
    let n = lines.len();
    proof {
        assert(dv.len() == lines@.len());
        assert(Seq::<Seq<char>>::empty() + spec_find_from(dv, pattern@, case_insensitive, invert, 0)
            =~= spec_find_from(dv, pattern@, case_insensitive, invert, 0));
    }
    while i < n
        invariant
            i <= n == lines@.len(),
            dv == lines.deep_view(),
            p.spec_pattern() == pattern@,
            p.spec_ci() == case_insensitive,
            spec_find_from(dv, pattern@, case_insensitive, invert, 0) == out.deep_view()
                + spec_find_from(dv, pattern@, case_insensitive, invert, i as int),
        decreases n - i,
    {
        proof {
            assert(dv.len() == lines@.len());
            assert(dv[i as int] == lines@[i as int]@);
        }
        let hit = is_match(&p, lines[i].as_str());
        let ghost out_old = out.deep_view();
        let ghost step = spec_find_from(dv, pattern@, case_insensitive, invert, i as int + 1);
        if hit != invert {
            out.push(lines[i].clone());
            proof {
                assert(out.deep_view() =~= out_old + seq![dv[i as int]]);
                assert(out_old + (seq![dv[i as int]] + step) =~= out.deep_view() + step);
            }
        } else {
            proof {
                assert(Seq::<Seq<char>>::empty() + step =~= step);
            }
        }
        i += 1;
    }
    proof {
        assert(out.deep_view() + Seq::<Seq<char>>::empty() =~= out.deep_view());
    }
    Ok(out)
}

} // verus!
