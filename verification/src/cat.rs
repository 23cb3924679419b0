//! Line numbering for concatenated output.

use vstd::prelude::*;
use vstd::string::*;

use crate::textfmt::{dec_digits, pad_left, pad_left_string, dec_string, str_eq};

verus! {

/// True iff the line is blank: just a line feed, bare or after a carriage
/// return.
pub fn is_blank_line(line: &str) -> (r: bool)
    ensures
        r == (line@ == "\n"@ || line@ == "\r\n"@),
{
    str_eq(line, "\n") || str_eq(line, "\r\n")
}

/// The line prefixed by its number right-aligned to width six and a tab.
pub fn number_line(n: usize, line: &str) -> (r: String)
    ensures
        r@ == pad_left(dec_digits(n as nat), 6) + seq!['\t'] + line@,
{
    let d = dec_string(n);
    let mut out = pad_left_string(d.as_str(), 6);
    proof {
        reveal_strlit("\t");
        assert("\t"@ =~= seq!['\t']);
    }
    out.append("\t");
    out.append(line);
    out
}

/// One concatenated line under the numbering mode: all lines numbered,
/// only non-blank lines numbered (a blank line stays a bare line feed),
/// or the line as it came.  Returns the output and the updated count of
/// numbered lines.
pub fn cat_line(number_lines: bool, number_nonblank: bool, n: usize, line: &str) -> (r: (
    String,
    usize,
))
    requires
        n < usize::MAX,
    ensures
        ({
            let numbered = pad_left(dec_digits((n + 1) as nat), 6) + seq!['\t'] + line@;
            if number_lines {
                r.0@ == numbered && r.1 == n + 1
            } else if number_nonblank {
                if line@ == "\n"@ || line@ == "\r\n"@ {
                    r.0@ == "\n"@ && r.1 == n
                } else {
                    r.0@ == numbered && r.1 == n + 1
                }
            } else {
                r.0@ == line@ && r.1 == n
            }
        }),
{
    if number_lines {
        (number_line(n + 1, line), n + 1)
    } else if number_nonblank {
        if is_blank_line(line) {
            ("\n".to_owned(), n)
        } else {
            (number_line(n + 1, line), n + 1)
        }
    } else {
        (line.to_owned(), n)
    }
}

} // verus!
