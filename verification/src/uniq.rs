//! Folding adjacent matching lines: what one group prints under each
//! output mode.
//!
//! The driver hands each finished group's first line and its occurrence
//! count to exactly one of these, and writes what comes back.

use vstd::prelude::*;
use vstd::string::*;

use crate::textfmt::{dec_digits, pad_left, pad_left_string, dec_string};

verus! {

/// Count mode: the occurrence count right-aligned to width seven, a
/// space, then the line; nothing for the empty leading group.
pub fn print_count(count: usize, line: &str) -> (r: String)
    ensures
        r@ == if count > 0 {
            pad_left(dec_digits(count as nat), 7) + seq![' '] + line@
        } else {
            Seq::<char>::empty()
        },
{
    if count > 0 {
        let d = dec_string(count);
        let mut out = pad_left_string(d.as_str(), 7);
        proof {
            reveal_strlit(" ");
            assert(" "@ =~= seq![' ']);
        }
        out.append(" ");
        out.append(line);
        out
    } else {
        String::new()
    }
}

/// Repeated mode: the line of a group seen more than once, else nothing.
pub fn print_repeated(count: usize, line: &str) -> (r: String)
    ensures
        r@ == if count > 1 {
            line@
        } else {
            Seq::<char>::empty()
        },
{
    if count > 1 {
        line.to_owned()
    } else {
        String::new()
    }
}

/// Unique mode: the line of a group seen exactly once, else nothing.
pub fn print_unique(count: usize, line: &str) -> (r: String)
    ensures
        r@ == if count == 1 {
            line@
        } else {
            Seq::<char>::empty()
        },
{
    if count == 1 {
        line.to_owned()
    } else {
        String::new()
    }
}

/// Default mode: the line of every non-empty group.
pub fn print_default(count: usize, line: &str) -> (r: String)
    ensures
        r@ == if count > 0 {
            line@
        } else {
            Seq::<char>::empty()
        },
{
    if count > 0 {
        line.to_owned()
    } else {
        String::new()
    }
}

} // verus!
