//! The head window: the first so many lines or bytes of one input.

use vstd::prelude::*;
use vstd::string::*;

use crate::select::{lossy_decode, utf8_lossy};

verus! {

/// The first `k` lines concatenated.
pub open spec fn concat_prefix(lines: Seq<Seq<char>>, k: int) -> Seq<char>
    decreases k,
{
    if k <= 0 {
        Seq::empty()
    } else {
        concat_prefix(lines, k - 1) + lines[k - 1]
    }
}

/// The first `n` lines of the input, or all of it when it is shorter.
pub fn head_lines(lines: &Vec<String>, n: usize) -> (r: String)
    ensures
        r@ == concat_prefix(
            lines.deep_view(),
            if n <= lines@.len() {
                n as int
            } else {
                lines@.len() as int
            },
        ),
{
    let ghost dv = lines.deep_view();
    let end: usize = if n <= lines.len() {
        n
    } else {
        lines.len()
    };
    let mut out = String::new();
    let mut i: usize = 0;
    while i < end
        invariant
            i <= end <= lines@.len(),
            dv == lines.deep_view(),
            out@ == concat_prefix(dv, i as int),
        decreases end - i,
    {
        proof {
            assert(dv.len() == lines@.len());
            assert(dv[i as int] == lines@[i as int]@);
        }
        out.append(lines[i].as_str());
        i += 1;
    }
    out
}

/// The first `count` bytes of the input decoded lossily, or nothing when
/// the input holds fewer — reading an exact count past the end fails.
pub fn head_bytes(content: &[u8], count: usize) -> (r: Option<String>)
    ensures
        (r is Some) == (count <= content@.len()),
        r is Some ==> r.unwrap()@ == lossy_decode(content@.subrange(0, count as int)),
{
    if count > content.len() {
        None
    } else {
        Some(utf8_lossy(vstd::slice::slice_subrange(content, 0, count)))
    }
}

} // verus!
