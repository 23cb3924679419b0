//! The selection driver: one mode — bytes, characters or fields — applied
//! to every record of one input source.
//!
//! A text-mode source is split into newline-terminated lines, each line is
//! selected on its own, and each selection is emitted newline-terminated.
//! A field-mode source runs through the delimited-record engine.  A fault
//! ends the source; output already produced is kept.

use vstd::prelude::*;
use vstd::string::*;
use vstd::utf8::*;

use crate::fields::{csv_rows, cut_fields, spec_field_output, CutError};
use crate::ranges::Interval;
use crate::select::{extract_bytes, extract_chars, lossy_decode, selected};

verus! {

/// The newline-terminated chunks of a byte stream, as successive reads of
/// one line each would yield them: every chunk but possibly the last ends
/// with the line feed, and a final unterminated chunk is a line too.
pub open spec fn split_lines(bytes: Seq<u8>) -> Seq<Seq<u8>>
    decreases bytes.len(),
{
    if bytes.len() == 0 {
        Seq::empty()
    } else if bytes[0] == 10 {
        seq![seq![10u8]] + split_lines(bytes.drop_first())
    } else {
        let r = split_lines(bytes.drop_first());
        if r.len() == 0 {
            seq![bytes]
        } else {
            seq![seq![bytes[0]] + r[0]] + r.drop_first()
        }
    }
}

/// A non-empty stream has at least one line.
pub proof fn lemma_split_lines_nonempty(bytes: Seq<u8>)
    requires
        bytes.len() > 0,
    ensures
        split_lines(bytes).len() >= 1,
    decreases bytes.len(),
{
    if bytes.len() > 1 && bytes[0] != 10 {
        lemma_split_lines_nonempty(bytes.drop_first());
    }
}

/// A stream without a line feed is one unterminated line.
pub proof fn lemma_split_lines_whole(bytes: Seq<u8>)
    requires
        bytes.len() > 0,
        forall|i: int| 0 <= i < bytes.len() ==> bytes[i] != 10,
    ensures
        split_lines(bytes) =~~= seq![bytes],
    decreases bytes.len(),
{
    reveal_with_fuel(split_lines, 2);
    if bytes.len() > 1 {
        lemma_split_lines_whole(bytes.drop_first());
        assert(seq![bytes[0]] + bytes.drop_first() =~= bytes);
        let r = split_lines(bytes.drop_first());
        assert(r =~= seq![bytes.drop_first()]);
        assert(seq![seq![bytes[0]] + r[0]] + r.drop_first() =~= seq![bytes]);
    }
}

/// Splitting at the first line feed: the head line is everything up to and
/// including it, and the remaining lines are those of the rest.
pub proof fn lemma_split_lines_step(bytes: Seq<u8>, k: int)
    requires
        0 <= k < bytes.len(),
        bytes[k] == 10,
        forall|i: int| 0 <= i < k ==> bytes[i] != 10,
    ensures
        split_lines(bytes) =~~= seq![bytes.subrange(0, k + 1)] + split_lines(
            bytes.subrange(k + 1, bytes.len() as int),
        ),
    decreases bytes.len(),
{
    if k == 0 {
        assert(bytes.drop_first() =~= bytes.subrange(1, bytes.len() as int));
        assert(bytes.subrange(0, 1) =~= seq![10u8]);
    } else {
        lemma_split_lines_step(bytes.drop_first(), k - 1);
        assert(bytes.drop_first().subrange(0, k) =~= bytes.subrange(0, k + 1).drop_first());
        assert(bytes.drop_first().subrange(k, bytes.len() - 1) =~= bytes.subrange(
            k + 1,
            bytes.len() as int,
        ));
        let r = split_lines(bytes.drop_first());
        assert(r.len() >= 1) by {
            lemma_split_lines_nonempty(bytes.drop_first());
        }
        assert(seq![bytes[0]] + bytes.subrange(0, k + 1).drop_first() =~= bytes.subrange(
            0,
            k + 1,
        ));
    }
}

/// Relies on `str::from_utf8`: accepts exactly well-formed encoded text,
/// and then yields its decoding.
#[verifier::external_body]
fn bytes_to_str(bytes: &[u8]) -> (r: Option<&str>)
    ensures
        (r is Some) == valid_utf8(bytes@),
        r is Some ==> r.unwrap()@ == decode_utf8(bytes@),
{
    core::str::from_utf8(bytes).ok()
}

/// Text-mode output for a line sequence: each line selected on its own
/// (by byte index or by character index) and emitted newline-terminated,
/// stopping at the first line that is not well-formed text; the flag tells
/// whether every line was emitted.
pub open spec fn spec_text_output(
    lines: Seq<Seq<u8>>,
    by_bytes: bool,
    ranges: Seq<Interval>,
) -> (Seq<u8>, bool)
    decreases lines.len(),
{
    if lines.len() == 0 {
        (Seq::empty(), true)
    } else if !valid_utf8(lines[0]) {
        (Seq::empty(), false)
    } else {
        let kept = if by_bytes {
            lossy_decode(selected(lines[0], ranges))
        } else {
            selected(decode_utf8(lines[0]), ranges)
        };
        let rest = spec_text_output(lines.drop_first(), by_bytes, ranges);
        (encode_utf8(kept) + seq![10u8] + rest.0, rest.1)
    }
}

/// Cuts one text-mode source line by line.
fn cut_text(content: &[u8], ranges: &[Interval], by_bytes: bool) -> (r: (
    Vec<u8>,
    Option<CutError>,
))
    ensures
        ({
            let full = spec_text_output(split_lines(content@), by_bytes, ranges@);
            &&& r.0@ == full.0
            &&& (r.1 is None) == full.1
        }),
{
    let n = content.len();
    let mut out: Vec<u8> = Vec::new();
    let mut pos: usize = 0;
    proof {
        assert(content@.subrange(0, n as int) =~= content@);
        assert(Seq::<u8>::empty() + spec_text_output(split_lines(content@), by_bytes, ranges@).0
            =~= spec_text_output(split_lines(content@), by_bytes, ranges@).0);
    }
    while pos < n
        invariant
            pos <= n == content@.len(),
            spec_text_output(split_lines(content@), by_bytes, ranges@).0 == out@
                + spec_text_output(
                split_lines(content@.subrange(pos as int, n as int)),
                by_bytes,
                ranges@,
            ).0,
            spec_text_output(split_lines(content@), by_bytes, ranges@).1 == spec_text_output(
                split_lines(content@.subrange(pos as int, n as int)),
                by_bytes,
                ranges@,
            ).1,
        decreases n - pos,
    {
        let ghost tail = content@.subrange(pos as int, n as int);
        // find the end of the current line
        let mut k: usize = pos;
        while k < n && *vstd::slice::slice_index_get(content, k) != 10u8
            invariant
                pos <= k <= n <= content@.len(),
                forall|j: int| pos <= j < k ==> content@[j] != 10,
            decreases n - k,
        {
            k += 1;
        }
        let chunk_end: usize = if k < n {
            k + 1
        } else {
            n
        };
        let chunk = vstd::slice::slice_subrange(content, pos, chunk_end);
        proof {
            assert forall|j: int| 0 <= j < k - pos implies tail[j] != 10 by {
                assert(tail[j] == content@[j + pos]);
            }
            if k < n {
                assert(tail[k - pos] == content@[k as int]);
                lemma_split_lines_step(tail, k - pos);
                assert(tail.subrange(0, k - pos + 1) =~= content@.subrange(
                    pos as int,
                    chunk_end as int,
                ));
                assert(tail.subrange(k - pos + 1, tail.len() as int) =~= content@.subrange(
                    chunk_end as int,
                    n as int,
                ));
            } else {
                lemma_split_lines_whole(tail);
                assert(content@.subrange(chunk_end as int, n as int) =~= Seq::<u8>::empty());
                assert(seq![tail] + Seq::<Seq<u8>>::empty() =~= seq![tail]);
            }
            assert(split_lines(tail) =~~= seq![chunk@] + split_lines(
                content@.subrange(chunk_end as int, n as int),
            ));
        }
        let ghost lines_tail = split_lines(tail);
        proof {
            assert(lines_tail[0] == chunk@);
            assert(lines_tail.drop_first() =~= split_lines(
                content@.subrange(chunk_end as int, n as int),
            ));
        }
        match bytes_to_str(chunk) {
            None => {
                proof {
                    assert(out@ + Seq::<u8>::empty() =~= out@);
                }
                return (out, Some(CutError::Encoding));
            },
            Some(line) => {
                let s = if by_bytes {
                    extract_bytes(line, ranges)
                } else {
                    extract_chars(line, ranges)
                };
                proof {
                    decode_utf8_encode_utf8(chunk@);
                    assert(line.spec_bytes() == chunk@);
                }
                let ghost kept = if by_bytes {
                    lossy_decode(selected(chunk@, ranges@))
                } else {
                    selected(decode_utf8(chunk@), ranges@)
                };
                proof {
                    assert(s@ == kept);
                }
                let ghost out_old = out@;
                out.extend_from_slice(s.as_str().as_bytes());
                out.push(10);
                proof {
                    let rest = spec_text_output(lines_tail.drop_first(), by_bytes, ranges@);
                    assert(out@ =~= out_old + encode_utf8(kept) + seq![10u8]);
                    assert(out_old + (encode_utf8(kept) + seq![10u8] + rest.0) =~= out@ + rest.0);
                }
            },
        }
        pos = chunk_end;
    }
    proof {
        assert(content@.subrange(n as int, n as int) =~= Seq::<u8>::empty());
        assert(out@ + Seq::<u8>::empty() =~= out@);
    }
    (out, None)
}

/// The selection mode, exactly one active, carrying its range set.
pub enum Selection {
    /// Select byte indices of each line.
    Bytes(Vec<Interval>),
    /// Select character indices of each line.
    Chars(Vec<Interval>),
    /// Select field indices of each delimited record.
    Fields(Vec<Interval>),
}

/// Output and success of cutting one source under the given mode.
pub open spec fn spec_cut_source(content: Seq<u8>, sel: Selection, delim: u8) -> (Seq<u8>, bool) {
    match sel {
        Selection::Bytes(rs) => spec_text_output(split_lines(content), true, rs@),
        Selection::Chars(rs) => spec_text_output(split_lines(content), false, rs@),
        Selection::Fields(rs) => {
            let parsed = csv_rows(content, delim);
            let written = spec_field_output(parsed.0, rs@, delim);
            (written.0, parsed.1 && written.1)
        },
    }
}

/// Cuts one whole input source: every record is fed through the selector
/// of the active mode and the selections are emitted in record order.  On
/// a fault the source ends with its diagnostic; output already produced
/// stays.
pub fn cut_source(content: &[u8], sel: &Selection, delim: u8) -> (r: (Vec<u8>, Option<CutError>))
    ensures
        r.0@ == spec_cut_source(content@, *sel, delim).0,
        (r.1 is None) == spec_cut_source(content@, *sel, delim).1,
{
    match sel {
        Selection::Bytes(rs) => cut_text(content, rs.as_slice(), true),
        Selection::Chars(rs) => cut_text(content, rs.as_slice(), false),
        Selection::Fields(rs) => cut_fields(content, rs.as_slice(), delim),
    }
}

/// Reads the field-delimiter option: exactly one byte.
pub fn parse_delimiter(delim: &str) -> (r: Result<u8, String>)
    ensures
        match r {
            Ok(b) => delim.spec_bytes().len() == 1 && b == delim.spec_bytes()[0],
            Err(e) => delim.spec_bytes().len() != 1 && e@ == "--delim must be a single byte"@,
        },
{
    let bytes = delim.as_bytes();
    if bytes.len() != 1 {
        Err("--delim must be a single byte".to_owned())
    } else {
        Ok(*vstd::slice::slice_index_get(bytes, 0))
    }
}

} // verus!
