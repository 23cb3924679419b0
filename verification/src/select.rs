//! Byte, character and field selection.
//!
//! All three selectors keep exactly the elements whose index lies in the
//! union of the intervals, in ascending index order; declaration order of
//! the intervals never reorders the output.  Bytes and characters are
//! genuinely different index spaces: the byte selector may cut through a
//! multi-byte encoding (and then repairs the text lossily), the character
//! selector never can.

use vstd::prelude::*;
use vstd::string::*;
use vstd::utf8::*;

use crate::ranges::{in_ranges, Interval, contains_index};

verus! {

/// The elements of `s[..i]` whose index lies in the union of `ranges`,
/// in ascending index order.
pub open spec fn selected_prefix<T>(s: Seq<T>, ranges: Seq<Interval>, i: int) -> Seq<T>
    decreases i,
{
    if i <= 0 {
        Seq::empty()
    } else {
        selected_prefix(s, ranges, i - 1) + if in_ranges(ranges, i - 1) {
            seq![s[i - 1]]
        } else {
            Seq::empty()
        }
    }
}

/// The elements of `s` whose index lies in the union of `ranges`, in
/// ascending index order.
pub open spec fn selected<T>(s: Seq<T>, ranges: Seq<Interval>) -> Seq<T> {
    selected_prefix(s, ranges, s.len() as int)
}

/// Selection sees only the membership of each index: two range lists that
/// cover the same indices select the same elements, whatever the order or
/// overlap of their intervals.  In particular the output order is always
/// ascending index order, never declaration order.
pub proof fn lemma_selected_same_cover<T>(s: Seq<T>, r1: Seq<Interval>, r2: Seq<Interval>)
    requires
        forall|i: int| in_ranges(r1, i) <==> in_ranges(r2, i),
    ensures
        selected(s, r1) == selected(s, r2),
{
    lemma_selected_prefix_same_cover(s, r1, r2, s.len() as int);
}

proof fn lemma_selected_prefix_same_cover<T>(
    s: Seq<T>,
    r1: Seq<Interval>,
    r2: Seq<Interval>,
    i: int,
)
    requires
        forall|i: int| in_ranges(r1, i) <==> in_ranges(r2, i),
    ensures
        selected_prefix(s, r1, i) == selected_prefix(s, r2, i),
    decreases i,
{
    if i > 0 {
        lemma_selected_prefix_same_cover(s, r1, r2, i - 1);
    }
}

/// Selecting index 0 alone keeps exactly the first element.  For a
/// character sequence this is the whole first scalar: re-encoded it is the
/// scalar's full encoding, never a partial one.
pub proof fn lemma_select_first_char(s: Seq<char>)
    requires
        s.len() >= 1,
    ensures
        selected(s, seq![Interval { start: 0, end: 1 }]) == seq![s[0]],
        encode_utf8(selected(s, seq![Interval { start: 0, end: 1 }])) == encode_scalar(
            s[0] as u32,
        ),
{
    let rs = seq![Interval { start: 0, end: 1 }];
    lemma_select_first_prefix(s, rs, s.len() as int);
    let one = seq![s[0]];
    assert(encode_utf8(one) =~= encode_scalar(one[0] as u32) + encode_utf8(one.drop_first()));
    assert(one.drop_first() =~= Seq::<char>::empty());
    assert(encode_scalar(s[0] as u32) + Seq::<u8>::empty() =~= encode_scalar(s[0] as u32));
}

proof fn lemma_select_first_prefix(s: Seq<char>, rs: Seq<Interval>, i: int)
    requires
        s.len() >= 1,
        1 <= i <= s.len(),
        rs =~= seq![Interval { start: 0, end: 1 }],
    ensures
        selected_prefix(s, rs, i) == seq![s[0]],
    decreases i,
{
    if i == 1 {
        reveal_with_fuel(selected_prefix, 2);
        assert(in_ranges(rs, 0)) by {
            assert(rs[0].spec_contains(0));
        }
        assert(selected_prefix(s, rs, 1) =~= seq![s[0]]);
    } else {
        lemma_select_first_prefix(s, rs, i - 1);
        assert forall|k: int| 0 <= k < rs.len() implies !(#[trigger] rs[k]).spec_contains(i - 1) by {
            assert(rs[k] == Interval { start: 0, end: 1 });
        }
        assert(!in_ranges(rs, i - 1));
        assert(selected_prefix(s, rs, i) =~= seq![s[0]]);
    }
}

/// Keeps the characters of `line` whose character index (counting decoded
/// scalars, not bytes) lies in the union of `ranges`, in ascending index
/// order.  Whole scalars are kept or dropped; no partial encoding can
/// arise.
pub fn extract_chars(line: &str, chars: &[Interval]) -> (r: String)
    ensures
        r@ == selected(line@, chars@),
{
    let n = line.unicode_len();
    let mut out = String::new();
    let mut i: usize = 0;
    while i < n
        invariant
            n == line@.len(),
            i <= n,
            out@ == selected_prefix(line@, chars@, i as int),
        decreases n - i,
    {
        if contains_index(chars, i) {
            let piece = line.substring_char(i, i + 1);
            proof {
                assert(piece@ =~= seq![line@[i as int]]);
            }
            out.append(piece);
        } else {
            proof {
                assert(out@ + Seq::<char>::empty() =~= out@);
            }
        }
        i += 1;
    }
    out
}

/// What lossy decoding makes of a byte sequence: the text with every
/// ill-formed subsequence replaced by the replacement character.
pub uninterp spec fn lossy_decode(bytes: Seq<u8>) -> Seq<char>;

/// Relies on `String::from_utf8_lossy`: the result is a function of the
/// bytes alone, and on well-formed input it is the plain decoding.
#[verifier::external_body]
pub(crate) fn utf8_lossy(bytes: &[u8]) -> (r: String)
    ensures
        r@ == lossy_decode(bytes@),
        valid_utf8(bytes@) ==> r@ == decode_utf8(bytes@),
{
    String::from_utf8_lossy(bytes).into_owned()
}

/// Keeps the bytes of `line`'s encoding whose byte index lies in the union
/// of `ranges`, in ascending index order, then decodes the kept bytes
/// lossily: a selection that bisects a multi-byte encoding yields the
/// replacement character rather than failing.
pub fn extract_bytes(line: &str, chars: &[Interval]) -> (r: String)
    ensures
        r@ == lossy_decode(selected(line.spec_bytes(), chars@)),
        valid_utf8(selected(line.spec_bytes(), chars@)) ==> r@ == decode_utf8(
            selected(line.spec_bytes(), chars@),
        ),
{
    let bytes = line.as_bytes();
    let n = bytes.len();
    let mut kept: Vec<u8> = Vec::new();
    let mut i: usize = 0;
    while i < n
        invariant
            n == bytes@.len(),
            bytes@ == line.spec_bytes(),
            i <= n,
            kept@ == selected_prefix(bytes@, chars@, i as int),
        decreases n - i,
    {
        if contains_index(chars, i) {
            let b = bytes[i];
            let ghost kept_old = kept@;
            kept.push(b);
            proof {
                assert(kept@ =~= kept_old + seq![bytes@[i as int]]);
            }
        } else {
            proof {
                assert(kept@ + Seq::<u8>::empty() =~= kept@);
            }
        }
        i += 1;
    }
    utf8_lossy(kept.as_slice())
}

/// Keeps the fields of `record` whose field index lies in the union of
/// `ranges`, in ascending field-index order — the order the fields stand
/// in the record, never the order the ranges were declared.
pub fn extract_fields(record: &Vec<String>, ranges: &[Interval]) -> (r: Vec<String>)
    ensures
        r.deep_view() == selected(record.deep_view(), ranges@),
{
    let n = record.len();
    let mut out: Vec<String> = Vec::new();
    let mut i: usize = 0;
    proof {
        assert(out.deep_view() =~= selected_prefix(record.deep_view(), ranges@, 0));
    }
    while i < n
        invariant
            n == record@.len(),
            i <= n,
            out.deep_view() == selected_prefix(record.deep_view(), ranges@, i as int),
        decreases n - i,
    {
        proof {
            assert(record.deep_view().len() == n);
        }
        if contains_index(ranges, i) {
            let ghost out_old = out.deep_view();
            let f = record[i].clone();
            out.push(f);
            proof {
                assert(record.deep_view()[i as int] == record@[i as int]@);
                assert(out.deep_view() =~= out_old + seq![record.deep_view()[i as int]]);
            }
        } else {
            proof {
                assert(out.deep_view() + Seq::<Seq<char>>::empty() =~= out.deep_view());
            }
        }
        i += 1;
    }
    out
}

} // verus!
