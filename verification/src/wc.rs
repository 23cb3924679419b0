//! Counting lines, words, characters and bytes of a text.

use vstd::prelude::*;
use vstd::string::*;

use crate::textfmt::{dec_digits, is_wsp, is_whitespace_char, pad_left, pad_left_string,
    dec_string};

verus! {

/// The counts of one input: its encoded size, its characters, its lines
/// (a trailing unterminated line counts), and its whitespace-separated
/// words.
#[derive(Clone, Copy, Debug, PartialEq, Eq, Structural)]
pub struct FileInfo {
    pub bytes: usize,
    pub chars: usize,
    pub lines: usize,
    pub words: usize,
}

/// Number of line feeds in `s[..i]`.
pub open spec fn newline_count(s: Seq<char>, i: int) -> nat
    decreases i,
{
    if i <= 0 {
        0
    } else {
        newline_count(s, i - 1) + if s[i - 1] == '\n' {
            1nat
        } else {
            0nat
        }
    }
}

/// Number of lines read from `s` one line at a time: one per line feed,
/// and one more for a trailing unterminated line.
pub open spec fn line_count(s: Seq<char>) -> nat {
    newline_count(s, s.len() as int) + if s.len() > 0 && s.last() != '\n' {
        1nat
    } else {
        0nat
    }
}

/// Number of maximal whitespace-free runs in `s[i..]`, given whether a
/// run is already open at `i`.
pub open spec fn words_from(s: Seq<char>, i: int, in_word: bool) -> nat
    decreases s.len() - i,
{
    if i < 0 || i >= s.len() {
        0
    } else {
        (if !is_wsp(s[i]) && !in_word {
            1nat
        } else {
            0nat
        }) + words_from(s, i + 1, !is_wsp(s[i]))
    }
}

/// Number of whitespace-separated words of `s`.
pub open spec fn word_count(s: Seq<char>) -> nat {
    words_from(s, 0, false)
}

/// There are no more line feeds in a prefix than characters.
proof fn lemma_newline_count_bound(s: Seq<char>, i: int)
    ensures
        newline_count(s, i) <= i || newline_count(s, i) == 0,
    decreases i,
{
    if i > 0 {
        lemma_newline_count_bound(s, i - 1);
    }
}

/// The number of word starts ahead is bounded by the characters ahead.
proof fn lemma_words_from_bound(s: Seq<char>, i: int, in_word: bool)
    ensures
        words_from(s, i, in_word) <= s.len() - i || words_from(s, i, in_word) == 0,
    decreases s.len() - i,
{
    if 0 <= i < s.len() {
        lemma_words_from_bound(s, i + 1, !is_wsp(s[i]));
    }
}

/// Counts lines, words, characters and bytes of `text`, every line read
/// whole including its terminator.
pub fn count(text: &str) -> (r: FileInfo)
    ensures
        r.bytes == text.spec_bytes().len() as usize,
        r.chars == text@.len(),
        r.lines == line_count(text@),
        r.words == word_count(text@),
{
    let n = text.unicode_len();
    let bytes = text.len();
    let mut lines: usize = 0;
    let mut words: usize = 0;
    let mut in_word = false;
    let mut i: usize = 0;
    while i < n
        invariant
            i <= n == text@.len(),
            bytes == text.spec_bytes().len() as usize,
            lines == newline_count(text@, i as int),
            lines <= i,
            words <= i,
            word_count(text@) == words + words_from(text@, i as int, in_word),
        decreases n - i,
    {
        let c = text.get_char(i);
        if c == '\n' {
            lines += 1;
        }
        let ws = is_whitespace_char(c);
        proof {
            lemma_words_from_bound(text@, i as int + 1, !ws);
        }
        if !ws && !in_word {
            words += 1;
        }
        in_word = !ws;
        i += 1;
    }
    if n > 0 && !(text.get_char(n - 1) == '\n') {
        proof {
            lemma_newline_count_bound(text@, n as int - 1);
        }
        lines += 1;
    }
    FileInfo { bytes, chars: n, lines, words }
}

/// Renders one count right-aligned to width five when its flag is set,
/// and nothing otherwise.
pub fn format_info(flag: bool, value: usize) -> (r: String)
    ensures
        r@ == if flag {
            pad_left(dec_digits(value as nat), 5)
        } else {
            Seq::<char>::empty()
        },
{
    if flag {
        let d = dec_string(value);
        pad_left_string(d.as_str(), 5)
    } else {
        String::new()
    }
}

/// One output line of the counter: the chosen counts in the fixed order
/// lines, words, bytes, characters, each padded to width five.
pub fn wc_format(
    info: &FileInfo,
    show_lines: bool,
    show_words: bool,
    show_bytes: bool,
    show_chars: bool,
) -> (r: String)
    ensures
        r@ == (if show_lines {
            pad_left(dec_digits(info.lines as nat), 5)
        } else {
            Seq::<char>::empty()
        }) + (if show_words {
            pad_left(dec_digits(info.words as nat), 5)
        } else {
            Seq::<char>::empty()
        }) + (if show_bytes {
            pad_left(dec_digits(info.bytes as nat), 5)
        } else {
            Seq::<char>::empty()
        }) + (if show_chars {
            pad_left(dec_digits(info.chars as nat), 5)
        } else {
            Seq::<char>::empty()
        }),
{
    let mut out = format_info(show_lines, info.lines);
    let w = format_info(show_words, info.words);
    let b = format_info(show_bytes, info.bytes);
    let c = format_info(show_chars, info.chars);
    out.append(w.as_str());
    out.append(b.as_str());
    out.append(c.as_str());
    out
}

} // verus!
