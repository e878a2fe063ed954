//! How a text falls into lines.

use crate::text::{lemma_ascii_byte_boundaries, span_fits};
use vstd::prelude::*;
use vstd::string::StringSliceAdditionalSpecFns;
use vstd::utf8::*;

verus! {

/// The line feed byte, which ends a line.
pub const LINE_FEED: u8 = 10;

/// The carriage return byte, which belongs to the line ending where it
/// stands directly before a line feed.
pub const CARRIAGE_RETURN: u8 = 13;

/// Where the line that starts at `start` and is ended by the line feed at
/// `stop` ends: before a carriage return that precedes the line feed.
pub open spec fn trimmed_end(text: Seq<u8>, start: int, stop: int) -> int {
    if start < stop && text[stop - 1] == CARRIAGE_RETURN {
        stop - 1
    } else {
        stop
    }
}

/// The lines of `text` from the line that starts at `start` on, where the
/// bytes from `start` up to `at` hold no line feed. Every line feed ends a
/// line; what follows the last line feed is a line unless it is empty.
pub open spec fn lines_from(text: Seq<u8>, start: int, at: int) -> Seq<(int, int)>
    decreases text.len() - at,
{
    if at < 0 || at >= text.len() {
        if 0 <= start < text.len() {
            seq![(start, text.len() as int)]
        } else {
            Seq::empty()
        }
    } else if text[at] == LINE_FEED {
        seq![(start, trimmed_end(text, start, at))] + lines_from(text, at + 1, at + 1)
    } else {
        lines_from(text, start, at + 1)
    }
}

/// The byte ranges of the lines of `text`, in order, each without its line
/// ending.
pub open spec fn line_spans(text: Seq<u8>) -> Seq<(int, int)> {
    lines_from(text, 0, 0)
}

/// The lines of `text`, in order, each without its line ending.
pub open spec fn lines_of(text: Seq<u8>) -> Seq<Seq<u8>> {
    line_spans(text).map_values(|span: (int, int)| text.subrange(span.0, span.1))
}

/// Every line lies inside the text and holds no line feed, and the lines
/// follow each other: a later line starts behind the line feed that ends
/// the earlier one.
pub proof fn lemma_lines_are_apart(text: Seq<u8>, start: int, at: int, i: int, j: int)
    requires
        0 <= start <= at <= text.len(),
        forall|k: int| start <= k < at ==> text[k] != LINE_FEED,
        0 <= i <= j < lines_from(text, start, at).len(),
    ensures
        ({
            let lines = lines_from(text, start, at);
            &&& start <= lines[i].0 <= lines[i].1 <= text.len()
            &&& forall|k: int| lines[i].0 <= k < lines[i].1 ==> text[k] != LINE_FEED
            &&& i < j ==> lines[i].1 < lines[j].0
        }),
    decreases text.len() - at,
{
    let lines = lines_from(text, start, at);
    if at >= text.len() {
    } else if text[at] == LINE_FEED {
        let behind = lines_from(text, at + 1, at + 1);
        if i > 0 {
            assert(lines[i] == behind[i - 1]);
            assert(lines[j] == behind[j - 1]);
            lemma_lines_are_apart(text, at + 1, at + 1, i - 1, j - 1);
        } else if j > 0 {
            assert(lines[j] == behind[j - 1]);
            lemma_lines_are_apart(text, at + 1, at + 1, j - 1, j - 1);
        }
    } else {
        lemma_lines_are_apart(text, start, at + 1, i, j);
    }
}

/// Where one line ends and the next begins.
pub struct LineBreak {
    /// The end of the line, before its line ending.
    pub end: usize,
    /// The start of the following line, behind the line ending.
    pub next: usize,
}

/// Finds the end of the line of `text` that starts at `start`.
pub fn find_line_break(text: &str, start: usize) -> (found: LineBreak)
    requires
        start < text.spec_bytes().len(),
        is_char_boundary(text.spec_bytes(), start as int),
    ensures
        start <= found.end <= found.next <= text.spec_bytes().len(),
        start < found.next,
        lines_from(text.spec_bytes(), start as int, start as int) == seq![
            (start as int, found.end as int),
        ] + lines_from(text.spec_bytes(), found.next as int, found.next as int),
        span_fits(text.spec_bytes(), (start as int, found.end as int)),
        is_char_boundary(text.spec_bytes(), found.next as int),
{
    let bytes = text.as_bytes();
    let total: usize = bytes.len();
    let ghost tb = text.spec_bytes();
    proof {
        encode_utf8_valid_utf8(text@);
    }
    let mut at: usize = start;
    while at < total && bytes[at] != LINE_FEED
        invariant
            start <= at <= total == tb.len(),
            bytes@ == tb,
            lines_from(tb, start as int, at as int) == lines_from(tb, start as int, start as int),
        decreases total - at,
    {
        at += 1;
    }
    if at == total {
        proof {
            is_char_boundary_start_end_of_seq(tb);
            assert(lines_from(tb, total as int, total as int) =~= Seq::<(int, int)>::empty());
        }
        LineBreak { end: total, next: total }
    } else {
        let end: usize = if start < at && bytes[at - 1] == CARRIAGE_RETURN {
            at - 1
        } else {
            at
        };
        proof {
            lemma_ascii_byte_boundaries(tb, at as int);
            if end < at {
                lemma_ascii_byte_boundaries(tb, end as int);
            }
        }
        LineBreak { end, next: at + 1 }
    }
}

} // verus!
