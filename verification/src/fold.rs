//! Search without regard to letter case: texts are compared in a folded
//! form, and a term is found in the parts of a line whose folded form is
//! that of the term.

use crate::text::{cut, same_text, span_ints, spans_fit, Span};
use vstd::prelude::*;
use vstd::string::StrSliceExecFns;
use vstd::string::StringSliceAdditionalSpecFns;
use vstd::utf8::*;

verus! {

/// The lower-case form of a text.
pub uninterp spec fn lowercase_of(text: Seq<char>) -> Seq<char>;

/// Calls `str::to_lowercase`. The contract names the result as a function
/// of the text; nothing is claimed about which characters change.
#[verifier::external_body]
fn to_lowercase(text: &str) -> (folded: String)
    ensures
        folded@ == lowercase_of(text@),
{
    text.to_lowercase()
}

/// The lower-case form of a character among the ASCII letters; every
/// other character is left as it is.
pub open spec fn ascii_lower(c: char) -> char {
    if 'A' <= c <= 'Z' {
        ((c as u8 + 32) as u8) as char
    } else {
        c
    }
}

/// A text with its ASCII letters in lower case.
pub open spec fn ascii_lowercase(text: Seq<char>) -> Seq<char> {
    text.map_values(|c: char| ascii_lower(c))
}

/// Calls `str::to_ascii_lowercase`. The contract states what its
/// documentation says: the letters `A` to `Z` become `a` to `z`, and every
/// other character stays.
#[verifier::external_body]
fn to_ascii_lowercase(text: &str) -> (folded: String)
    ensures
        folded@ == ascii_lowercase(text@),
{
    text.to_ascii_lowercase()
}

/// The form in which texts are compared where letter case is ignored: an
/// ASCII text with its letters in lower case, any other text in its
/// lower-case form.
pub open spec fn folded_form(text: Seq<char>) -> Seq<char> {
    if is_ascii_chars(text) {
        ascii_lowercase(text)
    } else {
        lowercase_of(text)
    }
}

/// Brings a text into the form in which texts are compared where letter
/// case is ignored.
pub fn fold_text(text: &str) -> (folded: String)
    ensures
        folded@ == folded_form(text@),
{
    if text.is_ascii() {
        to_ascii_lowercase(text)
    } else {
        to_lowercase(text)
    }
}

/// The first character boundary of `hay` behind `at`; the end of `hay`
/// where no character starts behind `at`.
pub open spec fn next_boundary(hay: Seq<u8>, at: int) -> int
    decreases hay.len() - at,
{
    if at < 0 || at + 1 >= hay.len() {
        hay.len() as int
    } else if is_char_boundary(hay, at + 1) {
        at + 1
    } else {
        next_boundary(hay, at + 1)
    }
}

/// The folded form of the part `start..end` of `hay` is `folded`.
pub open spec fn folds_to(hay: Seq<u8>, start: int, end: int, folded: Seq<char>) -> bool {
    folded_form(decode_utf8(hay.subrange(start, end))) == folded
}

/// The nearest end, from `end` on and at most `steps` characters further,
/// at which the part of `hay` that starts at `start` has the folded
/// form `folded`.
pub open spec fn fold_end(hay: Seq<u8>, start: int, end: int, steps: nat, folded: Seq<char>) -> Option<
    int,
>
    decreases steps,
{
    if folds_to(hay, start, end, folded) {
        Some(end)
    } else if steps == 0 || end >= hay.len() {
        None
    } else {
        fold_end(hay, start, next_boundary(hay, end), (steps - 1) as nat, folded)
    }
}

/// The spans reported in `hay` from `from` on for a term of folded
/// form `folded`. A match is a part of `hay`, of at most `limit`
/// characters, that starts and ends on character boundaries and has the
/// folded form `folded`. The search goes from left to right: at the
/// leftmost start that has a match the shortest match is taken, and the
/// search resumes behind it, or at the next character where the match is
/// empty.
pub open spec fn folded_spans_from(hay: Seq<u8>, from: int, folded: Seq<char>, limit: nat) -> Seq<
    (int, int),
>
    decreases hay.len() + 1 - from,
{
    if from < 0 || from > hay.len() {
        Seq::empty()
    } else if !is_char_boundary(hay, from) {
        folded_spans_from(hay, from + 1, folded, limit)
    } else {
        match fold_end(hay, from, from, limit, folded) {
            Some(end) => if from < end <= hay.len() {
                seq![(from, end)] + folded_spans_from(hay, end, folded, limit)
            } else {
                seq![(from, end)] + folded_spans_from(hay, from + 1, folded, limit)
            },
            None => folded_spans_from(hay, from + 1, folded, limit),
        }
    }
}

/// The spans reported in `hay` for a term of folded form `folded`,
/// where letter case is ignored: the matches from left to right, none
/// overlapping another. A match has no more characters than `folded` has.
pub open spec fn folded_spans(hay: Seq<u8>, folded: Seq<char>) -> Seq<(int, int)> {
    folded_spans_from(hay, 0, folded, folded.len())
}

/// The next boundary behind an offset inside the text lies behind that
/// offset, and inside the text.
pub proof fn lemma_next_boundary_is_behind(hay: Seq<u8>, at: int)
    requires
        0 <= at < hay.len(),
    ensures
        at < next_boundary(hay, at) <= hay.len(),
    decreases hay.len() - at,
{
    if at + 1 < hay.len() && !is_char_boundary(hay, at + 1) {
        lemma_next_boundary_is_behind(hay, at + 1);
    }
}

/// The end of a match lies at or behind the offset from which it was looked
/// for, and inside the text.
pub proof fn lemma_fold_end_is_inside(
    hay: Seq<u8>,
    start: int,
    end: int,
    steps: nat,
    folded: Seq<char>,
)
    requires
        0 <= end <= hay.len(),
        fold_end(hay, start, end, steps, folded) is Some,
    ensures
        end <= fold_end(hay, start, end, steps, folded)->0 <= hay.len(),
    decreases steps,
{
    if !folds_to(hay, start, end, folded) {
        lemma_next_boundary_is_behind(hay, end);
        lemma_fold_end_is_inside(hay, start, next_boundary(hay, end), (steps - 1) as nat, folded);
    }
}

/// Every span reported lies inside the text, at or behind the offset where
/// the search began, and the spans start at strictly ascending offsets.
pub proof fn lemma_folded_spans_ascend(
    hay: Seq<u8>,
    from: int,
    folded: Seq<char>,
    limit: nat,
    i: int,
    j: int,
)
    requires
        0 <= i <= j < folded_spans_from(hay, from, folded, limit).len(),
    ensures
        ({
            let spans = folded_spans_from(hay, from, folded, limit);
            &&& 0 <= from <= spans[i].0 <= spans[i].1 <= hay.len()
            &&& i < j ==> spans[i].0 < spans[j].0
        }),
    decreases hay.len() + 1 - from,
{
    let spans = folded_spans_from(hay, from, folded, limit);
    if from < 0 || from > hay.len() {
    } else if !is_char_boundary(hay, from) {
        lemma_folded_spans_ascend(hay, from + 1, folded, limit, i, j);
    } else {
        match fold_end(hay, from, from, limit, folded) {
            Some(end) => {
                lemma_fold_end_is_inside(hay, from, from, limit, folded);
                let resume = if from < end <= hay.len() {
                    end
                } else {
                    from + 1
                };
                let behind = folded_spans_from(hay, resume, folded, limit);
                assert(spans == seq![(from, end)] + behind);
                if i > 0 {
                    assert(spans[i] == behind[i - 1]);
                    assert(spans[j] == behind[j - 1]);
                    lemma_folded_spans_ascend(hay, resume, folded, limit, i - 1, j - 1);
                } else if j > 0 {
                    assert(spans[j] == behind[j - 1]);
                    lemma_folded_spans_ascend(hay, resume, folded, limit, j - 1, j - 1);
                }
            },
            None => {
                lemma_folded_spans_ascend(hay, from + 1, folded, limit, i, j);
            },
        }
    }
}

/// Where a match is found, its part of the text has the folded form
/// that was looked for.
pub proof fn lemma_fold_end_matches(
    hay: Seq<u8>,
    start: int,
    end: int,
    steps: nat,
    folded: Seq<char>,
)
    requires
        fold_end(hay, start, end, steps, folded) is Some,
    ensures
        folds_to(hay, start, fold_end(hay, start, end, steps, folded)->0, folded),
    decreases steps,
{
    if !folds_to(hay, start, end, folded) {
        lemma_fold_end_matches(hay, start, next_boundary(hay, end), (steps - 1) as nat, folded);
    }
}

/// Every span reported is a match: it starts on a character boundary, and
/// its part of the text has the folded form of the term.
pub proof fn lemma_folded_spans_match(
    hay: Seq<u8>,
    from: int,
    folded: Seq<char>,
    limit: nat,
    i: int,
)
    requires
        0 <= i < folded_spans_from(hay, from, folded, limit).len(),
    ensures
        ({
            let span = folded_spans_from(hay, from, folded, limit)[i];
            &&& is_char_boundary(hay, span.0)
            &&& folds_to(hay, span.0, span.1, folded)
            &&& fold_end(hay, span.0, span.0, limit, folded) == Some(span.1)
        }),
    decreases hay.len() + 1 - from,
{
    let spans = folded_spans_from(hay, from, folded, limit);
    if from < 0 || from > hay.len() {
    } else if !is_char_boundary(hay, from) {
        lemma_folded_spans_match(hay, from + 1, folded, limit, i);
    } else {
        match fold_end(hay, from, from, limit, folded) {
            Some(end) => {
                lemma_fold_end_matches(hay, from, from, limit, folded);
                let resume = if from < end <= hay.len() {
                    end
                } else {
                    from + 1
                };
                let behind = folded_spans_from(hay, resume, folded, limit);
                assert(spans == seq![(from, end)] + behind);
                if i > 0 {
                    assert(spans[i] == behind[i - 1]);
                    lemma_folded_spans_match(hay, resume, folded, limit, i - 1);
                }
            },
            None => {
                lemma_folded_spans_match(hay, from + 1, folded, limit, i);
            },
        }
    }
}

/// The search passes over no match: every character boundary at or behind
/// the offset where the search began, at which a match starts, is the start
/// of a reported span or lies inside one.
pub proof fn lemma_folded_spans_cover(
    hay: Seq<u8>,
    from: int,
    folded: Seq<char>,
    limit: nat,
    at: int,
)
    requires
        0 <= from <= at <= hay.len(),
        is_char_boundary(hay, at),
        fold_end(hay, at, at, limit, folded) is Some,
    ensures
        exists|i: int|
            0 <= i < folded_spans_from(hay, from, folded, limit).len() && (
            #[trigger] folded_spans_from(hay, from, folded, limit)[i]).0 <= at && (at
                < folded_spans_from(hay, from, folded, limit)[i].1 || at == folded_spans_from(
                hay,
                from,
                folded,
                limit,
            )[i].0),
    decreases hay.len() + 1 - from,
{
    let spans = folded_spans_from(hay, from, folded, limit);
    if !is_char_boundary(hay, from) {
        lemma_folded_spans_cover(hay, from + 1, folded, limit, at);
    } else {
        match fold_end(hay, from, from, limit, folded) {
            Some(end) => {
                lemma_fold_end_is_inside(hay, from, from, limit, folded);
                let resume = if from < end <= hay.len() {
                    end
                } else {
                    from + 1
                };
                let behind = folded_spans_from(hay, resume, folded, limit);
                assert(spans == seq![(from, end)] + behind);
                if at < resume {
                    assert(spans[0] == (from, end));
                } else {
                    lemma_folded_spans_cover(hay, resume, folded, limit, at);
                    let i = choose|i: int|
                        0 <= i < behind.len() && (#[trigger] behind[i]).0 <= at && (at
                            < behind[i].1 || at == behind[i].0);
                    assert(spans[i + 1] == behind[i]);
                }
            },
            None => {
                lemma_folded_spans_cover(hay, from + 1, folded, limit, at);
            },
        }
    }
}

/// Finds the first character boundary behind `at`.
pub fn next_boundary_after(text: &str, at: usize) -> (next: usize)
    requires
        at < text.spec_bytes().len(),
    ensures
        next == next_boundary(text.spec_bytes(), at as int),
        at < next <= text.spec_bytes().len(),
        is_char_boundary(text.spec_bytes(), next as int),
{
    let total: usize = text.as_bytes().len();
    let ghost bytes = text.spec_bytes();
    proof {
        encode_utf8_valid_utf8(text@);
        is_char_boundary_start_end_of_seq(bytes);
    }
    let mut next: usize = at + 1;
    while next < total && !text.is_char_boundary(next)
        invariant
            at < next <= total == bytes.len(),
            bytes == text.spec_bytes(),
            next_boundary(bytes, next - 1) == next_boundary(bytes, at as int),
        decreases total - next,
    {
        next += 1;
    }
    next
}

/// Looks for the shortest part of `line` that starts at `start`, has at
/// most `limit` characters and has the folded form `folded`, and gives
/// its end.
pub fn find_fold_end(line: &str, start: usize, folded: &str, limit: usize) -> (found: Option<usize>)
    requires
        start <= line.spec_bytes().len(),
        is_char_boundary(line.spec_bytes(), start as int),
    ensures
        match found {
            Some(end) => {
                &&& fold_end(line.spec_bytes(), start as int, start as int, limit as nat, folded@)
                    == Some(end as int)
                &&& start <= end <= line.spec_bytes().len()
                &&& is_char_boundary(line.spec_bytes(), end as int)
            },
            None => fold_end(line.spec_bytes(), start as int, start as int, limit as nat, folded@)
                is None,
        },
{
    let total: usize = line.as_bytes().len();
    let ghost bytes = line.spec_bytes();
    let mut end: usize = start;
    let mut steps: usize = limit;
    loop
        invariant
            start <= end <= total == bytes.len(),
            bytes == line.spec_bytes(),
            is_char_boundary(bytes, start as int),
            is_char_boundary(bytes, end as int),
            fold_end(bytes, start as int, end as int, steps as nat, folded@) == fold_end(
                bytes,
                start as int,
                start as int,
                limit as nat,
                folded@,
            ),
        decreases steps,
    {
        let part = cut(line, start, end);
        let lowered = fold_text(part);
        proof {
            encode_utf8_decode_utf8(part@);
        }
        if same_text(lowered.as_str(), folded) {
            return Some(end);
        }
        if steps == 0 || end >= total {
            return None;
        }
        end = next_boundary_after(line, end);
        steps -= 1;
    }
}

/// Finds a literal term in a line without regard to letter case, given
/// the folded form of the term: the parts of the line whose folded
/// form is `folded`, from left to right, none overlapping another. The
/// spans are those of the line as it is written.
pub fn find_folded(line: &str, folded: &str) -> (spans: Vec<Span>)
    ensures
        span_ints(spans@) =~= folded_spans(line.spec_bytes(), folded@),
        spans_fit(line.spec_bytes(), span_ints(spans@)),
{
    let limit: usize = folded.unicode_len();
    let total: usize = line.as_bytes().len();
    let ghost bytes = line.spec_bytes();
    let ghost all = folded_spans(bytes, folded@);
    let mut spans: Vec<Span> = Vec::new();
    let mut from: usize = 0;
    proof {
        encode_utf8_valid_utf8(line@);
        is_char_boundary_start_end_of_seq(bytes);
    }
    while from < total
        invariant
            from <= total == bytes.len(),
            bytes == line.spec_bytes(),
            limit as nat == folded@.len(),
            all == folded_spans(bytes, folded@),
            span_ints(spans@) + folded_spans_from(bytes, from as int, folded@, limit as nat)
                =~= all,
            spans_fit(bytes, span_ints(spans@)),
        decreases total - from,
    {
        if line.is_char_boundary(from) {
            match find_fold_end(line, from, folded, limit) {
                Some(end) => {
                    let ghost held = spans@;
                    spans.push((from, end));
                    proof {
                        assert(span_ints(spans@) =~= span_ints(held).push(
                            (from as int, end as int),
                        ));
                    }
                    if end > from {
                        from = end;
                    } else {
                        from += 1;
                    }
                },
                None => {
                    from += 1;
                },
            }
        } else {
            from += 1;
        }
    }
    let ghost held = spans@;
    match find_fold_end(line, total, folded, limit) {
        Some(end) => {
            spans.push((total, end));
            proof {
                assert(span_ints(spans@) =~= span_ints(held).push((total as int, end as int)));
            }
        },
        None => {},
    }
    proof {
        assert(folded_spans_from(bytes, total + 1, folded@, limit as nat) =~= Seq::<
            (int, int),
        >::empty());
    }
    spans
}

/// Two lines differ in letter case only: they have the same length and the
/// same character boundaries, and each part of the one has the folded
/// form of the same part of the other.
pub open spec fn same_but_for_case(line: Seq<u8>, other: Seq<u8>) -> bool {
    &&& line.len() == other.len()
    &&& forall|at: int|
        0 <= at <= line.len() ==> #[trigger] is_char_boundary(line, at) == is_char_boundary(
            other,
            at,
        )
    &&& forall|start: int, end: int|
        0 <= start <= end <= line.len() ==> folded_form(
            decode_utf8(#[trigger] line.subrange(start, end)),
        ) == folded_form(decode_utf8(other.subrange(start, end)))
}

/// Lines that differ in letter case only have the same next boundary
/// behind every offset.
pub proof fn lemma_same_next_boundary(line: Seq<u8>, other: Seq<u8>, at: int)
    requires
        same_but_for_case(line, other),
    ensures
        next_boundary(line, at) == next_boundary(other, at),
    decreases line.len() - at,
{
    if at < 0 || at + 1 >= line.len() {
    } else {
        assert(is_char_boundary(line, at + 1) == is_char_boundary(other, at + 1));
        if !is_char_boundary(line, at + 1) {
            lemma_same_next_boundary(line, other, at + 1);
        }
    }
}

/// In lines that differ in letter case only, a match that starts at the
/// same offset ends at the same offset.
pub proof fn lemma_same_fold_end(
    line: Seq<u8>,
    other: Seq<u8>,
    start: int,
    end: int,
    steps: nat,
    folded: Seq<char>,
)
    requires
        same_but_for_case(line, other),
        0 <= start <= end <= line.len(),
    ensures
        fold_end(line, start, end, steps, folded) == fold_end(other, start, end, steps, folded),
    decreases steps,
{
    assert(folds_to(line, start, end, folded) == folds_to(other, start, end, folded));
    if !folds_to(line, start, end, folded) && steps > 0 && end < line.len() {
        lemma_same_next_boundary(line, other, end);
        lemma_next_boundary_is_behind(line, end);
        lemma_same_fold_end(
            line,
            other,
            start,
            next_boundary(line, end),
            (steps - 1) as nat,
            folded,
        );
    }
}

/// In lines that differ in letter case only, the same spans are reported
/// for a term.
pub proof fn lemma_same_folded_spans(
    line: Seq<u8>,
    other: Seq<u8>,
    from: int,
    folded: Seq<char>,
    limit: nat,
)
    requires
        same_but_for_case(line, other),
    ensures
        folded_spans_from(line, from, folded, limit) == folded_spans_from(
            other,
            from,
            folded,
            limit,
        ),
    decreases line.len() + 1 - from,
{
    if from < 0 || from > line.len() {
    } else {
        assert(is_char_boundary(line, from) == is_char_boundary(other, from));
        if !is_char_boundary(line, from) {
            lemma_same_folded_spans(line, other, from + 1, folded, limit);
        } else {
            lemma_same_fold_end(line, other, from, from, limit, folded);
            match fold_end(line, from, from, limit, folded) {
                Some(end) => {
                    if from < end <= line.len() {
                        lemma_same_folded_spans(line, other, end, folded, limit);
                    } else {
                        lemma_same_folded_spans(line, other, from + 1, folded, limit);
                    }
                },
                None => {
                    lemma_same_folded_spans(line, other, from + 1, folded, limit);
                },
            }
        }
    }
}

} // verus!
