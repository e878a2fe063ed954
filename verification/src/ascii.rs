//! Searching ASCII text without regard to letter case is searching its
//! lower-case form exactly.

use crate::fold::{
    ascii_lower, ascii_lowercase, fold_end, folded_form, folded_spans_from, folds_to,
    next_boundary,
};
use crate::laws::lemma_literal_spans_in_order;
use crate::lines::{
    lemma_lines_are_apart, line_spans, lines_from, lines_of, trimmed_end, LINE_FEED,
};
use crate::pattern::PatternModel;
use crate::scan::{line_occurrences, occurrence_at, occurrences_upto, OccurrenceModel};
use crate::text::{
    lemma_ascii_byte_boundaries, lemma_same_bytes_same_text, literal_starts, matches_at,
};
use vstd::prelude::*;
use vstd::utf8::*;

verus! {

/// Every byte is an ASCII character.
pub open spec fn all_ascii(bytes: Seq<u8>) -> bool {
    forall|i: int| 0 <= i < bytes.len() ==> #[trigger] bytes[i] <= 0x7f
}

/// The byte of a letter `A` to `Z` in lower case; every other byte as it
/// is.
pub open spec fn lower_byte(byte: u8) -> u8 {
    if 65 <= byte <= 90 {
        (byte + 32) as u8
    } else {
        byte
    }
}

/// The bytes of a text with the letters `A` to `Z` in lower case.
pub open spec fn lower_bytes(bytes: Seq<u8>) -> Seq<u8> {
    bytes.map_values(|byte: u8| lower_byte(byte))
}

/// The characters that ASCII bytes stand for.
pub open spec fn ascii_text(bytes: Seq<u8>) -> Seq<char> {
    bytes.map_values(|byte: u8| byte as char)
}

/// ASCII bytes are the text of their characters, one byte for each.
pub proof fn lemma_ascii_bytes_are_text(bytes: Seq<u8>)
    requires
        all_ascii(bytes),
    ensures
        is_ascii_chars(ascii_text(bytes)),
        encode_utf8(ascii_text(bytes)) == bytes,
        valid_utf8(bytes),
        decode_utf8(bytes) == ascii_text(bytes),
{
    let text = ascii_text(bytes);
    assert forall|i: int| 0 <= i < text.len() implies '\0' <= #[trigger] text[i] <= '\u{7f}' by {
        assert(text[i] == bytes[i] as char);
    }
    is_ascii_chars_encode_utf8(text);
    assert forall|i: int| 0 <= i < bytes.len() implies encode_utf8(text)[i] == bytes[i] by {
        assert(text[i] == bytes[i] as char);
        assert(text[i] as u8 == bytes[i]);
    }
    assert(encode_utf8(text) =~= bytes);
    encode_utf8_valid_utf8(text);
    encode_utf8_decode_utf8(text);
}

/// The bytes of an ASCII text in lower case are the bytes of the text, in
/// lower case.
pub proof fn lemma_bytes_of_lower_ascii(text: Seq<char>)
    requires
        is_ascii_chars(text),
    ensures
        all_ascii(encode_utf8(text)),
        is_ascii_chars(ascii_lowercase(text)),
        folded_form(text) == ascii_lowercase(text),
        encode_utf8(ascii_lowercase(text)) == lower_bytes(encode_utf8(text)),
        encode_utf8(text).len() == text.len(),
{
    let lower = ascii_lowercase(text);
    is_ascii_chars_encode_utf8(text);
    assert forall|i: int| 0 <= i < lower.len() implies '\0' <= #[trigger] lower[i] <= '\u{7f}' by {
        assert(lower[i] == ascii_lower(text[i]));
        assert('\0' <= text[i] <= '\u{7f}');
    }
    is_ascii_chars_encode_utf8(lower);
    assert forall|i: int| 0 <= i < text.len() implies encode_utf8(lower)[i] == lower_bytes(
        encode_utf8(text),
    )[i] by {
        assert(lower[i] == ascii_lower(text[i]));
        assert('\0' <= text[i] <= '\u{7f}');
        assert(encode_utf8(text)[i] == text[i] as u8);
        assert(encode_utf8(lower)[i] == lower[i] as u8);
    }
    assert(encode_utf8(lower) =~= lower_bytes(encode_utf8(text)));
    assert forall|i: int| 0 <= i < encode_utf8(text).len() implies #[trigger] encode_utf8(
        text,
    )[i] <= 0x7f by {
        assert('\0' <= text[i] <= '\u{7f}');
        assert(encode_utf8(text)[i] == text[i] as u8);
    }
}

/// ASCII text can be cut at every offset.
pub proof fn lemma_ascii_boundaries(line: Seq<u8>, at: int)
    requires
        all_ascii(line),
        0 <= at <= line.len(),
    ensures
        is_char_boundary(line, at),
{
    lemma_ascii_bytes_are_text(line);
    if at == line.len() {
        is_char_boundary_start_end_of_seq(line);
    } else {
        lemma_ascii_byte_boundaries(line, at);
    }
}

/// In ASCII text the next character starts at the next byte.
pub proof fn lemma_ascii_next_boundary(line: Seq<u8>, at: int)
    requires
        all_ascii(line),
        0 <= at < line.len(),
    ensures
        next_boundary(line, at) == at + 1,
{
    if at + 1 < line.len() {
        lemma_ascii_boundaries(line, at + 1);
    }
}

/// A part of an ASCII line has the folded form of an ASCII term exactly
/// where it is as long as the term and, in lower case, holds the bytes of
/// the term in lower case.
pub proof fn lemma_ascii_part_folds(line: Seq<u8>, start: int, end: int, term: Seq<char>)
    requires
        all_ascii(line),
        is_ascii_chars(term),
        0 <= start <= end <= line.len(),
    ensures
        folds_to(line, start, end, folded_form(term)) == (end - start == term.len()
            && matches_at(lower_bytes(line), lower_bytes(encode_utf8(term)), start)),
{
    let part = line.subrange(start, end);
    let needle = lower_bytes(encode_utf8(term));
    assert(all_ascii(part)) by {
        assert forall|i: int| 0 <= i < part.len() implies #[trigger] part[i] <= 0x7f by {
            assert(part[i] == line[start + i]);
        }
    }
    lemma_ascii_bytes_are_text(part);
    lemma_bytes_of_lower_ascii(ascii_text(part));
    lemma_bytes_of_lower_ascii(term);
    let folded_part = ascii_lowercase(ascii_text(part));
    assert(folded_form(decode_utf8(part)) == folded_part);
    assert(encode_utf8(folded_part) == lower_bytes(part));
    assert(lower_bytes(part) =~= lower_bytes(line).subrange(start, end));
    if folded_part == folded_form(term) {
        assert(lower_bytes(part) == needle);
        assert(needle.len() == term.len());
    }
    if end - start == term.len() && matches_at(lower_bytes(line), needle, start) {
        assert(lower_bytes(line).subrange(start, start + needle.len()) =~= needle);
        assert(encode_utf8(folded_part) == encode_utf8(ascii_lowercase(term)));
        lemma_same_bytes_same_text(folded_part, ascii_lowercase(term));
    }
}

/// In an ASCII line a match for an ASCII term starts exactly where the
/// term, in lower case, stands in the line in lower case, and is as long as
/// the term.
pub proof fn lemma_ascii_fold_end(line: Seq<u8>, start: int, end: int, term: Seq<char>)
    requires
        all_ascii(line),
        is_ascii_chars(term),
        term.len() > 0,
        0 <= start <= end <= line.len(),
        end <= start + term.len(),
    ensures
        fold_end(line, start, end, (start + term.len() - end) as nat, folded_form(term)) == if matches_at(
            lower_bytes(line),
            lower_bytes(encode_utf8(term)),
            start,
        ) {
            Some(start + term.len())
        } else {
            None
        },
    decreases start + term.len() - end,
{
    lemma_ascii_part_folds(line, start, end, term);
    lemma_bytes_of_lower_ascii(term);
    if end < start + term.len() && end < line.len() {
        lemma_ascii_next_boundary(line, end);
        lemma_ascii_fold_end(line, start, end + 1, term);
    }
}

/// The spans reported in an ASCII line for an ASCII term, without regard
/// to letter case, are the occurrences of the term in lower case in the
/// line in lower case.
pub proof fn lemma_ascii_folded_spans(line: Seq<u8>, from: int, term: Seq<char>)
    requires
        all_ascii(line),
        is_ascii_chars(term),
        term.len() > 0,
        0 <= from,
    ensures
        folded_spans_from(line, from, folded_form(term), term.len()) =~= literal_starts(
            lower_bytes(line),
            lower_bytes(encode_utf8(term)),
            from,
        ).map_values(|s: int| (s, s + term.len())),
    decreases line.len() + 1 - from,
{
    let lowered = lower_bytes(line);
    let needle = lower_bytes(encode_utf8(term));
    let width = term.len();
    lemma_bytes_of_lower_ascii(term);
    assert(needle.len() == width);
    if from <= line.len() {
        lemma_ascii_boundaries(line, from);
        lemma_ascii_fold_end(line, from, from, term);
        if matches_at(lowered, needle, from) {
            lemma_ascii_folded_spans(line, from + width, term);
        } else {
            lemma_ascii_folded_spans(line, from + 1, term);
        }
    }
}

/// In an ASCII line an ASCII term is found without regard to letter case
/// where the term in lower case is found exactly in the line in lower case.
pub proof fn lemma_ascii_spans(line: Seq<u8>, term: Seq<char>)
    requires
        all_ascii(line),
        is_ascii_chars(term),
        term.len() > 0,
    ensures
        (PatternModel::Literal { term, ignore_case: true }).spans_in(line) == (
        PatternModel::Literal { term: ascii_lowercase(term), ignore_case: false }).spans_in(
            lower_bytes(line),
        ),
{
    lemma_bytes_of_lower_ascii(term);
    lemma_ascii_folded_spans(line, 0, term);
    let needle = lower_bytes(encode_utf8(term));
    assert(needle.len() == term.len());
    assert(folded_form(term).len() == term.len());
    assert(literal_starts(lower_bytes(line), needle, 0).map_values(|s: int| (s, s + term.len()))
        =~= literal_starts(lower_bytes(line), needle, 0).map_values(
        |s: int| (s, s + needle.len()),
    ));
}

/// A text falls into the same lines whether its letters are in lower case
/// or not.
pub proof fn lemma_lines_of_lowered(text: Seq<u8>, start: int, at: int)
    requires
        0 <= start <= at,
    ensures
        lines_from(lower_bytes(text), start, at) == lines_from(text, start, at),
    decreases text.len() - at,
{
    let lowered = lower_bytes(text);
    if at < 0 || at >= text.len() {
    } else {
        assert(lowered[at] == lower_byte(text[at]));
        if text[at] == LINE_FEED {
            if start < at {
                assert(lowered[at - 1] == lower_byte(text[at - 1]));
            }
            assert(trimmed_end(lowered, start, at) == trimmed_end(text, start, at));
            lemma_lines_of_lowered(text, at + 1, at + 1);
        } else {
            lemma_lines_of_lowered(text, start, at + 1);
        }
    }
}

/// Two lists of occurrences name the same places: as many occurrences, and
/// one by one the same line and the same offset in the line.
pub open spec fn same_places(found: Seq<OccurrenceModel>, other: Seq<OccurrenceModel>) -> bool {
    &&& found.len() == other.len()
    &&& forall|i: int|
        0 <= i < found.len() ==> (#[trigger] found[i]).line_number == other[i].line_number
            && found[i].prefix.len() == other[i].prefix.len()
}

/// A scan of an ASCII text for an ASCII term without regard to letter case
/// finds the places that an exact scan finds for the term in lower case in
/// the text in lower case.
pub proof fn lemma_ascii_occurrences(text: Seq<u8>, term: Seq<char>, count: int)
    requires
        all_ascii(text),
        is_ascii_chars(term),
        term.len() > 0,
        0 <= count <= line_spans(text).len(),
    ensures
        same_places(
            occurrences_upto(text, PatternModel::Literal { term, ignore_case: true }, count),
            occurrences_upto(
                lower_bytes(text),
                PatternModel::Literal { term: ascii_lowercase(term), ignore_case: false },
                count,
            ),
        ),
    decreases count,
{
    let caseless = PatternModel::Literal { term, ignore_case: true };
    let exact = PatternModel::Literal { term: ascii_lowercase(term), ignore_case: false };
    let lowered = lower_bytes(text);
    if count > 0 {
        lemma_ascii_occurrences(text, term, count - 1);
        lemma_lines_of_lowered(text, 0, 0);
        lemma_lines_are_apart(text, 0, 0, count - 1, count - 1);
        let span = line_spans(text)[count - 1];
        let line = lines_of(text)[count - 1];
        let lowered_line = lines_of(lowered)[count - 1];
        assert(line == text.subrange(span.0, span.1));
        assert(lowered_line =~= lower_bytes(line));
        assert(all_ascii(line)) by {
            assert forall|i: int| 0 <= i < line.len() implies #[trigger] line[i] <= 0x7f by {
                assert(line[i] == text[span.0 + i]);
            }
        }
        lemma_ascii_spans(line, term);
        let spans = caseless.spans_in(line);
        assert(spans == exact.spans_in(lowered_line));
        let earlier = occurrences_upto(text, caseless, count - 1);
        let other_earlier = occurrences_upto(lowered, exact, count - 1);
        let found = occurrences_upto(text, caseless, count);
        let other = occurrences_upto(lowered, exact, count);
        assert(found == earlier + line_occurrences(line, count, spans));
        assert(other == other_earlier + line_occurrences(lowered_line, count, spans));
        assert forall|i: int| 0 <= i < found.len() implies (#[trigger] found[i]).line_number
            == other[i].line_number && found[i].prefix.len() == other[i].prefix.len() by {
            if i < earlier.len() {
                assert(found[i] == earlier[i]);
                assert(other[i] == other_earlier[i]);
            } else {
                let k = i - earlier.len();
                lemma_literal_spans_in_order(line, term, true, k, k);
                assert(found[i] == occurrence_at(line, count, spans[k]));
                assert(other[i] == occurrence_at(lowered_line, count, spans[k]));
            }
        }
    }
}

/// In ASCII text the letter case of the content and of a literal term makes
/// no difference where case is ignored. Two contents that differ in letter
/// case only, searched for two terms that differ in letter case only, give
/// the same whole-text signals and, in the same number of lines, the same
/// places: those that an exact search for the term in lower case finds in
/// the content in lower case.
pub proof fn lemma_ascii_case_is_ignored(
    content: Seq<char>,
    term: Seq<char>,
    other_content: Seq<char>,
    other_term: Seq<char>,
    count: int,
)
    requires
        is_ascii_chars(content),
        is_ascii_chars(term),
        is_ascii_chars(other_content),
        is_ascii_chars(other_term),
        term.len() > 0,
        ascii_lowercase(content) == ascii_lowercase(other_content),
        ascii_lowercase(term) == ascii_lowercase(other_term),
        0 <= count <= line_spans(encode_utf8(content)).len(),
    ensures
        ({
            let caseless = PatternModel::Literal { term, ignore_case: true };
            let other_caseless = PatternModel::Literal { term: other_term, ignore_case: true };
            let exact = PatternModel::Literal { term: ascii_lowercase(term), ignore_case: false };
            let lowered = encode_utf8(ascii_lowercase(content));
            &&& line_spans(encode_utf8(other_content)).len() == line_spans(
                encode_utf8(content),
            ).len()
            &&& line_spans(lowered).len() == line_spans(encode_utf8(content)).len()
            &&& same_places(
                occurrences_upto(encode_utf8(content), caseless, count),
                occurrences_upto(lowered, exact, count),
            )
            &&& same_places(
                occurrences_upto(encode_utf8(other_content), other_caseless, count),
                occurrences_upto(lowered, exact, count),
            )
            &&& same_places(
                occurrences_upto(encode_utf8(content), caseless, count),
                occurrences_upto(encode_utf8(other_content), other_caseless, count),
            )
            &&& caseless.detection(content) == other_caseless.detection(other_content)
            &&& caseless.detection(content) == exact.detection(ascii_lowercase(content))
        }),
{
    let bytes = encode_utf8(content);
    let other_bytes = encode_utf8(other_content);
    lemma_bytes_of_lower_ascii(content);
    lemma_bytes_of_lower_ascii(other_content);
    lemma_bytes_of_lower_ascii(term);
    lemma_bytes_of_lower_ascii(other_term);
    assert(ascii_lowercase(term).len() == term.len());
    assert(ascii_lowercase(other_term).len() == other_term.len());
    lemma_lines_of_lowered(bytes, 0, 0);
    lemma_lines_of_lowered(other_bytes, 0, 0);
    lemma_ascii_occurrences(bytes, term, count);
    lemma_ascii_occurrences(other_bytes, other_term, count);
}

} // verus!
