//! What holds of every search: laws that relate the parts of the library.

use crate::fold::{
    folded_form, folded_spans, lemma_folded_spans_ascend, lemma_folded_spans_match,
    lemma_same_folded_spans, same_but_for_case,
};
use crate::lines::{line_spans, lines_of};
use crate::pattern::PatternModel;
use crate::scan::{
    budget_after, line_occurrences, lines_scanned, occurrence_views, occurrences_upto,
    lemma_occurrences_placed, placed_in_lines, spans_inside, Occurrence, OccurrenceModel,
};
use crate::text::{
    lemma_literal_spans_ascend, lemma_literal_spans_inside, lemma_same_bytes_same_text,
};
use vstd::prelude::*;
use vstd::utf8::*;

verus! {

/// The bytes of two texts in a row are the bytes of the one, then those of
/// the other.
pub proof fn lemma_bytes_of_joined_texts(left: Seq<char>, right: Seq<char>)
    ensures
        encode_utf8(left + right) == encode_utf8(left) + encode_utf8(right),
    decreases left.len(),
{
    if left.len() == 0 {
        assert(left + right =~= right);
        assert(encode_utf8(left) + encode_utf8(right) =~= encode_utf8(right));
    } else {
        lemma_bytes_of_joined_texts(left.drop_first(), right);
        assert((left + right).drop_first() =~= left.drop_first() + right);
        assert((left + right)[0] == left[0]);
        assert(encode_utf8(left + right) =~= encode_utf8(left) + encode_utf8(right));
    }
}

/// An occurrence whose parts rebuild the bytes of a line rebuilds the line
/// as text: prefix, match and suffix in a row are the line.
pub proof fn lemma_occurrence_rebuilds_text(found: Occurrence, line: Seq<char>)
    requires
        found@.rebuilds(encode_utf8(line)),
    ensures
        found.prefix@ + found.matched_text@ + found.suffix@ == line,
{
    lemma_bytes_of_joined_texts(found.prefix@, found.matched_text@);
    lemma_bytes_of_joined_texts(found.prefix@ + found.matched_text@, found.suffix@);
    lemma_same_bytes_same_text(found.prefix@ + found.matched_text@ + found.suffix@, line);
}

/// The spans reported for a literal term, with or without regard to
/// letter case, lie inside the line and start at strictly ascending
/// offsets.
pub proof fn lemma_literal_spans_in_order(
    line: Seq<u8>,
    term: Seq<char>,
    ignore_case: bool,
    i: int,
    j: int,
)
    requires
        0 <= i <= j < (PatternModel::Literal { term, ignore_case }).spans_in(line).len(),
    ensures
        ({
            let spans = (PatternModel::Literal { term, ignore_case }).spans_in(line);
            &&& 0 <= spans[i].0 <= spans[i].1 <= line.len()
            &&& i < j ==> spans[i].0 < spans[j].0
        }),
{
    if ignore_case {
        let folded = folded_form(term);
        lemma_folded_spans_ascend(line, 0, folded, folded.len(), i, j);
    } else {
        lemma_literal_spans_inside(line, encode_utf8(term), i);
        if i < j {
            lemma_literal_spans_ascend(line, encode_utf8(term), i, j);
        }
    }
}

/// For a literal term, with or without regard to letter case, every
/// occurrence found in the first `count` lines of a text lies in one of
/// those lines and rebuilds it: prefix, match and suffix in a row are the
/// line as it is written.
pub proof fn lemma_literal_occurrences_rebuild_lines(
    text: Seq<u8>,
    term: Seq<char>,
    ignore_case: bool,
    count: int,
)
    requires
        0 <= count <= lines_of(text).len(),
    ensures
        placed_in_lines(
            occurrences_upto(text, PatternModel::Literal { term, ignore_case }, count),
            text,
            count,
        ),
{
    let pattern = PatternModel::Literal { term, ignore_case };
    assert forall|k: int| 0 <= k < count implies spans_inside(
        #[trigger] lines_of(text)[k],
        pattern.spans_in(lines_of(text)[k]),
    ) by {
        let line = lines_of(text)[k];
        let spans = pattern.spans_in(line);
        assert forall|i: int| 0 <= i < spans.len() implies 0 <= (#[trigger] spans[i]).0
            <= spans[i].1 <= line.len() by {
            lemma_literal_spans_in_order(line, term, ignore_case, i, i);
        }
    }
    lemma_occurrences_placed(text, pattern, count);
}

/// Every occurrence found in the first `count` lines has a line number from
/// 1 to `count`.
pub proof fn lemma_line_numbers_in_range(text: Seq<u8>, pattern: PatternModel, count: int, i: int)
    requires
        0 <= i < occurrences_upto(text, pattern, count).len(),
    ensures
        1 <= occurrences_upto(text, pattern, count)[i].line_number <= count,
    decreases count,
{
    if count > 0 {
        let earlier = occurrences_upto(text, pattern, count - 1);
        if i < earlier.len() {
            lemma_line_numbers_in_range(text, pattern, count - 1, i);
        }
    }
}

/// Occurrences come in the order of their lines.
pub proof fn lemma_line_numbers_ascend(
    text: Seq<u8>,
    pattern: PatternModel,
    count: int,
    i: int,
    j: int,
)
    requires
        0 <= i < j < occurrences_upto(text, pattern, count).len(),
    ensures
        occurrences_upto(text, pattern, count)[i].line_number <= occurrences_upto(
            text,
            pattern,
            count,
        )[j].line_number,
    decreases count,
{
    if count > 0 {
        let earlier = occurrences_upto(text, pattern, count - 1);
        if j < earlier.len() {
            lemma_line_numbers_ascend(text, pattern, count - 1, i, j);
        } else if i < earlier.len() {
            lemma_line_numbers_in_range(text, pattern, count - 1, i);
        }
    }
}

/// For a literal term, with or without regard to letter case, occurrences
/// come strictly in the order of their lines and, within a line, of the
/// offsets at which they start.
pub proof fn lemma_literal_occurrences_ascend(
    text: Seq<u8>,
    term: Seq<char>,
    ignore_case: bool,
    count: int,
    i: int,
    j: int,
)
    requires
        0 <= i < j < occurrences_upto(
            text,
            PatternModel::Literal { term, ignore_case },
            count,
        ).len(),
    ensures
        ({
            let found = occurrences_upto(text, PatternModel::Literal { term, ignore_case }, count);
            found[i].line_number < found[j].line_number || (found[i].line_number
                == found[j].line_number && found[i].prefix.len() < found[j].prefix.len())
        }),
    decreases count,
{
    let pattern = PatternModel::Literal { term, ignore_case };
    if count > 0 {
        let earlier = occurrences_upto(text, pattern, count - 1);
        let line = lines_of(text)[count - 1];
        let spans = pattern.spans_in(line);
        let found = occurrences_upto(text, pattern, count);
        assert(found == earlier + line_occurrences(line, count, spans));
        if j < earlier.len() {
            lemma_literal_occurrences_ascend(text, term, ignore_case, count - 1, i, j);
        } else if i < earlier.len() {
            lemma_line_numbers_in_range(text, pattern, count - 1, i);
        } else {
            let a = i - earlier.len();
            let b = j - earlier.len();
            lemma_literal_spans_in_order(line, term, ignore_case, a, b);
            lemma_literal_spans_in_order(line, term, ignore_case, b, b);
        }
    }
}

/// Where case is ignored, the match of every occurrence found for a
/// literal term has the folded form of the term, whatever its letter case
/// in the line.
pub proof fn lemma_caseless_matches_fold_to_term(
    text: Seq<u8>,
    term: Seq<char>,
    count: int,
    i: int,
)
    requires
        0 <= i < occurrences_upto(
            text,
            PatternModel::Literal { term, ignore_case: true },
            count,
        ).len(),
    ensures
        folded_form(
            decode_utf8(
                occurrences_upto(
                    text,
                    PatternModel::Literal { term, ignore_case: true },
                    count,
                )[i].matched_text,
            ),
        ) == folded_form(term),
    decreases count,
{
    let pattern = PatternModel::Literal { term, ignore_case: true };
    if count > 0 {
        let earlier = occurrences_upto(text, pattern, count - 1);
        let line = lines_of(text)[count - 1];
        let folded = folded_form(term);
        let spans = folded_spans(line, folded);
        let found = occurrences_upto(text, pattern, count);
        assert(found == earlier + line_occurrences(line, count, spans));
        if i < earlier.len() {
            lemma_caseless_matches_fold_to_term(text, term, count - 1, i);
        } else {
            lemma_folded_spans_match(line, 0, folded, folded.len(), i - earlier.len());
        }
    }
}

/// Where case is ignored, the letter case of the line and of a literal term
/// makes no difference: in lines that differ in letter case only, terms
/// with the same folded form are found at the same places.
pub proof fn lemma_case_is_ignored(
    line: Seq<u8>,
    other_line: Seq<u8>,
    term: Seq<char>,
    other_term: Seq<char>,
)
    requires
        same_but_for_case(line, other_line),
        folded_form(term) == folded_form(other_term),
    ensures
        (PatternModel::Literal { term, ignore_case: true }).spans_in(line) == (
        PatternModel::Literal { term: other_term, ignore_case: true }).spans_in(other_line),
{
    let folded = folded_form(term);
    lemma_same_folded_spans(line, other_line, 0, folded, folded.len());
}

/// Where case is ignored, the whole-text check finds a literal term in
/// the one of two contents with the same folded form where it finds a term
/// with the same folded form in the other.
pub proof fn lemma_case_is_ignored_in_whole_text(
    term: Seq<char>,
    other_term: Seq<char>,
    content: Seq<char>,
    other_content: Seq<char>,
)
    requires
        folded_form(term) == folded_form(other_term),
        folded_form(content) == folded_form(other_content),
    ensures
        (PatternModel::Literal { term, ignore_case: true }).detection(content) == (
        PatternModel::Literal { term: other_term, ignore_case: true }).detection(other_content),
{
}

/// The lines scanned in the files of a run, one file after the other,
/// under a budget that is carried from file to file. A file is given by the
/// number of its lines.
pub open spec fn run_scanned(line_counts: Seq<nat>, budget: Option<nat>) -> nat
    decreases line_counts.len(),
{
    if line_counts.len() == 0 {
        0
    } else {
        lines_scanned(line_counts[0], budget) + run_scanned(
            line_counts.skip(1),
            budget_after(line_counts[0], budget),
        )
    }
}

/// What is left of the budget after the files of a run.
pub open spec fn run_budget(line_counts: Seq<nat>, budget: Option<nat>) -> Option<nat>
    decreases line_counts.len(),
{
    if line_counts.len() == 0 {
        budget
    } else {
        run_budget(line_counts.skip(1), budget_after(line_counts[0], budget))
    }
}

/// A run under a budget of `limit` lines scans at most `limit` lines in
/// all its files together, and what it scans is what the budget loses.
pub proof fn lemma_run_stays_within_budget(line_counts: Seq<nat>, limit: nat)
    ensures
        run_scanned(line_counts, Some(limit)) <= limit,
        run_budget(line_counts, Some(limit)) == Some(
            (limit - run_scanned(line_counts, Some(limit))) as nat,
        ),
    decreases line_counts.len(),
{
    if line_counts.len() > 0 {
        let left = (limit - lines_scanned(line_counts[0], Some(limit))) as nat;
        lemma_run_stays_within_budget(line_counts.skip(1), left);
    }
}

/// Once the budget is exhausted, no file of the run is scanned any more,
/// and the budget stays exhausted.
pub proof fn lemma_exhausted_budget_ends_the_run(line_counts: Seq<nat>)
    ensures
        run_scanned(line_counts, Some(0nat)) == 0,
        run_budget(line_counts, Some(0nat)) == Some(0nat),
    decreases line_counts.len(),
{
    if line_counts.len() > 0 {
        lemma_exhausted_budget_ends_the_run(line_counts.skip(1));
    }
}

/// Without a limit every line of every file is scanned.
pub proof fn lemma_unlimited_run_scans_all(line_counts: Seq<nat>)
    ensures
        run_scanned(line_counts, None) == line_counts.fold_left(0nat, |sum: nat, n: nat| sum + n),
        run_budget(line_counts, None) == None::<nat>,
    decreases line_counts.len(),
{
    if line_counts.len() > 0 {
        lemma_unlimited_run_scans_all(line_counts.skip(1));
        lemma_sum_from_the_left(line_counts);
    }
}

/// The sum of a row of numbers is its first number and the sum of the
/// rest.
pub proof fn lemma_sum_from_the_left(numbers: Seq<nat>)
    requires
        numbers.len() > 0,
    ensures
        numbers.fold_left(0nat, |sum: nat, n: nat| sum + n) == numbers[0] + numbers.skip(
            1,
        ).fold_left(0nat, |sum: nat, n: nat| sum + n),
    decreases numbers.len(),
{
    if numbers.len() == 1 {
        assert(numbers.drop_last() =~= Seq::<nat>::empty());
        assert(numbers.skip(1) =~= Seq::<nat>::empty());
    } else {
        lemma_sum_from_the_left(numbers.drop_last());
        assert(numbers.drop_last().skip(1) =~= numbers.skip(1).drop_last());
        assert(numbers.drop_last()[0] == numbers[0]);
        assert(numbers.skip(1).last() == numbers.last());
    }
}

/// An empty text has no line: nothing is found in it, and the budget stays
/// as it is.
pub proof fn lemma_empty_text_scans_nothing(pattern: PatternModel, budget: Option<nat>)
    ensures
        line_spans(Seq::<u8>::empty()).len() == 0,
        lines_scanned(line_spans(Seq::<u8>::empty()).len(), budget) == 0,
        occurrences_upto(
            Seq::<u8>::empty(),
            pattern,
            lines_scanned(line_spans(Seq::<u8>::empty()).len(), budget) as int,
        ) == Seq::<OccurrenceModel>::empty(),
        budget_after(line_spans(Seq::<u8>::empty()).len(), budget) == budget,
{
}

/// Two scans of the same text for the same pattern under the same budget
/// find the same occurrences, in the same order: the same lines, and the
/// same text before, in and behind each match.
pub proof fn lemma_scan_repeats(
    text: Seq<u8>,
    pattern: PatternModel,
    budget: Option<nat>,
    first: Seq<Occurrence>,
    second: Seq<Occurrence>,
)
    requires
        occurrence_views(first) == occurrences_upto(
            text,
            pattern,
            lines_scanned(line_spans(text).len(), budget) as int,
        ),
        occurrence_views(second) == occurrences_upto(
            text,
            pattern,
            lines_scanned(line_spans(text).len(), budget) as int,
        ),
    ensures
        first.len() == second.len(),
        forall|i: int|
            0 <= i < first.len() ==> {
                &&& (#[trigger] first[i]).line_number == second[i].line_number
                &&& first[i].prefix@ == second[i].prefix@
                &&& first[i].matched_text@ == second[i].matched_text@
                &&& first[i].suffix@ == second[i].suffix@
            },
{
    assert(occurrence_views(first).len() == first.len());
    assert(occurrence_views(second).len() == second.len());
    assert forall|i: int| 0 <= i < first.len() implies {
        &&& (#[trigger] first[i]).line_number == second[i].line_number
        &&& first[i].prefix@ == second[i].prefix@
        &&& first[i].matched_text@ == second[i].matched_text@
        &&& first[i].suffix@ == second[i].suffix@
    } by {
        assert(occurrence_views(first)[i] == first[i]@);
        assert(occurrence_views(second)[i] == second[i]@);
        lemma_same_bytes_same_text(first[i].prefix@, second[i].prefix@);
        lemma_same_bytes_same_text(first[i].matched_text@, second[i].matched_text@);
        lemma_same_bytes_same_text(first[i].suffix@, second[i].suffix@);
    }
}

} // verus!
