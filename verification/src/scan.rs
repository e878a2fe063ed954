//! Scanning a text line by line for the occurrences of a pattern, within a
//! budget of lines.

use crate::fold::{find_folded, fold_text, folded_form};
use crate::lines::{find_line_break, line_spans, lines_from, lines_of};
use crate::pattern::{Pattern, PatternModel};
use crate::text::{cut, span_fits, span_ints, spans_fit, Span};
use vstd::prelude::*;
use vstd::string::StringSliceAdditionalSpecFns;
use vstd::utf8::*;

verus! {

/// One located match of the pattern within a line, with the text of the
/// line around it.
#[derive(Clone, Debug, PartialEq, Eq)]
pub struct Occurrence {
    /// The number of the line in its text, counted from 1.
    pub line_number: usize,
    /// The line before the match.
    pub prefix: String,
    /// The match itself.
    pub matched_text: String,
    /// The line behind the match.
    pub suffix: String,
}

/// An occurrence for contracts: its line number and the bytes of its three
/// parts.
pub struct OccurrenceModel {
    pub line_number: int,
    pub prefix: Seq<u8>,
    pub matched_text: Seq<u8>,
    pub suffix: Seq<u8>,
}

impl View for Occurrence {
    type V = OccurrenceModel;

    open spec fn view(&self) -> OccurrenceModel {
        OccurrenceModel {
            line_number: self.line_number as int,
            prefix: encode_utf8(self.prefix@),
            matched_text: encode_utf8(self.matched_text@),
            suffix: encode_utf8(self.suffix@),
        }
    }
}

/// The models of a list of occurrences.
pub open spec fn occurrence_views(found: Seq<Occurrence>) -> Seq<OccurrenceModel> {
    found.map_values(|occurrence: Occurrence| occurrence@)
}

/// The occurrence that `span` marks in the line `line` with number
/// `number`: the line cut in three at the ends of the span.
pub open spec fn occurrence_at(line: Seq<u8>, number: int, span: (int, int)) -> OccurrenceModel {
    OccurrenceModel {
        line_number: number,
        prefix: line.subrange(0, span.0),
        matched_text: line.subrange(span.0, span.1),
        suffix: line.subrange(span.1, line.len() as int),
    }
}

/// The occurrences that a list of spans marks in one line, in the order of
/// the spans.
pub open spec fn line_occurrences(line: Seq<u8>, number: int, spans: Seq<(int, int)>) -> Seq<
    OccurrenceModel,
> {
    spans.map_values(|span: (int, int)| occurrence_at(line, number, span))
}

/// The occurrences of `pattern` in the first `count` lines of `text`, line
/// by line. Each is cut from its line as the line is written.
pub open spec fn occurrences_upto(text: Seq<u8>, pattern: PatternModel, count: int) -> Seq<
    OccurrenceModel,
>
    decreases count,
{
    if count <= 0 {
        Seq::empty()
    } else {
        let line = lines_of(text)[count - 1];
        occurrences_upto(text, pattern, count - 1) + line_occurrences(
            line,
            count,
            pattern.spans_in(line),
        )
    }
}

/// Every span lies inside the line.
pub open spec fn spans_inside(line: Seq<u8>, spans: Seq<(int, int)>) -> bool {
    forall|i: int|
        0 <= i < spans.len() ==> 0 <= (#[trigger] spans[i]).0 <= spans[i].1 <= line.len()
}

impl OccurrenceModel {
    /// The three parts of the occurrence, put together again, are `line`.
    pub open spec fn rebuilds(self, line: Seq<u8>) -> bool {
        self.prefix + self.matched_text + self.suffix == line
    }
}

/// Every occurrence lies in one of the first `count` lines of `text`, and
/// its three parts, put together again, are that line.
pub open spec fn placed_in_lines(found: Seq<OccurrenceModel>, text: Seq<u8>, count: int) -> bool {
    forall|i: int|
        0 <= i < found.len() ==> 1 <= (#[trigger] found[i]).line_number <= count
            && found[i].rebuilds(lines_of(text)[found[i].line_number - 1])
}

/// The occurrences found in the first `count` lines of a text lie in those
/// lines, and each rebuilds its line, where the spans that the pattern
/// reports lie inside the lines.
pub proof fn lemma_occurrences_placed(text: Seq<u8>, pattern: PatternModel, count: int)
    requires
        0 <= count <= lines_of(text).len(),
        forall|k: int|
            0 <= k < count ==> spans_inside(
                #[trigger] lines_of(text)[k],
                pattern.spans_in(lines_of(text)[k]),
            ),
    ensures
        placed_in_lines(occurrences_upto(text, pattern, count), text, count),
    decreases count,
{
    if count > 0 {
        lemma_occurrences_placed(text, pattern, count - 1);
        let earlier = occurrences_upto(text, pattern, count - 1);
        let line = lines_of(text)[count - 1];
        let spans = pattern.spans_in(line);
        let here = line_occurrences(line, count, spans);
        let found = occurrences_upto(text, pattern, count);
        assert(found == earlier + here);
        assert(spans_inside(line, spans));
        assert forall|i: int| 0 <= i < found.len() implies 1 <= (#[trigger] found[i]).line_number
            <= count && found[i].rebuilds(lines_of(text)[found[i].line_number - 1]) by {
            if i < earlier.len() {
                assert(found[i] == earlier[i]);
            } else {
                let span = spans[i - earlier.len()];
                assert(found[i] == occurrence_at(line, count, span));
                assert(line.subrange(0, span.0) + line.subrange(span.0, span.1) + line.subrange(
                    span.1,
                    line.len() as int,
                ) =~= line);
            }
        }
    }
}

impl Occurrence {
    /// Cuts the line in three at the ends of `span`.
    pub fn cut_from(line: &str, number: usize, span: Span) -> (made: Occurrence)
        requires
            span_fits(line.spec_bytes(), (span.0 as int, span.1 as int)),
        ensures
            made@ == occurrence_at(line.spec_bytes(), number as int, (span.0 as int, span.1 as int)),
    {
        proof {
            encode_utf8_valid_utf8(line@);
            is_char_boundary_start_end_of_seq(line.spec_bytes());
        }
        let total: usize = line.as_bytes().len();
        let prefix = cut(line, 0, span.0).to_owned();
        let matched_text = cut(line, span.0, span.1).to_owned();
        let suffix = cut(line, span.1, total).to_owned();
        Occurrence { line_number: number, prefix, matched_text, suffix }
    }
}

/// Appends to `found` the occurrences that `spans` mark in a line.
pub fn push_occurrences(found: &mut Vec<Occurrence>, line: &str, number: usize, spans: &Vec<Span>)
    requires
        spans_fit(line.spec_bytes(), span_ints(spans@)),
    ensures
        occurrence_views(final(found)@) =~= occurrence_views(old(found)@) + line_occurrences(
            line.spec_bytes(),
            number as int,
            span_ints(spans@),
        ),
{
    let ghost marks = span_ints(spans@);
    let ghost line_bytes = line.spec_bytes();
    let mut i: usize = 0;
    while i < spans.len()
        invariant
            i <= spans@.len(),
            marks == span_ints(spans@),
            line_bytes == line.spec_bytes(),
            spans_fit(line_bytes, marks),
            occurrence_views(found@) =~= occurrence_views(old(found)@) + line_occurrences(
                line_bytes,
                number as int,
                marks.take(i as int),
            ),
        decreases spans@.len() - i,
    {
        let span = spans[i];
        assert(span_fits(line_bytes, marks[i as int]));
        let made = Occurrence::cut_from(line, number, span);
        let ghost held = found@;
        found.push(made);
        proof {
            assert(marks[i as int] == (span.0 as int, span.1 as int));
            assert(marks.take(i + 1) =~= marks.take(i as int).push(marks[i as int]));
            assert(occurrence_views(found@) =~= occurrence_views(held).push(made@));
            assert(line_occurrences(line_bytes, number as int, marks.take(i + 1))
                =~= line_occurrences(line_bytes, number as int, marks.take(i as int)).push(
                occurrence_at(line_bytes, number as int, marks[i as int]),
            ));
        }
        i += 1;
    }
    proof {
        assert(marks.take(spans@.len() as int) =~= marks);
    }
}

/// How many more lines may be scanned: a number, or no limit.
#[derive(Clone, Copy, Debug, PartialEq, Eq, Structural)]
pub struct LineBudget {
    /// The lines left, or `None` where there is no limit.
    pub remaining: Option<usize>,
}

impl View for LineBudget {
    type V = Option<nat>;

    open spec fn view(&self) -> Option<nat> {
        match self.remaining {
            Some(left) => Some(left as nat),
            None => None,
        }
    }
}

/// How many of `line_count` lines are scanned under `budget`.
pub open spec fn lines_scanned(line_count: nat, budget: Option<nat>) -> nat {
    match budget {
        Some(left) => if left < line_count {
            left
        } else {
            line_count
        },
        None => line_count,
    }
}

/// What is left of `budget` after a text of `line_count` lines.
pub open spec fn budget_after(line_count: nat, budget: Option<nat>) -> Option<nat> {
    match budget {
        Some(left) => Some((left - lines_scanned(line_count, budget)) as nat),
        None => None,
    }
}

impl LineBudget {
    /// A budget without limit.
    pub fn unlimited() -> (made: LineBudget)
        ensures
            made@ == None::<nat>,
    {
        LineBudget { remaining: None }
    }

    /// A budget of `lines` lines.
    pub fn limited(lines: usize) -> (made: LineBudget)
        ensures
            made@ == Some(lines as nat),
    {
        LineBudget { remaining: Some(lines) }
    }

    /// No line may be scanned any more.
    pub open spec fn exhausted(&self) -> bool {
        self@ == Some(0nat)
    }

    /// Tells whether no line may be scanned any more.
    pub fn is_exhausted(&self) -> (done: bool)
        ensures
            done == self.exhausted(),
    {
        match self.remaining {
            Some(left) => left == 0,
            None => false,
        }
    }

    /// Takes one line from the budget, if one is left.
    pub fn take_line(&mut self) -> (taken: bool)
        ensures
            taken == !old(self).exhausted(),
            final(self)@ == budget_after(if taken { 1 } else { 0 }, old(self)@),
    {
        match self.remaining {
            Some(left) => {
                if left == 0 {
                    false
                } else {
                    self.remaining = Some(left - 1);
                    true
                }
            },
            None => true,
        }
    }
}

/// One budget is another from which `taken` lines were taken.
pub open spec fn budget_less(before: Option<nat>, taken: nat, after: Option<nat>) -> bool {
    match before {
        Some(left) => taken <= left && after == Some((left - taken) as nat),
        None => after == None::<nat>,
    }
}

/// Scans `content` line by line, from line 1 on, and collects the
/// occurrences of `pattern` in the order of the lines and, within a line, in
/// the order in which the pattern reports them. Each occurrence is cut from
/// its line as the line is written, also where the pattern ignores letter
/// case. Each line scanned takes one line from `budget`, whether it holds a
/// match or not; the scan ends where the budget is exhausted, or at the end
/// of the text.
pub fn scan_lines(content: &str, pattern: &Pattern, budget: &mut LineBudget) -> (found: Vec<
    Occurrence,
>)
    ensures
        occurrence_views(found@) =~= occurrences_upto(
            content.spec_bytes(),
            pattern@,
            lines_scanned(line_spans(content.spec_bytes()).len(), old(budget)@) as int,
        ),
        final(budget)@ == budget_after(line_spans(content.spec_bytes()).len(), old(budget)@),
        placed_in_lines(
            occurrence_views(found@),
            content.spec_bytes(),
            lines_scanned(line_spans(content.spec_bytes()).len(), old(budget)@) as int,
        ),
{
    let folded: Option<String> = match pattern {
        Pattern::Literal { term, ignore_case } => if *ignore_case {
            Some(fold_text(term.as_str()))
        } else {
            None
        },
        Pattern::CompiledRegex { regex, groups } => None,
    };
    let ghost text = content.spec_bytes();
    let ghost spans_of_lines = line_spans(text);
    let total: usize = content.as_bytes().len();
    let mut found: Vec<Occurrence> = Vec::new();
    let mut start: usize = 0;
    let mut number: usize = 0;
    proof {
        encode_utf8_valid_utf8(content@);
        assert(spans_of_lines.skip(0) =~= spans_of_lines);
    }
    while start < total && !budget.is_exhausted()
        invariant
            text == content.spec_bytes(),
            spans_of_lines == line_spans(text),
            valid_utf8(text),
            total == text.len(),
            number <= start <= total,
            is_char_boundary(text, start as int),
            number <= spans_of_lines.len(),
            lines_from(text, start as int, start as int) =~= spans_of_lines.skip(number as int),
            budget_less(old(budget)@, number as nat, budget@),
            occurrence_views(found@) =~= occurrences_upto(text, pattern@, number as int),
            forall|k: int|
                0 <= k < number ==> spans_inside(
                    #[trigger] lines_of(text)[k],
                    pattern@.spans_in(lines_of(text)[k]),
                ),
            match folded {
                Some(lower) => pattern@ == (PatternModel::Literal {
                    term: pattern@.term(),
                    ignore_case: true,
                }) && lower@ == folded_form(pattern@.term()),
                None => true,
            },
        decreases total - start,
    {
        let taken = budget.take_line();
        let line_break = find_line_break(content, start);
        let line = cut(content, start, line_break.end);
        let spans = match &folded {
            Some(lower) => find_folded(line, lower.as_str()),
            None => pattern.find_all(line),
        };
        proof {
            let here = lines_from(text, start as int, start as int);
            let rest = spans_of_lines.skip(number as int);
            assert(here == seq![(start as int, line_break.end as int)] + lines_from(
                text,
                line_break.next as int,
                line_break.next as int,
            ));
            assert(here.len() >= 1);
            assert(here[0] == (start as int, line_break.end as int));
            assert(rest.len() == here.len());
            assert(rest[0] == here[0]);
            assert(spans_of_lines[number as int] == rest[0]);
            assert(spans_of_lines.skip(number + 1) =~= rest.skip(1));
            assert(lines_of(text)[number as int] == line.spec_bytes());
        }
        number += 1;
        push_occurrences(&mut found, line, number, &spans);
        start = line_break.next;
    }
    proof {
        if start >= total {
            assert(spans_of_lines.skip(number as int).len() == 0);
        }
        lemma_occurrences_placed(text, pattern@, number as int);
    }
    found
}

} // verus!
