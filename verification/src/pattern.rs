//! What is searched for: a literal term or a compiled regular expression.

use crate::fold::{find_folded, fold_text, folded_form, folded_spans};
use crate::text::{find_literal, literal_spans, span_fits, span_ints, spans_fit, Span};
use regex::{Regex, RegexBuilder};
use vstd::prelude::*;
use vstd::string::StringSliceAdditionalSpecFns;
use vstd::utf8::*;

verus! {

/// `regex::Regex`, a compiled regular expression of the regex engine. It
/// is carried as it is, and nothing is known of what is inside.
#[verifier::external_type_specification]
#[verifier::external_body]
pub struct ExRegex(regex::Regex);

/// `regex::Error`, the regex engine's refusal of a pattern. It is carried
/// as it is, and nothing is known of what is inside.
#[verifier::external_type_specification]
#[verifier::external_body]
pub struct ExRegexError(regex::Error);

/// Whether the regex engine accepts `source` as a pattern, to be matched
/// without regard to letter case where `ignore_case` is set.
pub uninterp spec fn regex_accepts(source: Seq<char>, ignore_case: bool) -> bool;

/// Whether the pattern `source` matches anywhere in `haystack`, without
/// regard to letter case where `ignore_case` is set.
pub uninterp spec fn regex_is_match(
    source: Seq<char>,
    ignore_case: bool,
    haystack: Seq<char>,
) -> bool;

/// The successive matches of the pattern `source` in `haystack`, without
/// regard to letter case where `ignore_case` is set: for each match its
/// capture groups in the order of the pattern, the whole match first, each
/// with its byte range where the group took part in the match.
pub uninterp spec fn regex_captures(
    source: Seq<char>,
    ignore_case: bool,
    haystack: Seq<char>,
) -> Seq<Seq<Option<Span>>>;

/// The capture groups of each match, as sequences.
pub open spec fn groups_view(found: Seq<Vec<Option<Span>>>) -> Seq<Seq<Option<Span>>> {
    found.map_values(|groups: Vec<Option<Span>>| groups@)
}

/// Every group that took part in a match has a span that fits `text`.
pub open spec fn groups_fit(text: Seq<u8>, found: Seq<Seq<Option<Span>>>) -> bool {
    forall|i: int, j: int|
        0 <= i < found.len() && 0 <= j < found[i].len() ==> match #[trigger] found[i][j] {
            Some(span) => span_fits(text, (span.0 as int, span.1 as int)),
            None => true,
        }
}

/// What a regular expression was compiled from: the pattern, and whether
/// it is matched without regard to letter case.
pub struct RegexModel {
    pub source: Seq<char>,
    pub ignore_case: bool,
}

/// A regular expression together with what it was compiled from. Its view
/// is the pattern and the regard to letter case.
#[derive(Debug)]
pub struct CompiledRegex {
    source: String,
    ignore_case: bool,
    engine: Regex,
}

impl View for CompiledRegex {
    type V = RegexModel;

    closed spec fn view(&self) -> RegexModel {
        RegexModel { source: self.source@, ignore_case: self.ignore_case }
    }
}

/// Calls `regex::RegexBuilder::new`, `RegexBuilder::case_insensitive` and
/// `RegexBuilder::build`. The contract names the engine's verdict on the
/// pattern and says that the compiled expression is kept with what it came
/// from; nothing is claimed about which patterns are accepted.
#[verifier::external_body]
fn compile(source: &str, ignore_case: bool) -> (made: Result<CompiledRegex, regex::Error>)
    ensures
        made is Ok <==> regex_accepts(source@, ignore_case),
        made matches Ok(compiled) ==> compiled@ == (RegexModel { source: source@, ignore_case }),
{
    match RegexBuilder::new(source).case_insensitive(ignore_case).build() {
        Ok(engine) => Ok(CompiledRegex { source: source.to_owned(), ignore_case, engine }),
        Err(refusal) => Err(refusal),
    }
}

/// Calls `regex::Regex::is_match`. The contract names the answer as a
/// function of what the expression was compiled from and the haystack.
#[verifier::external_body]
fn engine_is_match(compiled: &CompiledRegex, haystack: &str) -> (found: bool)
    ensures
        found == regex_is_match(compiled@.source, compiled@.ignore_case, haystack@),
{
    compiled.engine.is_match(haystack)
}

/// Calls `regex::Regex::captures_iter` and, on each match, `Captures::iter`,
/// `Match::start` and `Match::end`. The contract names the groups found as a
/// function of what the expression was compiled from and the haystack, and
/// states what the engine
/// documents of every `Match`: its start is not behind its end, and both are
/// offsets at which the haystack can be sliced.
#[verifier::external_body]
fn engine_captures(compiled: &CompiledRegex, haystack: &str) -> (found: Vec<Vec<Option<Span>>>)
    ensures
        groups_view(found@) == regex_captures(
            compiled@.source,
            compiled@.ignore_case,
            haystack@,
        ),
        groups_fit(haystack.spec_bytes(), groups_view(found@)),
{
    compiled.engine.captures_iter(haystack).map(
        |caps| caps.iter().map(|group| group.map(|m| (m.start(), m.end()))).collect(),
    ).collect()
}

/// Why a pattern could not be built.
#[derive(Clone, Copy, Debug, PartialEq, Eq, Structural)]
pub enum PatternError {
    /// The regex engine refused the pattern.
    InvalidPattern,
}

/// Which capture groups of a regex match are reported.
#[derive(Clone, Copy, Debug, PartialEq, Eq, Structural)]
pub enum GroupReport {
    /// The whole match and every group that took part in it, each as a
    /// span of its own.
    EveryGroup,
    /// The whole match only.
    WholeMatch,
}

/// What is searched for, and whether letter case is regarded.
#[derive(Debug)]
pub enum Pattern {
    /// A substring, to be found exactly or without regard to letter case.
    Literal { term: String, ignore_case: bool },
    /// A compiled regular expression, which knows whether it regards letter
    /// case, and which of its groups are reported.
    CompiledRegex { regex: CompiledRegex, groups: GroupReport },
}

/// What a pattern is, for contracts: the literal term, or the source of the
/// regular expression with the groups to report, and for both whether
/// letter case is ignored.
pub enum PatternModel {
    Literal { term: Seq<char>, ignore_case: bool },
    Regex { source: Seq<char>, ignore_case: bool, groups: GroupReport },
}

impl View for Pattern {
    type V = PatternModel;

    open spec fn view(&self) -> PatternModel {
        match self {
            Pattern::Literal { term, ignore_case } => PatternModel::Literal {
                term: term@,
                ignore_case: *ignore_case,
            },
            Pattern::CompiledRegex { regex, groups } => PatternModel::Regex {
                source: regex@.source,
                ignore_case: regex@.ignore_case,
                groups: *groups,
            },
        }
    }
}

impl PatternModel {
    /// The term that was given to search for: the literal itself, or the
    /// source of the regular expression.
    pub open spec fn term(self) -> Seq<char> {
        match self {
            PatternModel::Literal { term, ignore_case } => term,
            PatternModel::Regex { source, ignore_case, groups } => source,
        }
    }

    /// Whether the pattern is matched without regard to letter case.
    pub open spec fn ignores_case(self) -> bool {
        match self {
            PatternModel::Literal { term, ignore_case } => ignore_case,
            PatternModel::Regex { source, ignore_case, groups } => ignore_case,
        }
    }

    /// The spans this pattern reports in a line, which is taken as it is
    /// written. A literal term is found where it stands in the line; where
    /// letter case is ignored, it is found in every part of the line whose
    /// folded form is that of the term. A regular expression is matched by
    /// the regex engine, without regard to letter case where letter case is
    /// ignored.
    pub open spec fn spans_in(self, line: Seq<u8>) -> Seq<(int, int)> {
        match self {
            PatternModel::Literal { term, ignore_case } => if ignore_case {
                folded_spans(line, folded_form(term))
            } else {
                literal_spans(line, encode_utf8(term))
            },
            PatternModel::Regex { source, ignore_case, groups } => reported_groups(
                regex_captures(source, ignore_case, decode_utf8(line)),
                groups,
            ),
        }
    }

    /// Whether this pattern, taken as a regular expression, matches
    /// somewhere in a text, without regard to letter case where letter case
    /// is ignored. A literal pattern never does.
    pub open spec fn regex_matches(self, text: Seq<char>) -> bool {
        match self {
            PatternModel::Literal { term, ignore_case } => false,
            PatternModel::Regex { source, ignore_case, groups } => regex_is_match(
                source,
                ignore_case,
                text,
            ),
        }
    }
}

/// The groups of one match that `report` selects.
pub open spec fn selected_groups(groups: Seq<Option<Span>>, report: GroupReport) -> Seq<
    Option<Span>,
> {
    match report {
        GroupReport::EveryGroup => groups,
        GroupReport::WholeMatch => if groups.len() > 0 {
            groups.subrange(0, 1)
        } else {
            groups
        },
    }
}

/// The spans of the groups that took part in a match, in their order.
pub open spec fn present_groups(groups: Seq<Option<Span>>) -> Seq<(int, int)>
    decreases groups.len(),
{
    if groups.len() == 0 {
        Seq::empty()
    } else {
        let before = present_groups(groups.drop_last());
        match groups.last() {
            Some(span) => before.push((span.0 as int, span.1 as int)),
            None => before,
        }
    }
}

/// The spans reported for a list of matches: match by match, the selected
/// groups that took part.
pub open spec fn reported_groups(found: Seq<Seq<Option<Span>>>, report: GroupReport) -> Seq<
    (int, int),
>
    decreases found.len(),
{
    if found.len() == 0 {
        Seq::empty()
    } else {
        reported_groups(found.drop_last(), report) + present_groups(
            selected_groups(found.last(), report),
        )
    }
}

/// Flattens the groups of the matches found in a line into the spans to
/// report, in the order in which the engine gave them.
pub fn report_groups(found: &Vec<Vec<Option<Span>>>, report: GroupReport) -> (spans: Vec<Span>)
    ensures
        span_ints(spans@) =~= reported_groups(groups_view(found@), report),
{
    let ghost all = groups_view(found@);
    let mut spans: Vec<Span> = Vec::new();
    let mut i: usize = 0;
    while i < found.len()
        invariant
            i <= found@.len(),
            all == groups_view(found@),
            span_ints(spans@) =~= reported_groups(all.take(i as int), report),
        decreases found@.len() - i,
    {
        let groups = &found[i];
        let ghost chosen = selected_groups(groups@, report);
        let limit: usize = match report {
            GroupReport::EveryGroup => groups.len(),
            GroupReport::WholeMatch => if groups.len() > 0 {
                1
            } else {
                0
            },
        };
        let ghost before = spans@;
        let mut j: usize = 0;
        while j < limit
            invariant
                j <= limit == chosen.len(),
                limit <= groups@.len(),
                forall|k: int| 0 <= k < limit ==> chosen[k] == groups@[k],
                span_ints(spans@) =~= span_ints(before) + present_groups(chosen.take(j as int)),
            decreases limit - j,
        {
            let ghost held = spans@;
            match groups[j] {
                Some(span) => {
                    spans.push(span);
                    assert(span_ints(spans@) =~= span_ints(held).push(
                        (span.0 as int, span.1 as int),
                    ));
                },
                None => {},
            }
            proof {
                let upto = chosen.take(j + 1);
                assert(upto.drop_last() =~= chosen.take(j as int));
                assert(upto.last() == groups@[j as int]);
            }
            j += 1;
        }
        proof {
            assert(chosen.take(limit as int) =~= chosen);
            assert(all.take(i + 1).drop_last() =~= all.take(i as int));
            assert(all.take(i + 1).last() == groups@);
        }
        i += 1;
    }
    proof {
        assert(all.take(found@.len() as int) =~= all);
    }
    spans
}

/// The spans of the groups that took part in a match fit the text, where
/// all groups of the match do.
pub proof fn lemma_reported_groups_fit(
    text: Seq<u8>,
    found: Seq<Seq<Option<Span>>>,
    report: GroupReport,
)
    requires
        groups_fit(text, found),
    ensures
        spans_fit(text, reported_groups(found, report)),
    decreases found.len(),
{
    if found.len() > 0 {
        let earlier = found.drop_last();
        assert(groups_fit(text, earlier)) by {
            assert forall|i: int, j: int|
                0 <= i < earlier.len() && 0 <= j < earlier[i].len() implies match #[trigger] earlier[i][j] {
                Some(span) => span_fits(text, (span.0 as int, span.1 as int)),
                None => true,
            } by {
                assert(earlier[i][j] == found[i][j]);
            }
        }
        lemma_reported_groups_fit(text, earlier, report);
        let chosen = selected_groups(found.last(), report);
        assert forall|j: int| 0 <= j < chosen.len() implies match #[trigger] chosen[j] {
            Some(span) => span_fits(text, (span.0 as int, span.1 as int)),
            None => true,
        } by {
            assert(chosen[j] == found[found.len() - 1][j]);
        }
        lemma_present_groups_fit(text, chosen);
    }
}

/// The spans of the groups that took part fit the text, where every group
/// that took part does.
pub proof fn lemma_present_groups_fit(text: Seq<u8>, groups: Seq<Option<Span>>)
    requires
        forall|j: int|
            0 <= j < groups.len() ==> match #[trigger] groups[j] {
                Some(span) => span_fits(text, (span.0 as int, span.1 as int)),
                None => true,
            },
    ensures
        spans_fit(text, present_groups(groups)),
    decreases groups.len(),
{
    if groups.len() > 0 {
        let earlier = groups.drop_last();
        assert forall|j: int| 0 <= j < earlier.len() implies match #[trigger] earlier[j] {
            Some(span) => span_fits(text, (span.0 as int, span.1 as int)),
            None => true,
        } by {
            assert(earlier[j] == groups[j]);
        }
        lemma_present_groups_fit(text, earlier);
        assert(groups.last() == groups[groups.len() - 1]);
    }
}

impl CompiledRegex {
    /// The pattern this expression was compiled from.
    pub fn source(&self) -> (source: &str)
        ensures
            source@ == self@.source,
    {
        self.source.as_str()
    }

    /// Whether this expression is matched without regard to letter case.
    pub fn ignores_case(&self) -> (ignored: bool)
        ensures
            ignored == self@.ignore_case,
    {
        self.ignore_case
    }
}

impl Pattern {
    /// A pattern that matches `term` as a substring, exactly or without
    /// regard to letter case.
    pub fn literal(term: &str, ignore_case: bool) -> (made: Pattern)
        ensures
            made@ == (PatternModel::Literal { term: term@, ignore_case }),
    {
        Pattern::Literal { term: term.to_owned(), ignore_case }
    }

    /// Compiles `source` as a regular expression, to be matched without
    /// regard to letter case where `ignore_case` is set. Fails exactly
    /// where the regex engine refuses the pattern.
    pub fn regex(source: &str, ignore_case: bool, report: GroupReport) -> (made: Result<
        Pattern,
        PatternError,
    >)
        ensures
            made is Ok <==> regex_accepts(source@, ignore_case),
            made matches Ok(pattern) ==> pattern@ == (PatternModel::Regex {
                source: source@,
                ignore_case,
                groups: report,
            }),
    {
        Self::from_compiled(compile(source, ignore_case), report)
    }

    /// Makes a pattern of what the regex engine answered to a pattern
    /// source: the compiled expression, or the engine's refusal.
    pub fn from_compiled(answer: Result<CompiledRegex, regex::Error>, report: GroupReport) -> (made:
        Result<Pattern, PatternError>)
        ensures
            match answer {
                Ok(compiled) => made matches Ok(pattern) && pattern@ == (PatternModel::Regex {
                    source: compiled@.source,
                    ignore_case: compiled@.ignore_case,
                    groups: report,
                }),
                Err(_) => made == Err::<Pattern, PatternError>(PatternError::InvalidPattern),
            },
    {
        match answer {
            Ok(regex) => Ok(Pattern::CompiledRegex { regex, groups: report }),
            Err(_) => Err(PatternError::InvalidPattern),
        }
    }

    /// The term that was given to search for.
    pub fn search_term(&self) -> (term: &str)
        ensures
            term@ == self@.term(),
    {
        match self {
            Pattern::Literal { term, ignore_case } => term.as_str(),
            Pattern::CompiledRegex { regex, groups } => regex.source(),
        }
    }

    /// Whether the pattern is matched without regard to letter case.
    pub fn ignores_case(&self) -> (ignored: bool)
        ensures
            ignored == self@.ignores_case(),
    {
        match self {
            Pattern::Literal { term, ignore_case } => *ignore_case,
            Pattern::CompiledRegex { regex, groups } => regex.ignores_case(),
        }
    }

    /// All spans this pattern reports in `line`, in order: for a literal
    /// its non-overlapping occurrences from left to right, for a regular
    /// expression the reported groups of its successive matches, both
    /// without regard to letter case where the pattern ignores it. The
    /// spans are those of the line as it is written.
    pub fn find_all(&self, line: &str) -> (spans: Vec<Span>)
        ensures
            span_ints(spans@) =~= self@.spans_in(line.spec_bytes()),
            spans_fit(line.spec_bytes(), span_ints(spans@)),
    {
        match self {
            Pattern::Literal { term, ignore_case } => {
                if *ignore_case {
                    let folded = fold_text(term.as_str());
                    find_folded(line, folded.as_str())
                } else {
                    find_literal(line, term.as_str())
                }
            },
            Pattern::CompiledRegex { regex, groups } => {
                let found = engine_captures(regex, line);
                let spans = report_groups(&found, *groups);
                proof {
                    encode_utf8_decode_utf8(line@);
                    lemma_reported_groups_fit(line.spec_bytes(), groups_view(found@), *groups);
                }
                spans
            },
        }
    }

    /// Whether this pattern, taken as a regular expression, matches
    /// somewhere in `text`, which is taken as it is written. A literal
    /// pattern never does.
    pub fn regex_found_in(&self, text: &str) -> (found: bool)
        ensures
            found == self@.regex_matches(text@),
    {
        match self {
            Pattern::Literal { term, ignore_case } => false,
            Pattern::CompiledRegex { regex, groups } => engine_is_match(regex, text),
        }
    }
}

} // verus!
