//! The search over the files of a run: what is found in each file, and the
//! state that is carried from file to file.

use crate::fold::{fold_text, folded_form};
use crate::lines::line_spans;
use crate::pattern::{Pattern, PatternModel};
use crate::scan::{
    budget_after, lines_scanned, occurrence_views, occurrences_upto, placed_in_lines, scan_lines,
    LineBudget, Occurrence,
};
use crate::text::{contains, contains_literal};
use vstd::prelude::*;
use vstd::string::StringSliceAdditionalSpecFns;
use vstd::utf8::*;

verus! {

/// What to search for, and how much.
#[derive(Debug)]
pub struct SearchConfig {
    /// The literal term or regular expression to find, which knows whether
    /// letter case is ignored.
    pub pattern: Pattern,
    /// How many lines the whole run may scan, or `None` for no limit.
    pub line_budget: Option<usize>,
}

/// The two signals of the whole-text check of a file.
#[derive(Clone, Copy, Debug, PartialEq, Eq, Structural)]
pub struct Detection {
    /// The search term occurs in the text as a substring.
    pub literal: bool,
    /// The regular expression, where one is configured, matches in the
    /// text.
    pub regex: bool,
}

/// What the search found in one file.
#[derive(Debug)]
pub struct ScanResult {
    /// The occurrences in the lines that were scanned, in order.
    pub occurrences: Vec<Occurrence>,
    /// Whether the whole-text check found the pattern in the file.
    pub found_in_file: bool,
    /// The signals of the whole-text check.
    pub detection: Detection,
}

/// What a run carries from file to file.
#[derive(Clone, Copy, Debug, PartialEq, Eq, Structural)]
pub struct WalkState {
    /// The lines that may still be scanned.
    pub budget: LineBudget,
    /// Whether the whole-text check has found the pattern in some file.
    pub matched_anywhere: bool,
}

/// What the run does with a file.
#[derive(Debug)]
pub enum Step {
    /// The budget is exhausted: the run ends here, and the file is not
    /// looked at.
    Stop,
    /// The file was searched.
    Scanned(ScanResult),
}

impl SearchConfig {
    /// Whether letter case is ignored in the search.
    pub fn ignore_case(&self) -> (ignored: bool)
        ensures
            ignored == self.pattern@.ignores_case(),
    {
        self.pattern.ignores_case()
    }
}

impl PatternModel {
    /// The text in which the whole-text check looks for the term, for a
    /// file of content `content`: the content itself, or its folded form
    /// where case is ignored.
    pub open spec fn haystack(self, content: Seq<char>) -> Seq<char> {
        if self.ignores_case() {
            folded_form(content)
        } else {
            content
        }
    }

    /// The term that the whole-text check looks for as a substring: the
    /// search term, or its folded form where case is ignored.
    pub open spec fn needle(self) -> Seq<char> {
        if self.ignores_case() {
            folded_form(self.term())
        } else {
            self.term()
        }
    }

    /// What the whole-text check says of a file of content `content`:
    /// whether the term occurs in it as a substring, and whether the
    /// pattern, where it is a regular expression, matches in the content as
    /// it is written. Both are without regard to letter case where case is
    /// ignored.
    pub open spec fn detection(self, content: Seq<char>) -> Detection {
        Detection {
            literal: contains(encode_utf8(self.haystack(content)), encode_utf8(self.needle())),
            regex: self.regex_matches(content),
        }
    }
}

/// Checks a whole text: does the search term occur in it, and does the
/// pattern, where it is a regular expression, match in it? The two answers
/// do not depend on each other.
pub fn detect(content: &str, pattern: &Pattern) -> (found: Detection)
    ensures
        found == pattern@.detection(content@),
{
    let term = pattern.search_term();
    let literal = if pattern.ignores_case() {
        let needle = fold_text(term);
        let text = fold_text(content);
        contains_literal(text.as_str(), needle.as_str())
    } else {
        contains_literal(content, term)
    };
    let regex = pattern.regex_found_in(content);
    Detection { literal, regex }
}

impl WalkState {
    /// The state at the start of a run: the whole budget, nothing found.
    pub fn start(config: &SearchConfig) -> (state: WalkState)
        ensures
            state.budget.remaining == config.line_budget,
            !state.matched_anywhere,
    {
        WalkState { budget: LineBudget { remaining: config.line_budget }, matched_anywhere: false }
    }
}

/// Takes the next file of a run. Where the budget is exhausted the run
/// stops and nothing changes. Otherwise the file is searched: the whole-text
/// check is made, and the lines of the content are scanned as they are
/// written, so that every occurrence rebuilds its line. Where case is
/// ignored, it is ignored for a literal term and for a regular expression
/// alike. The lines scanned are taken from the budget, and the run
/// remembers whether the whole-text check found the pattern.
pub fn visit_file(state: &mut WalkState, config: &SearchConfig, content: &str) -> (step: Step)
    ensures
        match step {
            Step::Stop => old(state).budget.exhausted() && *final(state) == *old(state),
            Step::Scanned(result) => {
                let text = content.spec_bytes();
                let count = lines_scanned(line_spans(text).len(), old(state).budget@) as int;
                &&& !old(state).budget.exhausted()
                &&& result.detection == config.pattern@.detection(content@)
                &&& result.found_in_file == (result.detection.literal || result.detection.regex)
                &&& occurrence_views(result.occurrences@) =~= occurrences_upto(
                    text,
                    config.pattern@,
                    count,
                )
                &&& placed_in_lines(occurrence_views(result.occurrences@), text, count)
                &&& final(state).budget@ == budget_after(
                    line_spans(text).len(),
                    old(state).budget@,
                )
                &&& final(state).matched_anywhere == (old(state).matched_anywhere
                    || result.found_in_file)
            },
        },
{
    if state.budget.is_exhausted() {
        return Step::Stop;
    }
    let detection = detect(content, &config.pattern);
    let occurrences = scan_lines(content, &config.pattern, &mut state.budget);
    let found_in_file = detection.literal || detection.regex;
    if found_in_file {
        state.matched_anywhere = true;
    }
    Step::Scanned(ScanResult { occurrences, found_in_file, detection })
}

} // verus!
