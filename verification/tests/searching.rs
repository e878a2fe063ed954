use linescan::pattern::{GroupReport, Pattern};
use linescan::report::report;
use linescan::scan::{LineBudget, Occurrence};
use linescan::search::{detect, visit_file, Detection, ScanResult, SearchConfig, Step, WalkState};

fn occurrence(line_number: usize, prefix: &str, matched_text: &str, suffix: &str) -> Occurrence {
    Occurrence {
        line_number,
        prefix: prefix.to_string(),
        matched_text: matched_text.to_string(),
        suffix: suffix.to_string(),
    }
}

fn literal(term: &str, ignore_case: bool, line_budget: Option<usize>) -> SearchConfig {
    SearchConfig { pattern: Pattern::literal(term, ignore_case), line_budget }
}

fn regex(source: &str, ignore_case: bool, line_budget: Option<usize>) -> SearchConfig {
    SearchConfig {
        pattern: Pattern::regex(source, ignore_case, GroupReport::EveryGroup).unwrap(),
        line_budget,
    }
}

fn scanned(step: Step) -> ScanResult {
    match step {
        Step::Scanned(result) => result,
        Step::Stop => panic!("the run stopped"),
    }
}

#[test]
fn literal_term_without_options() {
    let config = literal("cat", false, None);
    let mut state = WalkState::start(&config);
    let result = scanned(visit_file(&mut state, &config, "cat\ndog\nconcatenate"));
    assert_eq!(
        result.occurrences,
        vec![occurrence(1, "", "cat", ""), occurrence(3, "con", "cat", "enate")]
    );
    assert!(result.found_in_file);
    assert_eq!(result.detection, Detection { literal: true, regex: false });
    assert!(state.matched_anywhere);
    assert_eq!(state.budget.remaining, None);
}

#[test]
fn upper_case_term_with_case_ignored() {
    let config = literal("CAT", true, None);
    let mut state = WalkState::start(&config);
    let result = scanned(visit_file(&mut state, &config, "cat\ndog\nconcatenate"));
    assert_eq!(
        result.occurrences,
        vec![occurrence(1, "", "cat", ""), occurrence(3, "con", "cat", "enate")]
    );
    assert!(result.found_in_file);
}

#[test]
fn ignore_case_keeps_the_lines_as_written() {
    let config = literal("cAt", true, None);
    let mut state = WalkState::start(&config);
    let content = "Cat\nDOG\nconCATenate";
    let result = scanned(visit_file(&mut state, &config, content));
    assert_eq!(
        result.occurrences,
        vec![occurrence(1, "", "Cat", ""), occurrence(3, "con", "CAT", "enate")]
    );
    let lines: Vec<&str> = content.lines().collect();
    for found in &result.occurrences {
        let rebuilt = format!("{}{}{}", found.prefix, found.matched_text, found.suffix);
        assert_eq!(rebuilt, lines[found.line_number - 1]);
    }
    assert_eq!(result.detection, Detection { literal: true, regex: false });
    assert!(state.matched_anywhere);
    assert_eq!(state.budget.remaining, None);
}

#[test]
fn ignore_case_finds_upper_case_text() {
    let config = literal("cAt", true, None);
    let mut state = WalkState::start(&config);
    let result = scanned(visit_file(&mut state, &config, "A CAT\nConCATenate"));
    assert_eq!(
        result.occurrences,
        vec![occurrence(1, "A ", "CAT", ""), occurrence(2, "Con", "CAT", "enate")]
    );
    assert_eq!(result.detection, Detection { literal: true, regex: false });
}

#[test]
fn case_of_text_and_term_does_not_matter_when_ignored() {
    let texts = ["the cat sat\nCATALOG", "THE CAT SAT\ncatalog", "The Cat Sat\nCaTaLoG"];
    let terms = ["cat", "CAT", "Cat", "cAT"];
    let mut seen: Vec<Vec<(usize, usize, usize)>> = Vec::new();
    for text in texts {
        let lines: Vec<&str> = text.lines().collect();
        for term in terms {
            let config = literal(term, true, None);
            let mut state = WalkState::start(&config);
            let found = scanned(visit_file(&mut state, &config, text)).occurrences;
            for one in &found {
                let rebuilt = format!("{}{}{}", one.prefix, one.matched_text, one.suffix);
                assert_eq!(rebuilt, lines[one.line_number - 1]);
                assert_eq!(one.matched_text.to_lowercase(), "cat");
            }
            seen.push(
                found
                    .iter()
                    .map(|one| (one.line_number, one.prefix.len(), one.matched_text.len()))
                    .collect(),
            );
        }
    }
    assert_eq!(seen[0], vec![(1, 4, 3), (2, 0, 3)]);
    for places in &seen {
        assert_eq!(places, &seen[0]);
    }
}

#[test]
fn case_matters_when_not_ignored() {
    let config = literal("CAT", false, None);
    let mut state = WalkState::start(&config);
    let result = scanned(visit_file(&mut state, &config, "cat\ndog\nconcatenate"));
    assert!(result.occurrences.is_empty());
    assert!(!result.found_in_file);
    assert!(!state.matched_anywhere);
}

#[test]
fn budget_of_one_line_ends_the_run_after_it() {
    let config = literal("cat", false, Some(1));
    let mut state = WalkState::start(&config);
    let result = scanned(visit_file(&mut state, &config, "cat one\ncat two"));
    assert_eq!(result.occurrences, vec![occurrence(1, "", "cat", " one")]);
    assert_eq!(state.budget.remaining, Some(0));
    assert!(matches!(visit_file(&mut state, &config, "cat three"), Step::Stop));
    assert_eq!(state.budget.remaining, Some(0));
}

#[test]
fn regex_on_three_lines() {
    let config = regex("c.t", false, None);
    let mut state = WalkState::start(&config);
    let result = scanned(visit_file(&mut state, &config, "cat\ncut\ncot"));
    assert_eq!(
        result.occurrences,
        vec![
            occurrence(1, "", "cat", ""),
            occurrence(2, "", "cut", ""),
            occurrence(3, "", "cot", ""),
        ]
    );
    assert_eq!(result.detection, Detection { literal: false, regex: true });
    assert!(result.found_in_file);
}

#[test]
fn ignore_case_holds_for_a_regex_too() {
    let config = regex("C.T", true, None);
    assert!(config.ignore_case());
    let mut state = WalkState::start(&config);
    let result = scanned(visit_file(&mut state, &config, "cat"));
    assert_eq!(result.occurrences, vec![occurrence(1, "", "cat", "")]);
    assert_eq!(result.detection, Detection { literal: false, regex: true });
    assert!(result.found_in_file);
    assert!(state.matched_anywhere);

    let mut state = WalkState::start(&config);
    let result = scanned(visit_file(&mut state, &config, "a CAT\na cat\na dog"));
    assert_eq!(
        result.occurrences,
        vec![occurrence(1, "a ", "CAT", ""), occurrence(2, "a ", "cat", "")]
    );
    assert_eq!(result.detection, Detection { literal: false, regex: true });
    assert!(state.matched_anywhere);
}

#[test]
fn regex_regards_case_where_it_is_not_ignored() {
    let config = regex("C.T", false, None);
    assert!(!config.ignore_case());
    let mut state = WalkState::start(&config);
    let result = scanned(visit_file(&mut state, &config, "a CAT\na cat"));
    assert_eq!(result.occurrences, vec![occurrence(1, "a ", "CAT", "")]);
    assert_eq!(result.detection, Detection { literal: false, regex: true });

    let mut state = WalkState::start(&config);
    let result = scanned(visit_file(&mut state, &config, "cat"));
    assert!(result.occurrences.is_empty());
    assert_eq!(result.detection, Detection { literal: false, regex: false });
    assert!(!state.matched_anywhere);

    let flagged = regex("(?i)CAT", false, None);
    let mut state = WalkState::start(&flagged);
    let result = scanned(visit_file(&mut state, &flagged, "a CAT\na cat"));
    assert_eq!(
        result.occurrences,
        vec![occurrence(1, "a ", "CAT", ""), occurrence(2, "a ", "cat", "")]
    );
    assert_eq!(result.detection, Detection { literal: false, regex: true });
}

#[test]
fn whole_text_check_gives_two_independent_signals() {
    let pattern = Pattern::regex("c.t", false, GroupReport::EveryGroup).unwrap();
    assert_eq!(detect("a c.t", &pattern), Detection { literal: true, regex: true });
    assert_eq!(detect("a cat", &pattern), Detection { literal: false, regex: true });
    assert_eq!(detect("a dog", &pattern), Detection { literal: false, regex: false });
    assert_eq!(detect("a C.T", &pattern), Detection { literal: false, regex: false });
    let plain = Pattern::literal("c.t", false);
    assert_eq!(detect("a c.t", &plain), Detection { literal: true, regex: false });
    assert_eq!(detect("a cat", &plain), Detection { literal: false, regex: false });
}

#[test]
fn whole_text_check_ignores_case_where_asked() {
    let pattern = Pattern::regex("C.t", true, GroupReport::EveryGroup).unwrap();
    assert_eq!(detect("a c.T", &pattern), Detection { literal: true, regex: true });
    assert_eq!(detect("a CAT", &pattern), Detection { literal: false, regex: true });
    assert_eq!(detect("a dog", &pattern), Detection { literal: false, regex: false });
    let plain = Pattern::literal("CaT", true);
    assert_eq!(detect("conCATenate", &plain), Detection { literal: true, regex: false });
    assert_eq!(detect("dog", &plain), Detection { literal: false, regex: false });
}

#[test]
fn whole_text_check_does_not_depend_on_the_budget() {
    let config = literal("cat", false, Some(1));
    let mut state = WalkState::start(&config);
    let result = scanned(visit_file(&mut state, &config, "dog\ncat"));
    assert!(result.occurrences.is_empty());
    assert!(result.found_in_file);
    assert!(state.matched_anywhere);
    assert_eq!(state.budget.remaining, Some(0));
}

#[test]
fn budget_is_shared_by_the_files_of_a_run() {
    let config = literal("x", false, Some(5));
    let mut state = WalkState::start(&config);
    let files = ["x\nx\n", "", "x\nx\ny\nx\n", "x\n"];
    let mut lines_scanned = 0;
    let mut stopped_at = None;
    for (index, content) in files.iter().enumerate() {
        let before = state.budget.remaining.unwrap();
        match visit_file(&mut state, &config, content) {
            Step::Stop => {
                stopped_at = Some(index);
                break;
            }
            Step::Scanned(_) => {
                lines_scanned += before - state.budget.remaining.unwrap();
            }
        }
    }
    assert_eq!(lines_scanned, 5);
    assert_eq!(stopped_at, Some(3));
    assert_eq!(state.budget.remaining, Some(0));
}

#[test]
fn empty_file_leaves_the_state_as_it_is() {
    let config = literal("cat", false, Some(4));
    let mut state = WalkState::start(&config);
    let result = scanned(visit_file(&mut state, &config, ""));
    assert!(result.occurrences.is_empty());
    assert!(!result.found_in_file);
    assert_eq!(state.budget.remaining, Some(4));
    assert!(!state.matched_anywhere);
}

#[test]
fn run_starts_with_the_whole_budget() {
    let config = literal("cat", false, Some(3));
    let state = WalkState::start(&config);
    assert_eq!(state.budget, LineBudget::limited(3));
    assert!(!state.matched_anywhere);
    let open = literal("cat", false, None);
    assert_eq!(WalkState::start(&open).budget, LineBudget::unlimited());
}

#[test]
fn a_match_once_found_stays_found() {
    let config = literal("cat", false, None);
    let mut state = WalkState::start(&config);
    scanned(visit_file(&mut state, &config, "cat"));
    assert!(state.matched_anywhere);
    scanned(visit_file(&mut state, &config, "dog"));
    assert!(state.matched_anywhere);
}

fn five_occurrences() -> ScanResult {
    let config = literal("a", false, Some(9));
    let mut state = WalkState::start(&config);
    scanned(visit_file(&mut state, &config, "aa\nb\naaa"))
}

#[test]
fn count_only_shows_the_count_alone() {
    let shown = report(five_occurrences(), true, &LineBudget::limited(6)).unwrap();
    assert_eq!(shown.count, 5);
    assert!(shown.listing.is_empty());
    assert_eq!(shown.lines_left, Some(6));
}

#[test]
fn full_report_lists_every_occurrence() {
    let expected = five_occurrences().occurrences;
    let shown = report(five_occurrences(), false, &LineBudget::unlimited()).unwrap();
    assert_eq!(shown.count, 5);
    assert_eq!(shown.listing, expected);
    assert_eq!(shown.lines_left, None);
}

#[test]
fn nothing_is_reported_without_an_occurrence() {
    let config = literal("zebra", false, None);
    let mut state = WalkState::start(&config);
    let result = scanned(visit_file(&mut state, &config, "cat\ndog"));
    assert!(report(result, false, &state.budget).is_none());
    let result = scanned(visit_file(&mut state, &config, "cat\ndog"));
    assert!(report(result, true, &state.budget).is_none());
}

fn places(config: &SearchConfig, content: &str) -> (Vec<(usize, usize)>, bool) {
    let mut state = WalkState::start(config);
    let result = scanned(visit_file(&mut state, config, content));
    let found = result.occurrences.iter().map(|one| (one.line_number, one.prefix.len())).collect();
    (found, state.matched_anywhere)
}

#[test]
fn caseless_search_of_ascii_text_is_exact_search_of_its_lower_case() {
    let cases = [
        ("The Cat sat\r\nCATALOG of cats\n\nno match\nconCATenate", "cAt"),
        ("AAAA aaaa AaAa", "aA"),
        ("x-Y-z\nX-y-Z", "-y-"),
        ("[\\]^_`@{|}~ AZ az", "Z A"),
        ("nothing here", "Zebra"),
    ];
    for (content, term) in cases {
        let lower_content = content.to_lowercase();
        let lower_term = term.to_lowercase();
        let expected = places(&literal(&lower_term, false, None), &lower_content);
        let variants = [
            (content.to_string(), term.to_string()),
            (content.to_uppercase(), term.to_string()),
            (content.to_string(), term.to_uppercase()),
            (lower_content.clone(), term.to_uppercase()),
            (content.to_uppercase(), lower_term.clone()),
        ];
        for (text, word) in variants {
            assert_eq!(places(&literal(&word, true, None), &text), expected);
        }
    }
    let (found, matched) = places(&literal("cAt", true, None), "The Cat sat\nCATALOG");
    assert_eq!(found, vec![(1, 4), (2, 0)]);
    assert!(matched);
}
