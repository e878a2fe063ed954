use linescan::pattern::{GroupReport, Pattern, PatternError};
use linescan::scan::{scan_lines, LineBudget, Occurrence};
use linescan::fold::{find_folded, fold_text};
use linescan::text::{contains_literal, find_literal, same_text};

fn occurrence(line_number: usize, prefix: &str, matched_text: &str, suffix: &str) -> Occurrence {
    Occurrence {
        line_number,
        prefix: prefix.to_string(),
        matched_text: matched_text.to_string(),
        suffix: suffix.to_string(),
    }
}

fn rebuilt(found: &Occurrence) -> String {
    format!("{}{}{}", found.prefix, found.matched_text, found.suffix)
}

#[test]
fn literal_cat_is_found_on_lines_one_and_three() {
    let pattern = Pattern::literal("cat", false);
    let mut budget = LineBudget::unlimited();
    let found = scan_lines("cat\ndog\nconcatenate\n", &pattern, &mut budget);
    assert_eq!(
        found,
        vec![occurrence(1, "", "cat", ""), occurrence(3, "con", "cat", "enate")]
    );
    assert_eq!(budget.remaining, None);
}

#[test]
fn regex_matches_three_characters_on_each_line() {
    let pattern = Pattern::regex("c.t", false, GroupReport::EveryGroup).unwrap();
    let mut budget = LineBudget::unlimited();
    let found = scan_lines("cat\ncut\ncot", &pattern, &mut budget);
    assert_eq!(
        found,
        vec![
            occurrence(1, "", "cat", ""),
            occurrence(2, "", "cut", ""),
            occurrence(3, "", "cot", ""),
        ]
    );
    for one in &found {
        assert_eq!(one.matched_text.chars().count(), 3);
    }
}

#[test]
fn budget_of_one_scans_only_the_first_line() {
    let pattern = Pattern::literal("cat", false);
    let mut budget = LineBudget::limited(1);
    let found = scan_lines("a cat\nanother cat\n", &pattern, &mut budget);
    assert_eq!(found, vec![occurrence(1, "a ", "cat", "")]);
    assert_eq!(budget.remaining, Some(0));
    assert!(budget.is_exhausted());
}

#[test]
fn budget_counts_lines_not_matches() {
    let pattern = Pattern::literal("a", false);
    let mut budget = LineBudget::limited(5);
    let found = scan_lines("aaa\nbbb\naa\n", &pattern, &mut budget);
    assert_eq!(found.len(), 5);
    assert_eq!(budget.remaining, Some(2));
}

#[test]
fn exhausted_budget_scans_nothing() {
    let pattern = Pattern::literal("cat", false);
    let mut budget = LineBudget::limited(0);
    let found = scan_lines("cat\ncat\n", &pattern, &mut budget);
    assert!(found.is_empty());
    assert_eq!(budget.remaining, Some(0));
}

#[test]
fn empty_text_has_no_occurrence_and_keeps_the_budget() {
    let pattern = Pattern::literal("cat", false);
    let mut budget = LineBudget::limited(7);
    let found = scan_lines("", &pattern, &mut budget);
    assert!(found.is_empty());
    assert_eq!(budget.remaining, Some(7));
    let regex = Pattern::regex("c.t", false, GroupReport::EveryGroup).unwrap();
    let found = scan_lines("", &regex, &mut budget);
    assert!(found.is_empty());
    assert_eq!(budget.remaining, Some(7));
}

#[test]
fn scanning_twice_gives_the_same_occurrences() {
    let text = "one cat, two cats\nno match here\ncatcat\r\nlast cat";
    let pattern = Pattern::literal("cat", false);
    let mut first_budget = LineBudget::limited(3);
    let mut second_budget = LineBudget::limited(3);
    let first = scan_lines(text, &pattern, &mut first_budget);
    let second = scan_lines(text, &pattern, &mut second_budget);
    assert_eq!(first, second);
    assert_eq!(first_budget, second_budget);
    assert_eq!(first.len(), 4);
}

#[test]
fn occurrences_rebuild_their_lines() {
    let text = "concatenate cat\nün chat échaudé\n\ntomcat";
    let lines: Vec<&str> = text.lines().collect();
    for pattern in [
        Pattern::literal("cat", false),
        Pattern::literal("é", false),
        Pattern::literal("", false),
        Pattern::regex("c(h)?a(t)", false, GroupReport::EveryGroup).unwrap(),
    ] {
        let mut budget = LineBudget::unlimited();
        let found = scan_lines(text, &pattern, &mut budget);
        assert!(!found.is_empty());
        for one in &found {
            assert_eq!(rebuilt(one), lines[one.line_number - 1]);
        }
    }
}

#[test]
fn occurrences_come_in_order_of_line_and_start() {
    let pattern = Pattern::literal("ab", false);
    let mut budget = LineBudget::unlimited();
    let found = scan_lines("abab\nxx\nab ab ab\n", &pattern, &mut budget);
    let places: Vec<(usize, usize)> =
        found.iter().map(|one| (one.line_number, one.prefix.len())).collect();
    assert_eq!(places, vec![(1, 0), (1, 2), (3, 0), (3, 3), (3, 6)]);
    for pair in places.windows(2) {
        assert!(pair[0] < pair[1]);
    }
}

#[test]
fn literal_occurrences_do_not_overlap() {
    assert_eq!(find_literal("aaaa", "aa"), vec![(0, 2), (2, 4)]);
    assert_eq!(find_literal("aaa", "aa"), vec![(0, 2)]);
    assert_eq!(find_literal("abababa", "aba"), vec![(0, 3), (4, 7)]);
    assert_eq!(find_literal("abc", "abcd"), vec![]);
    assert_eq!(find_literal("", "a"), vec![]);
}

#[test]
fn literal_count_is_the_substring_count() {
    for (line, term) in [
        ("concatenate cat catcat", "cat"),
        ("aaaaaaa", "aa"),
        ("no match", "zebra"),
        ("ünïcödé ünï", "ünï"),
        ("xyxyxyx", "xyx"),
    ] {
        assert_eq!(find_literal(line, term).len(), line.matches(term).count());
        let expected: Vec<(usize, usize)> =
            line.match_indices(term).map(|(start, part)| (start, start + part.len())).collect();
        assert_eq!(find_literal(line, term), expected);
    }
}

#[test]
fn empty_literal_is_found_at_every_character_boundary() {
    assert_eq!(find_literal("abc", ""), vec![(0, 0), (1, 1), (2, 2), (3, 3)]);
    assert_eq!(find_literal("", ""), vec![(0, 0)]);
    assert_eq!(find_literal("aé", ""), vec![(0, 0), (1, 1), (3, 3)]);
    let expected: Vec<(usize, usize)> =
        "aé文".match_indices("").map(|(start, _)| (start, start)).collect();
    assert_eq!(find_literal("aé文", ""), expected);
}

#[test]
fn spans_are_byte_offsets() {
    assert_eq!(find_literal("é cat", "cat"), vec![(3, 6)]);
    let pattern = Pattern::literal("cat", false);
    let mut budget = LineBudget::unlimited();
    let found = scan_lines("é cat é", &pattern, &mut budget);
    assert_eq!(found, vec![occurrence(1, "é ", "cat", " é")]);
}

#[test]
fn lines_end_at_line_feeds_and_lose_a_carriage_return_before_one() {
    let pattern = Pattern::regex(".*", false, GroupReport::WholeMatch).unwrap();
    let text = "first\r\nsecond\n\nfourth\r\r\nfifth\r";
    let mut budget = LineBudget::unlimited();
    let found = scan_lines(text, &pattern, &mut budget);
    let seen: Vec<(usize, String)> =
        found.iter().map(|one| (one.line_number, rebuilt(one))).collect();
    let expected: Vec<(usize, String)> = text
        .lines()
        .enumerate()
        .filter(|(_, line)| !line.is_empty())
        .map(|(index, line)| (index + 1, line.to_string()))
        .collect();
    let nonempty: Vec<(usize, String)> =
        seen.into_iter().filter(|(_, line)| !line.is_empty()).collect();
    assert_eq!(nonempty, expected);
    assert_eq!(expected.last().unwrap().1, "fifth\r");
    assert_eq!(expected[2].1, "fourth\r");
}

#[test]
fn a_final_line_feed_starts_no_further_line() {
    let pattern = Pattern::literal("", false);
    let mut with_end = LineBudget::limited(10);
    let mut without_end = LineBudget::limited(10);
    let first = scan_lines("a\nb\n", &pattern, &mut with_end);
    let second = scan_lines("a\nb", &pattern, &mut without_end);
    assert_eq!(first, second);
    assert_eq!(with_end.remaining, Some(8));
    assert_eq!(without_end.remaining, Some(8));
    let mut blank = LineBudget::limited(10);
    let third = scan_lines("\n\n", &pattern, &mut blank);
    assert_eq!(third, vec![occurrence(1, "", "", ""), occurrence(2, "", "", "")]);
    assert_eq!(blank.remaining, Some(8));
}

#[test]
fn every_group_that_took_part_is_an_occurrence() {
    let pattern = Pattern::regex("(c)(x)?(a)t", false, GroupReport::EveryGroup).unwrap();
    let mut budget = LineBudget::unlimited();
    let found = scan_lines("a cat", &pattern, &mut budget);
    assert_eq!(
        found,
        vec![
            occurrence(1, "a ", "cat", ""),
            occurrence(1, "a ", "c", "at"),
            occurrence(1, "a c", "a", "t"),
        ]
    );
}

#[test]
fn whole_match_report_leaves_the_groups_out() {
    let pattern = Pattern::regex("(c)(x)?(a)t", false, GroupReport::WholeMatch).unwrap();
    let mut budget = LineBudget::unlimited();
    let found = scan_lines("a cat, a cat", &pattern, &mut budget);
    assert_eq!(
        found,
        vec![occurrence(1, "a ", "cat", ", a cat"), occurrence(1, "a cat, a ", "cat", "")]
    );
    assert_eq!(pattern.find_all("a cat, a cat"), vec![(2, 5), (9, 12)]);
}

#[test]
fn malformed_regex_is_an_invalid_pattern() {
    assert_eq!(
        Pattern::regex("(unclosed", false, GroupReport::EveryGroup).err(),
        Some(PatternError::InvalidPattern)
    );
    assert!(Pattern::regex("closed()", false, GroupReport::EveryGroup).is_ok());
}

#[test]
fn pattern_keeps_its_search_term() {
    assert_eq!(Pattern::literal("c.t", false).search_term(), "c.t");
    assert_eq!(Pattern::regex("c.t", false, GroupReport::EveryGroup).unwrap().search_term(), "c.t");
}

#[test]
fn only_a_regex_pattern_matches_as_a_regex() {
    let literal = Pattern::literal("c.t", false);
    let regex = Pattern::regex("c.t", false, GroupReport::EveryGroup).unwrap();
    assert!(!literal.regex_found_in("dog\ncat"));
    assert!(regex.regex_found_in("dog\ncat"));
    assert!(!regex.regex_found_in("dog\ncow"));
    assert_eq!(literal.find_all("c.t cat"), vec![(0, 3)]);
    assert_eq!(regex.find_all("c.t cat"), vec![(0, 3), (4, 7)]);
}

#[test]
fn containment_is_substring_containment() {
    assert!(contains_literal("concatenate", "cat"));
    assert!(contains_literal("cat", "cat"));
    assert!(!contains_literal("ca", "cat"));
    assert!(!contains_literal("dog", "cat"));
    assert!(contains_literal("dog", ""));
    assert!(contains_literal("", ""));
    assert!(contains_literal("line one\nline two", "one\nline"));
}

#[test]
fn same_text_compares_whole_texts() {
    assert!(same_text("-n", "-n"));
    assert!(!same_text("-n", "-nn"));
    assert!(!same_text("-n", "-i"));
    assert!(same_text("", ""));
}

#[test]
fn budget_takes_lines_until_none_is_left() {
    let mut budget = LineBudget::limited(2);
    assert!(!budget.is_exhausted());
    assert!(budget.take_line());
    assert!(budget.take_line());
    assert!(budget.is_exhausted());
    assert!(!budget.take_line());
    assert_eq!(budget.remaining, Some(0));
    let mut open = LineBudget::unlimited();
    assert!(open.take_line());
    assert!(!open.is_exhausted());
    assert_eq!(open.remaining, None);
}

#[test]
fn folded_search_reports_the_spans_of_the_line_as_written() {
    assert_eq!(find_folded("Cat", "cat"), vec![(0, 3)]);
    assert_eq!(find_folded("conCATenate a cAt", "cat"), vec![(3, 6), (14, 17)]);
    assert_eq!(find_folded("dog", "cat"), vec![]);
    assert_eq!(find_folded("CaTcAtcat", "cat"), vec![(0, 3), (3, 6), (6, 9)]);
    assert_eq!(find_folded("AAA", "aa"), vec![(0, 2)]);
    assert_eq!(find_folded("cat", "CAT"), vec![]);
}

#[test]
fn folded_search_follows_characters_whose_length_changes() {
    let dotted = "\u{130}";
    let folded = dotted.to_lowercase();
    assert_eq!(folded, "i\u{307}");
    assert_eq!(find_folded("x\u{130}y i\u{307}", &folded), vec![(1, 3), (5, 8)]);
    assert_eq!(find_folded("1 \u{212a}", "k"), vec![(2, 5)]);
    assert_eq!(find_folded("STRASSE Ü ü", "ü"), vec![(8, 10), (11, 13)]);
}

#[test]
fn folded_search_for_nothing_finds_every_character_boundary() {
    assert_eq!(find_folded("ab", ""), vec![(0, 0), (1, 1), (2, 2)]);
    assert_eq!(find_folded("é", ""), vec![(0, 0), (2, 2)]);
    assert_eq!(find_folded("", ""), vec![(0, 0)]);
    assert_eq!(find_folded("", "a"), vec![]);
}

#[test]
fn case_is_ignored_only_where_asked() {
    let exact = Pattern::literal("cAt", false);
    let caseless = Pattern::literal("cAt", true);
    assert!(!exact.ignores_case());
    assert!(caseless.ignores_case());
    assert_eq!(exact.find_all("Cat cAt"), vec![(4, 7)]);
    assert_eq!(caseless.find_all("Cat cAt"), vec![(0, 3), (4, 7)]);
    let exact = Pattern::regex("c.t", false, GroupReport::EveryGroup).unwrap();
    let caseless = Pattern::regex("c.t", true, GroupReport::EveryGroup).unwrap();
    assert!(!exact.ignores_case());
    assert!(caseless.ignores_case());
    assert_eq!(exact.find_all("Cat cAt CUT cut"), vec![(4, 7), (12, 15)]);
    assert_eq!(caseless.find_all("Cat cAt CUT cut"), vec![(0, 3), (4, 7), (8, 11), (12, 15)]);
    assert!(!exact.regex_found_in("A CAT"));
    assert!(caseless.regex_found_in("A CAT"));
}

#[test]
fn regex_without_regard_to_case_matches_lower_case_text() {
    let pattern = Pattern::regex("C.T", true, GroupReport::EveryGroup).unwrap();
    let mut budget = LineBudget::unlimited();
    let found = scan_lines("cat", &pattern, &mut budget);
    assert_eq!(found, vec![occurrence(1, "", "cat", "")]);
    let exact = Pattern::regex("C.T", false, GroupReport::EveryGroup).unwrap();
    assert!(scan_lines("cat", &exact, &mut budget).is_empty());
}

#[test]
fn scan_without_regard_to_case_cuts_the_lines_as_written() {
    for pattern in [
        Pattern::literal("cAt", true),
        Pattern::regex("cAt", true, GroupReport::EveryGroup).unwrap(),
    ] {
        let mut budget = LineBudget::limited(3);
        let found = scan_lines("Cat\nDOG\nconCATenate", &pattern, &mut budget);
        assert_eq!(
            found,
            vec![occurrence(1, "", "Cat", ""), occurrence(3, "con", "CAT", "enate")]
        );
        assert_eq!(budget.remaining, Some(0));
    }
}

#[test]
fn texts_are_folded_to_lower_case() {
    assert_eq!(fold_text("Hello, WORLD 42!"), "hello, world 42!");
    assert_eq!(fold_text("already lower"), "already lower");
    assert_eq!(fold_text("ÄÖÜ Straße"), "äöü straße");
    assert_eq!(fold_text("A\u{130}"), "ai\u{307}");
    assert_eq!(fold_text(""), "");
    for text in ["Mixed Case", "ΟΔΥΣΣΕΥΣ", "ÇA VA", "[\\]^_`@{|}~AZ"] {
        assert_eq!(fold_text(text), text.to_lowercase());
    }
}
