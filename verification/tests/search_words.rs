use core::ops::Range;

use dogtag::note::search::query::{parse, QueryFault};
use dogtag::note::search::tokens::{scan, words};

fn scanned(text: &str) -> Vec<(String, Range<usize>)> {
    scan(text).into_iter().map(|token| (text[token.at.clone()].to_owned(), token.at)).collect()
}

fn counts(query: &str, text: &str) -> Vec<usize> {
    let tokens = scan(text);
    parse(query).expect("a well-formed query").atoms.iter().map(|atom| atom.count(&tokens)).collect()
}

#[test]
fn words_are_alphanumeric_runs_and_punctuation_separates() {
    assert_eq!(words("The Engine, restarted."), ["the", "engine", "restarted"]);
    assert_eq!(words("don't"), ["don", "t"]);
    assert_eq!(words("engines/analytical.md"), ["engines", "analytical", "md"]);
}

#[test]
fn a_token_remembers_the_bytes_it_was_read_from() {
    let expected: Vec<(String, Range<usize>)> =
        vec![("a".to_owned(), 0..1), ("naïve".to_owned(), 2..8), ("η".to_owned(), 9..11), ("run".to_owned(), 12..15)];
    assert_eq!(scanned("a naïve η-run"), expected);
}

#[test]
fn a_text_with_no_word_scans_to_nothing() {
    assert!(words("").is_empty());
    assert!(words(" …, — !").is_empty());
}

#[test]
fn a_trailing_word_is_read_to_the_end_of_the_text() {
    assert_eq!(scanned("to 2026")[1], ("2026".to_owned(), 3..7));
}

#[test]
fn bare_terms_parse_to_one_atom_each_and_match_single_words() {
    assert_eq!(counts("engine daily", "The Engine ran daily, daily."), [1, 2]);
}

#[test]
fn matching_is_case_insensitive_on_both_sides() {
    assert_eq!(counts("ENGINE", "the engine"), [1]);
    assert_eq!(counts("engine", "THE ENGINE"), [1]);
}

#[test]
fn a_phrase_matches_its_words_adjacent_and_in_order() {
    let text = "The analytical engine; an engine, analytical.";
    assert_eq!(counts("\"analytical engine\"", text), [1]);
    assert_eq!(counts("\"engine analytical\"", text), [1]);
    assert_eq!(counts("\"analytical ran\"", text), [0]);
}

#[test]
fn a_bare_term_with_punctuation_is_an_adjacency_of_its_words() {
    assert_eq!(counts("don't", "I don't; do not."), [1]);
    assert_eq!(counts("don't", "don ... t"), [1]);
    assert_eq!(counts("don't", "don never t"), [0]);
}

#[test]
fn a_trailing_star_matches_the_last_word_as_a_prefix() {
    assert_eq!(counts("analyt*", "analytical analysis ana"), [1]);
    assert_eq!(counts("ana*", "analytical analysis ana"), [3]);
    assert_eq!(counts("\"the analyt\"*", "the analytical engine"), [1]);
}

#[test]
fn a_phrase_never_matches_across_a_missing_word() {
    assert_eq!(counts("\"the engine\"", "the analytical engine"), [0]);
}

#[test]
fn the_first_match_reports_the_bytes_of_the_whole_atom() {
    let text = "an Analytical engine, again";
    let tokens = scan(text);
    let query = parse("\"analytical engine\" again absent").expect("well-formed");
    assert_eq!(query.atoms[0].first(&tokens), Some(3..20));
    assert_eq!(query.atoms[1].first(&tokens), Some(22..27));
    assert_eq!(query.atoms[2].first(&tokens), None);
}

#[test]
fn an_unbalanced_quote_is_the_invalid_query_diagnostic() {
    let query = "engine \"never closed";
    let fault = parse(query).expect_err("unbalanced");
    assert_eq!(fault, QueryFault::UnbalancedQuote);
    let refused = fault.diagnostic(query);
    assert_eq!(refused.id.as_str(), "search.invalid-query");
    assert!(refused.message.contains("unbalanced quote"), "{}", refused.message);
    assert!(refused.location.is_none());
}

#[test]
fn a_query_naming_no_word_is_the_invalid_query_diagnostic() {
    for query in ["", "   ", "\"\"", "*", "…, —"] {
        let fault = parse(query).expect_err(query);
        assert_eq!(fault, QueryFault::Wordless, "{query}");
        let refused = fault.diagnostic(query);
        assert_eq!(refused.id.as_str(), "search.invalid-query", "{query}");
        assert!(refused.message.contains("names no word"), "{}", refused.message);
    }
}

#[test]
fn an_empty_phrase_beside_a_real_term_contributes_nothing() {
    assert_eq!(counts("\"\" engine", "the engine"), [1]);
}

#[test]
fn a_quote_ends_a_bare_term_and_opens_a_phrase() {
    assert_eq!(counts("ran\"the engine\"", "ran the engine"), [1, 1]);
}
