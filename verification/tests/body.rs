use dogtag::note::body::{closed, is_blank, measure, opens, title, underlines};

fn chars(s: &str) -> Vec<char> {
    s.chars().collect()
}

fn text(v: &[char]) -> String {
    v.iter().collect()
}

fn read(body: &str) -> Option<String> {
    title(body)
}

fn titled(body: &str) -> String {
    read(body).expect("a title")
}

fn line_opens(raw: &str) -> Option<String> {
    let (content, _) = measure(&chars(raw));
    opens(&content).map(|fence| text(&fence))
}

fn line_underlines(raw: &str) -> bool {
    let (content, _) = measure(&chars(raw));
    underlines(&content)
}

fn closed_run(s: &str) -> String {
    text(&closed(&chars(s)))
}

#[test]
fn the_title_is_the_first_atx_h1() {
    let found = [
        titled("# Ada Lovelace\n\nprose\n"),
        titled("prose\n\n# Later\n"),
        titled("# First\n# Second\n"),
    ];
    assert_eq!(found, ["Ada Lovelace", "Later", "First"]);
}

#[test]
fn an_atx_heading_may_be_indented_up_to_the_code_block_margin() {
    let found = (titled("   # Ada\n"), read("    # Ada\n"));
    assert_eq!(found, ("Ada".to_owned(), None));
}

#[test]
fn an_atx_heading_loses_its_closing_run_and_keeps_what_looks_like_one() {
    let found = [titled("# Ada ###\n"), titled("# ###\n"), titled("# C#\n"), titled("#\n")];
    assert_eq!(found, ["Ada", "", "C#", ""]);
}

#[test]
fn only_a_first_level_heading_is_a_title() {
    let found = (read("## Ada\n"), read("#Ada\n"), titled("## Ada\n# Real\n"));
    assert_eq!(found, (None, None, "Real".to_owned()));
}

#[test]
fn a_setext_heading_is_a_title_too_because_a_corpus_writes_them() {
    let written = (titled("Ada Lovelace\n============\n"), titled("  Ada\n=\n"));
    assert_eq!(written, ("Ada Lovelace".to_owned(), "Ada".to_owned()));
    let nothing = (read("\n=====\n"), read("Ada\n\n=====\n"));
    assert_eq!(nothing, (None, None));
}

#[test]
fn a_heading_inside_a_fenced_code_block_is_a_line_of_code() {
    let after = (
        titled("```\n# not a title\n```\n# Real\n"),
        titled("~~~\n# not a title\n~~~\n# Real\n"),
    );
    assert_eq!(after, ("Real".to_owned(), "Real".to_owned()));
    let inside = (read("```rust\n# still code\nfn main() {}\n"), read("```\nAda\n===\n```\n"));
    assert_eq!(inside, (None, None));
}

#[test]
fn a_note_with_no_heading_at_all_has_no_title() {
    let found = (read(""), read("just prose\nand more\n"), read("    indented\n"));
    assert_eq!(found, (None, None, None));
}

#[test]
fn an_indented_line_continuing_a_paragraph_is_not_a_code_block() {
    assert_eq!(titled("Ada\n    continued\n===\n"), "continued");
}

#[test]
fn a_line_answers_for_the_shape_it_takes() {
    let fences = (line_opens("```rust"), line_opens("~~~"));
    assert_eq!(fences, (Some("```".to_owned()), Some("~~~".to_owned())));
    let prose = (line_opens("text"), is_blank(&chars("  ")));
    assert_eq!(prose, (None, true));
    let underlining = (line_underlines("==="), line_underlines(""), line_underlines("=-="));
    assert_eq!(underlining, (true, false, false));
    let runs = [closed_run("Ada"), closed_run("###"), closed_run("Ada ###"), closed_run("C#")];
    assert_eq!(runs, ["Ada", "", "Ada ", "C#"]);
}

#[test]
fn a_title_is_trimmed_and_a_blank_line_ends_nothing_else() {
    assert_eq!(read("#   Spaced   \n"), Some("Spaced".to_owned()));
    assert!(!is_blank(&chars(" x ")));
}
