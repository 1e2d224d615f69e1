use dogtag::contract::LinkDialect;
use dogtag::note::links::{reference, scan, Reference};

fn target(dialect: LinkDialect, written: &str) -> String {
    reference(dialect, written).target
}

fn found(dialect: LinkDialect, text: &str) -> Vec<(String, String)> {
    scan(dialect, text)
        .into_iter()
        .map(|at| text[at].to_owned())
        .map(|written| {
            let target = target(dialect, &written);
            (written, target)
        })
        .collect()
}

fn parts(read: &[Reference]) -> Vec<(String, Option<String>)> {
    read.iter().map(|parsed| (parsed.target.clone(), parsed.fragment.clone())).collect()
}

fn pair(a: &str, b: Option<&str>) -> (String, Option<String>) {
    (a.to_owned(), b.map(str::to_owned))
}

fn owned(pairs: &[(&str, &str)]) -> Vec<(String, String)> {
    pairs.iter().map(|(a, b)| ((*a).to_owned(), (*b).to_owned())).collect()
}

#[test]
fn a_wikilink_value_names_what_its_brackets_hold() {
    let read = [
        target(LinkDialect::Wikilink, "[[Analytical Engine]]"),
        target(LinkDialect::Wikilink, "[[people/ada]]"),
        target(LinkDialect::Wikilink, "[[]]"),
    ];
    assert_eq!(read, ["Analytical Engine", "people/ada", ""]);
}

#[test]
fn a_markdown_value_names_its_target_rather_than_its_label() {
    let read = [
        target(LinkDialect::Markdown, "[Ada Lovelace](people/ada.md)"),
        target(LinkDialect::Markdown, "[](ada.md)"),
    ];
    assert_eq!(read, ["people/ada.md", "ada.md"]);
}

#[test]
fn an_alias_splits_at_the_first_pipe_and_only_between_a_wikilinks_brackets() {
    let read = [
        target(LinkDialect::Wikilink, "[[Analytical Engine|the Engine]]"),
        target(LinkDialect::Wikilink, "[[Analytical Engine|]]"),
        target(LinkDialect::Wikilink, "[[a|b|c]]"),
        target(LinkDialect::Wikilink, "a|b"),
    ];
    assert_eq!(read, ["Analytical Engine", "Analytical Engine", "a", "a|b"]);
}

#[test]
fn a_fragment_splits_at_the_first_hash_of_the_reference_part() {
    let read = [
        reference(LinkDialect::Wikilink, "[[engine#history]]"),
        reference(LinkDialect::Wikilink, "[[engine#a#b]]"),
        reference(LinkDialect::Wikilink, "[[engine#]]"),
        reference(LinkDialect::Wikilink, "[[engine]]"),
        reference(LinkDialect::Wikilink, "engine#history"),
    ];
    assert_eq!(
        parts(&read),
        [
            pair("engine", Some("history")),
            pair("engine", Some("a#b")),
            pair("engine", Some("")),
            pair("engine", None),
            pair("engine", Some("history")),
        ]
    );
}

#[test]
fn the_alias_comes_off_before_the_fragment_is_looked_for() {
    let read = [
        reference(LinkDialect::Wikilink, "[[engine#history|the Engine]]"),
        reference(LinkDialect::Wikilink, "[[engine|see #3]]"),
    ];
    assert_eq!(parts(&read), [pair("engine", Some("history")), pair("engine", None)]);
}

#[test]
fn a_markdown_target_strips_its_fragment_the_same_way() {
    let read = [
        reference(LinkDialect::Markdown, "[Ada](people/ada.md#early-life)"),
        reference(LinkDialect::Markdown, "people/ada.md#early-life"),
    ];
    let expected = pair("people/ada.md", Some("early-life"));
    assert_eq!(parts(&read), [expected.clone(), expected]);
}

#[test]
fn an_empty_target_with_a_nonempty_fragment_names_the_containing_note() {
    let own = [
        reference(LinkDialect::Wikilink, "[[#heading]]"),
        reference(LinkDialect::Markdown, "[above](#heading)"),
    ];
    assert!(own.iter().all(Reference::names_own_note), "{own:?}");
    let elsewhere = [
        reference(LinkDialect::Wikilink, "[[]]"),
        reference(LinkDialect::Wikilink, "[[|alias]]"),
        reference(LinkDialect::Wikilink, "[[#]]"),
        reference(LinkDialect::Wikilink, "[[engine#history]]"),
    ];
    assert!(!elsewhere.iter().any(Reference::names_own_note), "{elsewhere:?}");
}

#[test]
fn a_parsed_reference_clones_compares_and_formats() {
    let parsed = reference(LinkDialect::Wikilink, "[[engine#history|the Engine]]");
    assert_eq!(parsed.clone(), parsed);
    assert_ne!(parsed, reference(LinkDialect::Wikilink, "[[engine]]"));
    assert!(format!("{parsed:?}").contains("history"));
}

#[test]
fn a_value_that_is_not_one_delimited_link_is_the_reference_it_spells() {
    let plain = [
        target(LinkDialect::Wikilink, "Acme Corp"),
        target(LinkDialect::Wikilink, "[[unclosed"),
        target(LinkDialect::Wikilink, "[[closed]] and more"),
        target(LinkDialect::Markdown, "[no target]"),
        target(LinkDialect::Markdown, "people/ada.md"),
    ];
    assert_eq!(plain, ["Acme Corp", "[[unclosed", "[[closed]] and more", "[no target]", "people/ada.md"]);
}

#[test]
fn a_value_wearing_both_delimiters_is_the_one_link_they_mark() {
    assert_eq!(target(LinkDialect::Wikilink, "[[a]] and [[b]]"), "a]] and [[b");
}

#[test]
fn the_dialect_the_contract_declares_is_the_only_one_read() {
    let crossed = (target(LinkDialect::Wikilink, "[Ada](ada.md)"), target(LinkDialect::Markdown, "[[Ada]]"));
    assert_eq!(crossed, ("[Ada](ada.md)".to_owned(), "[[Ada]]".to_owned()));
}

#[test]
fn a_body_answers_every_reference_it_writes_in_the_order_it_writes_them() {
    let prose = "See [[Ada]] and then [[people/babbage]], twice: [[Ada]].\n";
    assert_eq!(
        found(LinkDialect::Wikilink, prose),
        owned(&[("[[Ada]]", "Ada"), ("[[people/babbage]]", "people/babbage"), ("[[Ada]]", "Ada")])
    );
}

#[test]
fn a_body_in_the_markdown_dialect_answers_targets_rather_than_labels() {
    let prose = "See [Ada](people/ada.md) and ![a portrait](pic.png).\n";
    assert_eq!(
        found(LinkDialect::Markdown, prose),
        owned(&[("[Ada](people/ada.md)", "people/ada.md"), ("[a portrait](pic.png)", "pic.png")])
    );
}

#[test]
fn prose_that_delimits_nothing_answers_nothing() {
    let nothing = [
        found(LinkDialect::Wikilink, "plain prose, no links at all\n"),
        found(LinkDialect::Wikilink, "an opening [[ and no close\n"),
        found(LinkDialect::Markdown, "a [bracketed] aside\n"),
        found(LinkDialect::Markdown, "a (parenthetical [aside) here\n"),
    ];
    assert!(nothing.iter().all(Vec::is_empty), "{nothing:?}");
}

#[test]
fn a_scan_answers_where_in_the_prose_each_reference_is_written() {
    let prose = "See [[Ada]] and [[Babbage]].\n";
    assert_eq!(scan(LinkDialect::Wikilink, prose), [4..11, 16..27]);
    assert_eq!(&prose[4..11], "[[Ada]]");
}

#[test]
fn a_reference_holding_the_other_dialects_delimiters_is_still_one_reference() {
    assert_eq!(
        found(LinkDialect::Wikilink, "[[a (b)]] then [[c]]\n"),
        owned(&[("[[a (b)]]", "a (b)"), ("[[c]]", "c")])
    );
}
