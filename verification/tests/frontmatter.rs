use dogtag::note::frontmatter::block::{is_item, opens_mapping, refused_key};
use dogtag::note::frontmatter::scalar::{opens_flow, refused_value, Head};
use dogtag::note::frontmatter::{flow, lines, read, Entry, Fault, FaultKind, Front, Parsed, Value};

fn chars(s: &str) -> Vec<char> {
    s.chars().collect()
}

fn parse(block: &str) -> Parsed {
    read(&format!("---\n{block}---\nbody\n"))
}

fn faults(block: &str) -> Vec<Fault> {
    let parsed = parse(block);
    assert_eq!(parsed.front, Front::Refused, "the block must be refused: {block}");
    parsed.faults
}

fn refused_for(block: &str, kind: FaultKind, expected: &str) {
    let faults = faults(block);
    let kinds: Vec<FaultKind> = faults
        .iter()
        .filter(|fault| fault.message.contains(expected))
        .map(|fault| fault.kind)
        .collect();
    let context = format!("{block}: {faults:?}");
    assert_eq!(kinds, [kind], "{context}");
}

fn entries(block: &str) -> Vec<Entry> {
    let parsed = parse(block);
    parsed.front.entries().expect("the block must load").to_vec()
}

fn scalar_of(entry: &Entry) -> &str {
    entry.value.scalar().expect("a scalar")
}

fn flow_value(text: &str) -> Value {
    flow::read(&chars(text), 0, 1).expect("a well-formed flow collection")
}

fn flow_refused(text: &str) -> Fault {
    flow::read(&chars(text), 0, 1).expect_err("a refused flow collection")
}

fn read_quoted(text: &str) -> (String, usize) {
    let read = Head(text).quoted().expect("a closed scalar");
    (read.text, read.length)
}

fn refuse(text: &str) -> String {
    Head(text).quoted().expect_err("refused")
}

fn key_of(text: &str) -> Option<(String, usize, usize)> {
    Head(text).key().map(|key| (key.text, key.length, key.value_at))
}

#[test]
fn every_construct_the_subset_refuses_is_named_where_it_is_written() {
    let cases = [
        ("a: &anchor one\n", "an anchor"),
        ("a: *alias\n", "an alias"),
        ("a: !!str one\n", "a tag"),
        ("a: |\n  block\n", "a block scalar"),
        ("a: >\n  folded\n", "a folded block scalar"),
        ("&anchor: one\n  b: two\n\n  c: three\n", "an anchor"),
        ("? explicit\n: one\n", "explicit key"),
        ("?\n", "explicit key"),
        ("<<: *base\n", "merge key"),
        ("[a, b]: one\n", "cannot be a key"),
        ("a: one\n...\nb: two\n", "multi-document stream"),
        ("a: one\na: two\n", "written twice"),
    ];
    for (block, expected) in cases {
        refused_for(block, FaultKind::Unsupported, expected);
    }
}

#[test]
fn every_way_the_grammar_itself_breaks_is_refused_as_invalid() {
    let cases = [
        ("\ta: one\n", "a tab indents this line"),
        ("not an entry\n", "expected `key: value`"),
        ("a: one\n  b: two\n", "indented under a key"),
        ("tags:\n  - one\n  name: Ada\n", "indented under a key"),
        ("- one\n", "a mapping of keys to values"),
        ("a: 'unclosed\n", "not closed"),
        ("a: 'one' two\n", "more than a comment"),
        ("a: [one\n", "expected `,` or `]`"),
    ];
    for (block, expected) in cases {
        refused_for(block, FaultKind::Invalid, expected);
    }
}

#[test]
fn a_block_nested_deeper_than_the_subset_reads_is_refused_as_unsupported() {
    refused_for("a:\n  - b:\n      c: one\n", FaultKind::Unsupported, "the field `b` holds");
    refused_for("a:\n  - b:\n      c:\n        d: one\n", FaultKind::Unsupported, "nests deeper");
    refused_for("a:\n  - b:\n      - c: one\n", FaultKind::Unsupported, "nests deeper");
}

#[test]
fn the_grammar_helpers_answer_for_the_shapes_a_line_takes() {
    assert!(is_item(&chars("-")));
    assert!(is_item(&chars("- one")));
    assert!(!is_item(&chars("-5")));
    assert!(!is_item(&chars("a")));
    assert!(opens_mapping(&chars("caption: A")));
    assert!(!opens_mapping(&chars("{caption: A}")));
    assert!(!opens_mapping(&chars("a plain scalar")));
    assert!(opens_flow(&chars("[a]")));
    assert!(opens_flow(&chars("{a: b}")));
    assert!(!opens_flow(&chars("a")));
    assert!(refused_key(&chars("plain: one")).is_none());
    assert!(refused_value(&chars("plain")).is_none());
}

#[test]
fn a_mapping_of_scalars_keeps_its_keys_in_the_order_the_note_wrote_them() {
    let read = entries("b: one\na: two\non: three\n");
    let keys: Vec<&str> = read.iter().map(|entry| entry.key.as_str()).collect();
    assert_eq!(keys, ["b", "a", "on"]);
    assert_eq!(scalar_of(&read[2]), "three");
}

#[test]
fn a_key_carrying_nothing_at_all_is_not_the_key_below_it() {
    let read = entries("a:\nb: one\n");
    assert_eq!(scalar_of(&read[0]), "");
    assert_eq!(scalar_of(&read[1]), "one");
}

#[test]
fn a_refused_key_takes_the_block_written_under_it_with_it() {
    let faults = faults("a: &anchor\n  b: one\n  c: two\nd: one\n");
    assert_eq!(faults.len(), 1);
    assert!(faults[0].message.contains("an anchor"));
}

#[test]
fn every_diagnosable_fault_is_collected_rather_than_only_the_first() {
    let faults = faults("a: *alias\nb: &anchor\nc: one\nc: two\n");
    assert_eq!(faults.len(), 3, "{faults:?}");
}

#[test]
fn a_collection_deeper_than_the_subset_reads_is_refused_as_unsupported() {
    let fault = flow_refused("[[[[one]]]]");
    assert_eq!(fault.kind, FaultKind::Unsupported);
    assert!(fault.message.contains("nests deeper"));
}

#[test]
fn every_way_a_flow_collection_stops_making_sense_is_refused_with_its_reason() {
    let cases = [
        ("[one", "expected `,` or `]`"),
        ("{a: one", "expected `,` or `}`"),
        ("[one,,]", "empty value"),
        ("{: one}", "key is empty"),
        ("{a one}", "expected `:`"),
        ("['unclosed]", "not closed"),
        ("{'unclosed: one}", "not closed"),
        ("[one] two", "more than a comment"),
    ];
    for (source, expected) in cases {
        let fault = flow_refused(source);
        assert_eq!(fault.kind, FaultKind::Invalid, "{source}");
        assert!(fault.message.contains(expected), "{source}: {fault:?}");
    }
}

#[test]
fn a_flow_sequence_reads_its_items_in_order() {
    let read = flow_value("[one, two, three]");
    let items: Vec<&str> = read.sequence().unwrap().iter().map(|i| i.scalar().unwrap()).collect();
    assert_eq!(items, ["one", "two", "three"]);
    assert_eq!(read.span, 0..17);
}

#[test]
fn a_span_is_measured_over_the_files_own_bytes() {
    let read = flow::read(&chars("[one]"), 40, 1).expect("well-formed");
    assert_eq!(read.span, 40..45);
    assert_eq!(read.sequence().expect("a sequence")[0].span, 41..44);
}

#[test]
fn a_note_with_no_opening_fence_carries_no_frontmatter_and_is_all_body() {
    let parsed = read("# Title\n\nprose\n");
    assert_eq!(parsed.front, Front::Absent);
    assert!(parsed.faults.is_empty());
    assert_eq!(parsed.body, 0..15);
}

#[test]
fn a_fenced_block_is_read_and_the_body_is_what_follows_it() {
    let text = "---\ntype: person\n---\n# Ada\n";
    let parsed = read(text);
    let entries = parsed.front.entries().expect("loaded");
    assert_eq!(entries[0].key, "type");
    assert_eq!(entries[0].key_span, 4..8);
    assert_eq!(entries[0].value.span, 10..16);
    assert_eq!(&text[parsed.body], "# Ada\n");
}

#[test]
fn a_block_that_ends_with_the_file_leaves_an_empty_body() {
    let parsed = read("---\ntype: person\n---");
    assert!(parsed.front.entries().is_some());
    assert_eq!(parsed.body, 20..20);
}

#[test]
fn a_block_that_is_never_closed_is_refused_and_names_the_fence() {
    let parsed = read("---\ntype: person\n# Ada\n");
    assert_eq!(parsed.front, Front::Refused);
    assert_eq!(parsed.faults.len(), 1);
    assert_eq!(parsed.faults[0].kind, FaultKind::Invalid);
    assert!(parsed.faults[0].message.contains("never closed"));
    assert_eq!(parsed.faults[0].span, 0..3);
}

#[test]
fn a_byte_order_mark_is_stepped_over_rather_than_hiding_the_block() {
    let parsed = read("\u{feff}---\ntype: person\n---\n");
    let entries = parsed.front.entries().expect("loaded");
    assert_eq!(entries[0].key, "type");
    assert_eq!(entries[0].key_span, 7..11);
}

#[test]
fn carriage_return_line_endings_are_read_rather_than_refused() {
    let parsed = read("---\r\ntype: person\r\n---\r\n");
    let entries = parsed.front.entries().expect("loaded");
    assert_eq!(entries[0].key, "type");
    assert_eq!(entries[0].value.scalar(), Some("person"));
}

#[test]
fn the_frontmatter_types_clone_compare_and_format() {
    let parsed = read("---\na: one\n---\n");
    assert_eq!(parsed.clone(), parsed);
    assert!(format!("{parsed:?}").contains("one"));
    let fault = Fault::new(FaultKind::Invalid, "broken".to_owned(), 0..1);
    assert_eq!(fault.clone(), fault);
    assert!(format!("{fault:?}").contains("broken"));
    assert_ne!(FaultKind::Invalid, FaultKind::Unsupported);
}

#[test]
fn a_line_reports_its_own_extent() {
    let lines = lines(&chars("---\n  key: one\n"));
    assert_eq!(lines[1].indent, 2);
    assert_eq!(lines[1].text.iter().collect::<String>(), "key: one");
    assert_eq!(lines[1].range(), 6..14);
    assert_eq!(lines[1].end(), 14);
    assert!(dogtag::note::frontmatter::is_fence(&lines[0]));
    assert!(!dogtag::note::frontmatter::is_fence(&lines[1]));
    assert!(!lines[1].is_ignorable());
}

#[test]
fn a_value_answers_what_it_is_for_a_message_that_has_to_say_so() {
    let parsed = read("---\na: one\nb: [one]\nc:\n  d: one\n---\n");
    let entries = parsed.front.entries().expect("loaded");
    let described: Vec<&str> = entries.iter().map(|entry| entry.value.describe()).collect();
    assert_eq!(described, ["a scalar", "a sequence", "a mapping"]);
    assert_eq!(entries[1].value.scalar(), None);
}

#[test]
fn a_single_quoted_scalar_takes_its_bytes_as_written() {
    let read = [read_quoted("'[[Some Note]]'"), read_quoted("'true' # a comment"), read_quoted("''")];
    assert_eq!(read, [("[[Some Note]]".to_owned(), 15), ("true".to_owned(), 6), (String::new(), 2)]);
}

#[test]
fn a_single_quoted_scalar_writes_one_quote_as_two() {
    let read = (read_quoted("'it''s'"), read_quoted("''''"));
    assert_eq!(read, (("it's".to_owned(), 7), ("'".to_owned(), 4)));
}

#[test]
fn a_double_quoted_scalar_undoes_every_escape_the_subset_admits() {
    let escapes = [
        ('\\', '\\'),
        ('"', '"'),
        ('/', '/'),
        ('n', '\n'),
        ('t', '\t'),
        ('r', '\r'),
        ('b', '\u{8}'),
        ('f', '\u{c}'),
        ('0', '\0'),
    ];
    for (spelling, character) in escapes {
        let source = format!("\"a\\{spelling}b\"");
        assert_eq!(read_quoted(&source).0, format!("a{character}b"));
    }
    assert_eq!(read_quoted("\"\\u00e9t\\u00e9\"").0, "été");
}

#[test]
fn a_double_quoted_scalar_refuses_an_escape_it_does_not_admit() {
    let refused = [
        ("\"a\\qb\"", "not an escape"),
        ("\"a\\", "ends the scalar"),
        ("\"\\uzzzz\"", "hexadecimal"),
        ("\"\\ud800\"", "not a Unicode scalar value"),
    ];
    for (source, expected) in refused {
        let message = refuse(source);
        assert!(message.contains(expected), "{source}: {message}");
    }
}

#[test]
fn an_unclosed_quoted_scalar_says_which_quote_opened_it() {
    let messages = (refuse("'one"), refuse("\"one"));
    assert!(messages.0.contains("single-quoted"), "{messages:?}");
    assert!(messages.1.contains("double-quoted"), "{messages:?}");
    let opens = (Head("'a'").opens_quote(), Head("\"a\"").opens_quote(), Head("a").opens_quote());
    assert_eq!(opens, (true, true, false));
}

#[test]
fn a_plain_scalar_loses_a_trailing_comment_and_nothing_else() {
    let read = [
        Head("person  # the type").plain(),
        Head("https://example.com/#anchor").plain(),
        Head("a value with spaces").plain(),
        Head("#not-a-value").plain(),
    ];
    assert_eq!(read, ["person", "https://example.com/#anchor", "a value with spaces", ""]);
}

#[test]
fn a_line_that_is_a_mapping_entry_reports_its_key_and_where_the_value_is() {
    assert_eq!(key_of("type: person"), Some(("type".to_owned(), 4, 6)));
    assert_eq!(key_of("type:"), Some(("type".to_owned(), 4, 5)));
    assert_eq!(key_of("type   :    person"), Some(("type".to_owned(), 4, 12)));
}

#[test]
fn a_quoted_key_is_a_key_and_keeps_the_bytes_it_quoted() {
    assert_eq!(key_of("\"a: b\": one"), Some(("a: b".to_owned(), 6, 8)));
    assert_eq!(key_of("'on':"), Some(("on".to_owned(), 4, 5)));
}

#[test]
fn a_quoted_key_tolerates_spaces_before_its_colon_as_a_plain_key_does() {
    assert_eq!(key_of("'on' : one"), Some(("on".to_owned(), 4, 7)));
    assert_eq!(key_of("\"on\"   :   one"), Some(("on".to_owned(), 4, 11)));
    assert_eq!(key_of("'on' :"), Some(("on".to_owned(), 4, 6)));
    assert_eq!(key_of("'on' x: y"), None);
}

#[test]
fn text_that_is_not_a_mapping_entry_is_not_read_as_one() {
    let text = ["https://example.com", ": one", "'quoted'", "\"unclosed", "x"];
    let read: Vec<bool> = text.iter().map(|text| key_of(text).is_some()).collect();
    assert_eq!(read, [false, false, false, false, false]);
}

fn scalars(value: &Value) -> Vec<String> {
    value.sequence().expect("a sequence").iter().map(|item| item.scalar().expect("a scalar").to_owned()).collect()
}

fn items(entry: &Entry) -> Vec<String> {
    scalars(&entry.value)
}

fn sequence(value: &Value) -> &[Value] {
    value.sequence().expect("a sequence")
}

fn fields(value: &Value) -> Vec<(&str, &str)> {
    value
        .mapping()
        .expect("a mapping")
        .iter()
        .map(|entry| (entry.key.as_str(), entry.value.scalar().expect("a scalar")))
        .collect()
}

fn mapping_of(value: &Value) -> &[Entry] {
    value.mapping().expect("a mapping")
}

#[test]
fn a_key_with_nothing_after_it_carries_a_scalar_with_no_bytes() {
    let read = entries("type:\n");
    assert_eq!(scalar_of(&read[0]), "");
    assert_eq!(read[0].value.span, 9..9);
}

#[test]
fn blank_lines_and_comments_carry_nothing_the_grammar_reads() {
    let read = entries("# a comment\n\ntype: person # and another\n\n");
    assert_eq!(read.len(), 1);
    assert_eq!(scalar_of(&read[0]), "person");
}

#[test]
fn a_block_sequence_reads_at_its_keys_indentation_or_beneath_it() {
    let flush = entries("tags:\n- one\n- two\n");
    assert_eq!(items(&flush[0]), ["one", "two"]);
    let indented = entries("tags:\n  - one\n  - two\n");
    assert_eq!(items(&indented[0]), ["one", "two"]);
}

#[test]
fn a_flow_sequence_on_the_key_s_own_line_reads_the_same_way() {
    assert_eq!(items(&entries("tags: [one, two]\n")[0]), ["one", "two"]);
}

#[test]
fn a_mapping_beneath_a_key_is_a_record_value() {
    let read = entries("legal_name:\n  given: Ada\n  family: Lovelace\n");
    assert_eq!(fields(&read[0].value), [("given", "Ada"), ("family", "Lovelace")]);
}

#[test]
fn a_sequence_of_mappings_is_a_list_of_records() {
    let read = entries("waypoints:\n  - caption: A\n    reached_on: 2026-01-01\n  - caption: B\n");
    let items = sequence(&read[0].value);
    assert_eq!(fields(&items[0]), [("caption", "A"), ("reached_on", "2026-01-01")]);
    assert_eq!(fields(&items[1]), [("caption", "B")]);
}

#[test]
fn a_sequence_item_that_carries_its_value_beneath_the_dash_is_read_too() {
    let read = entries("waypoints:\n  -\n    caption: A\n");
    assert_eq!(fields(&sequence(&read[0].value)[0]), [("caption", "A")]);
}

#[test]
fn a_quoted_scalar_is_spelling_and_never_typing() {
    let read = entries("link: \"[[Some Note]]\"\nflag: 'true' # and a comment\n");
    assert_eq!(scalar_of(&read[0]), "[[Some Note]]");
    assert_eq!(scalar_of(&read[1]), "true");
    assert_eq!(read[0].value.span, 10..25);
}

#[test]
fn a_quoted_key_is_read_as_the_bytes_it_quoted() {
    let read = entries("\"on\": one\n");
    assert_eq!((read[0].key.as_str(), read[0].key_span.clone()), ("on", 4..8));
}

#[test]
fn a_sequence_ends_where_the_next_key_begins() {
    let read = entries("tags:\n  - one\nname: Ada\n");
    assert_eq!(items(&read[0]), ["one"]);
    assert_eq!(scalar_of(&read[1]), "Ada");
}

#[test]
fn a_flow_sequence_may_be_empty_and_may_end_with_a_comma() {
    assert_eq!(scalars(&flow_value("[]")), Vec::<String>::new());
    assert_eq!(scalars(&flow_value("[ one , ]")), ["one"]);
    assert_eq!(scalars(&flow_value("[one] # a comment")), ["one"]);
}

#[test]
fn a_flow_sequence_keeps_a_quoted_items_bytes_as_written() {
    assert_eq!(scalars(&flow_value("['[[Ada]]', \"a, b\"]")), ["[[Ada]]", "a, b"]);
}

#[test]
fn a_flow_mapping_reads_its_entries_in_order() {
    let read = flow_value("{caption: A, reached_on: 2026-01-01}");
    let entries = mapping_of(&read);
    let pairs: Vec<(&str, Option<&str>)> = entries.iter().map(|entry| (entry.key.as_str(), entry.value.scalar())).collect();
    assert_eq!(pairs, [("caption", Some("A")), ("reached_on", Some("2026-01-01"))]);
    assert_eq!(entries[0].key_span, 1..8);
}

#[test]
fn a_flow_mapping_may_be_empty_and_may_carry_a_quoted_key() {
    let read = flow_value("{'on': yes}");
    assert_eq!(mapping_of(&read)[0].key, "on", "a key is its bytes, never a boolean");
    assert!(mapping_of(&flow_value("{}")).is_empty());
}

#[test]
fn a_sequence_of_mappings_is_read_because_a_list_of_records_is_written_that_way() {
    let read = flow_value("[{caption: A}, {caption: B}]");
    let items = read.sequence().expect("a sequence");
    assert_eq!(items.len(), 2);
    assert_eq!(mapping_of(&items[1])[0].key, "caption");
}

#[test]
fn an_empty_note_carries_no_frontmatter() {
    let parsed = read("");
    assert_eq!(parsed.front, Front::Absent);
    assert_eq!(parsed.body, 0..0);
}

#[test]
fn a_block_holding_nothing_reads_as_a_note_with_no_keys() {
    assert_eq!(read("---\n---\nbody\n").front, Front::Read(Vec::new()));
    assert_eq!(read("---\n# only a comment\n\n---\n").front, Front::Read(Vec::new()));
}

fn shape_refused(block: &str) -> Vec<String> {
    let parsed = read(&format!("---\n{block}---\n"));
    assert_eq!(parsed.front, Front::Refused, "the block must be refused");
    parsed.faults.iter().map(|fault| fault.message.clone()).collect()
}

fn accepted(block: &str) {
    let parsed = read(&format!("---\n{block}---\n"));
    assert!(matches!(parsed.front, Front::Read(_)), "the block must load: {:?}", parsed.faults);
}

#[test]
fn every_shape_the_subset_admits_loads() {
    accepted("a: one\n");
    accepted("a: [one, two]\n");
    accepted("a:\n  given: one\n");
    accepted("a:\n  - given: one\n  - given: two\n");
    accepted("a: [{given: one}]\n");
}

#[test]
fn a_mapping_inside_a_mapping_is_refused_by_the_shape_rule() {
    let messages = shape_refused("a:\n  b:\n    c: one\n");
    assert_eq!(messages.len(), 1);
    assert!(messages[0].contains("the field `b` holds a mapping"), "{messages:?}");
    assert!(messages[0].contains("a mapping of scalars"));
}

#[test]
fn a_sequence_inside_a_mapping_is_refused_by_the_shape_rule() {
    let messages = shape_refused("a:\n  b: [one]\n");
    assert!(messages[0].contains("the field `b` holds a sequence"), "{messages:?}");
}

#[test]
fn a_sequence_inside_a_sequence_is_refused_by_the_shape_rule() {
    let messages = shape_refused("a: [[one]]\n");
    assert!(messages[0].contains("`a` holds a sequence inside a sequence"), "{messages:?}");
}

#[test]
fn a_sequence_inside_a_records_field_is_refused_wherever_the_record_sits() {
    let messages = shape_refused("a:\n  - b: [one]\n");
    assert!(messages[0].contains("the field `b` holds a sequence"), "{messages:?}");
}

#[test]
fn each_member_of_a_flow_sequence_spans_its_own_characters() {
    let read = flow_value("[ one , 'two' ,three, ]  # trailing");
    let items = read.sequence().expect("a sequence");
    let spans: Vec<std::ops::Range<usize>> = items.iter().map(|i| i.span.clone()).collect();
    let texts: Vec<&str> = items.iter().map(|i| i.scalar().unwrap()).collect();
    assert_eq!(texts, ["one", "two", "three"]);
    assert_eq!(spans, [2..5, 8..13, 15..20]);
}
