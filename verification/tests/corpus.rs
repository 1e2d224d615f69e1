use dogtag::contract::{
    Capability,
    Contract, Dialect, FieldDecl, FieldKind, LifecycleDecl, LinkDialect, PropertyDecl, PropertyKind, RelationshipDecl,
    ScalarKind, TagNamespaceDecl, Tags, TypeDecl,
};
use dogtag::diagnostic::{FileRef, KernelDiagnostic, Location, Position, Severity, Span, VaultPath};
use dogtag::note::traverse::unreadable;
use dogtag::note::{read_corpus, Binding, Corpus, Edge, Listing, Note, PropertyValue};
use dogtag::provenance::{Provenance, ProvenanceEntry, Source};

fn property(name: &str, kind: PropertyKind, required: bool) -> PropertyDecl {
    PropertyDecl { name: name.to_owned(), kind, required }
}

fn field(name: &str, kind: FieldKind, required: bool) -> FieldDecl {
    FieldDecl { name: name.to_owned(), kind, required }
}

fn strings(values: &[&str]) -> Vec<String> {
    values.iter().map(|v| (*v).to_owned()).collect()
}

fn type_decl(name: &str, catch_all: bool) -> TypeDecl {
    TypeDecl {
        name: name.to_owned(),
        capabilities: vec![if catch_all { Capability::CatchAll } else { Capability::IdentityBearing }],
        properties: Vec::new(),
        relationships: Vec::new(),
        tag_namespaces: Vec::new(),
    }
}

fn written_at(line: usize) -> Location {
    Location::in_file(
        FileRef::InVault(VaultPath::kernel(".dogtag/contract.toml")),
        Span::at(Position::new(line, 3, line * 10)),
    )
}

fn contract(links: LinkDialect, tags: Option<&str>, person: TypeDecl) -> Contract {
    let mut provenance = Provenance::new();
    let keys = [
        "type.person.property.full_name.required",
        "type.person.relationship.works-at.required",
        "type.person.property.legal_name.field.given.required",
        "type.person.property.waypoints.field.caption.required",
    ];
    for (line, key) in keys.iter().enumerate() {
        provenance.insert(ProvenanceEntry::written(key, Source::Contract, written_at(line + 10)));
    }
    Contract {
        contract_version: 2,
        dialect: Dialect { links },
        lifecycle: LifecycleDecl::NoAxis,
        tags: tags.map(|property| Tags { property: property.to_owned() }),
        flags: Vec::new(),
        types: vec![person, type_decl("capture", true)],
        provenance,
    }
}

/// A contract exercising every shape a note can be held to.
fn full() -> Contract {
    let mut person = type_decl("person", false);
    person.properties = vec![
        property("full_name", PropertyKind::Scalar(ScalarKind::String), true),
        property("status", PropertyKind::Enum { values: strings(&["draft", "archived"]) }, false),
        property("born_on", PropertyKind::Scalar(ScalarKind::Date), false),
        property("labels", PropertyKind::List { of: ScalarKind::String }, false),
        property("scores", PropertyKind::List { of: ScalarKind::Integer }, false),
        property(
            "legal_name",
            PropertyKind::Record {
                fields: vec![
                    field("given", FieldKind::Scalar(ScalarKind::String), true),
                    field("family", FieldKind::Scalar(ScalarKind::String), false),
                    field("usage", FieldKind::Enum { values: strings(&["legal", "preferred"]) }, false),
                ],
            },
            false,
        ),
        property(
            "waypoints",
            PropertyKind::ListOfRecord {
                fields: vec![
                    field("caption", FieldKind::Scalar(ScalarKind::String), true),
                    field("reached_on", FieldKind::Scalar(ScalarKind::Date), false),
                ],
            },
            false,
        ),
    ];
    person.relationships = vec![
        RelationshipDecl { predicate: "works-at".to_owned(), required: true },
        RelationshipDecl { predicate: "mentions".to_owned(), required: false },
    ];
    contract(LinkDialect::Wikilink, Some("labels"), person)
}

/// A contract that declares no tag vocabulary at all.
fn untagged() -> Contract {
    let mut person = type_decl("person", false);
    person.properties = vec![property("labels", PropertyKind::List { of: ScalarKind::String }, false)];
    contract(LinkDialect::Wikilink, None, person)
}

/// A contract whose one identity-bearing type describes its own tagging.
fn namespaced() -> Contract {
    let mut person = type_decl("person", false);
    person.properties = vec![property("labels", PropertyKind::List { of: ScalarKind::String }, false)];
    person.tag_namespaces = vec![
        TagNamespaceDecl { prefix: "role/".to_owned(), required: true, values: Some(strings(&["founder", "advisor"])) },
        TagNamespaceDecl { prefix: "topic/".to_owned(), required: false, values: None },
    ];
    contract(LinkDialect::Wikilink, Some("labels"), person)
}

/// A contract whose corpus writes its links the other way.
fn markdown() -> Contract {
    let mut person = type_decl("person", false);
    person.relationships = vec![RelationshipDecl { predicate: "works-at".to_owned(), required: false }];
    contract(LinkDialect::Markdown, None, person)
}

const CONFORMING: &str = "---\ntype: person\nfull_name: Ada Lovelace\nstatus: draft\nborn_on: 1815-12-10\nlabels: [role/founder, topic/computing]\nlegal_name:\n  given: Augusta\n  family: Lovelace\n  usage: legal\nwaypoints:\n  - caption: first program\n    reached_on: 1843-01-01\nworks-at: \"[[engine]]\"\n---\n# Ada Lovelace\n\nprose\n";

const TARGETS: &[(&str, &str)] = &[("engine.md", "# The Analytical Engine\n"), ("society.md", "# The Analytical Society\n")];

fn listing(notes: &[(&str, &[u8])]) -> Listing {
    let mut files: Vec<(VaultPath, Vec<u8>)> =
        TARGETS.iter().map(|(path, body)| (VaultPath::kernel(path), body.as_bytes().to_vec())).collect();
    files.extend(notes.iter().map(|(path, body)| (VaultPath::kernel(path), body.to_vec())));
    Listing { files, unreadable: Vec::new() }
}

fn read_against(contract: &Contract, notes: &[(&str, &str)]) -> Corpus {
    let bytes: Vec<(&str, &[u8])> = notes.iter().map(|(path, body)| (*path, body.as_bytes())).collect();
    read_corpus(listing(&bytes), contract)
}

fn read(notes: &[(&str, &str)]) -> Corpus {
    read_against(&full(), notes)
}

fn ids(corpus: &Corpus) -> Vec<&str> {
    corpus.diagnostics().iter().map(|diagnostic| diagnostic.id.as_str()).collect()
}

fn only(corpus: &Corpus) -> &Note {
    let under_test: Vec<&Note> = corpus
        .notes()
        .iter()
        .filter(|note| !TARGETS.iter().any(|(path, _)| *path == note.path().as_str()))
        .collect();
    assert_eq!(under_test.len(), 1, "exactly one note under test");
    under_test[0]
}

fn corpus_note<'a>(corpus: &'a Corpus, path: &str) -> &'a Note {
    corpus.notes().iter().find(|note| note.path().as_str() == path).expect("a note this test wrote")
}

fn paths(corpus: &Corpus) -> Vec<&str> {
    corpus.notes().iter().map(|note| note.path().as_str()).collect()
}

fn one_finding<'a>(corpus: &'a Corpus, id: &str) -> &'a str {
    let reported = ids(corpus);
    assert_eq!(reported, [id]);
    corpus.diagnostics()[0].message.as_str()
}

fn located(corpus: &Corpus) -> Vec<&str> {
    corpus
        .diagnostics()
        .iter()
        .map(|diagnostic| diagnostic.location.as_ref().expect("located").file.display_path())
        .collect()
}

fn linking(reference: &str) -> String {
    format!("---\ntype: person\nfull_name: Ada\nworks-at: {reference}\n---\n")
}

fn tagged(labels: &str) -> Corpus {
    let note = format!("---\ntype: person\nlabels: {labels}\n---\n");
    read_against(&namespaced(), &[("ada.md", &note)])
}

#[test]
fn a_conforming_corpus_reads_with_nothing_at_all_to_report() {
    let corpus = read(&[("people/ada.md", CONFORMING)]);
    let reported = ids(&corpus);
    assert!(reported.is_empty(), "{reported:?}");
    let note = only(&corpus);
    assert_eq!(note.path().as_str(), "people/ada.md");
    assert_eq!(note.binding().bound_type(), Some("person"));
    assert_eq!(note.binding().bound_by(), "declaration");
    assert_eq!(note.title(), Some("Ada Lovelace"));
    assert_eq!(note.body(), "# Ada Lovelace\n\nprose\n");
}

#[test]
fn a_conforming_note_carries_every_shape_of_value_as_the_bytes_it_wrote() {
    let corpus = read(&[("ada.md", CONFORMING)]);
    let note = only(&corpus);
    assert_eq!(note.property("full_name").and_then(PropertyValue::scalar), Some("Ada Lovelace"));
    assert_eq!(
        note.property("labels").and_then(PropertyValue::list),
        Some(&["role/founder".to_owned(), "topic/computing".to_owned()][..])
    );
    let legal = note.property("legal_name").expect("a record").records();
    assert_eq!(legal[0].field("given"), Some("Augusta"));
    assert_eq!(legal[0].field("usage"), Some("legal"));
    let waypoints = note.property("waypoints").expect("a list").records();
    assert_eq!(waypoints[0].field("caption"), Some("first program"));
    assert_eq!(waypoints[0].field("reached_on"), Some("1843-01-01"));
    assert_eq!(note.tags(), ["role/founder", "topic/computing"]);
}

#[test]
fn an_edge_carries_the_reference_as_written_and_the_note_it_resolved_to() {
    let corpus = read(&[("ada.md", CONFORMING)]);
    let edges = only(&corpus).relationship("works-at").expect("declared");
    assert_eq!(edges[0].written(), "[[engine]]");
    assert_eq!(edges[0].target().map(VaultPath::as_str), Some("engine.md"));
}

#[test]
fn a_note_with_no_frontmatter_belongs_to_the_catch_all_type() {
    let corpus = read(&[("inbox.md", "# A thought\n")]);
    assert!(corpus.diagnostics().is_empty());
    let note = only(&corpus);
    assert_eq!(note.binding().bound_type(), Some("capture"));
    assert_eq!(note.binding().bound_by(), "catch-all");
    assert_eq!(note.binding().discriminator(), None);
}

#[test]
fn frontmatter_without_a_type_key_belongs_to_the_catch_all_too() {
    let corpus = read(&[("inbox.md", "---\nnote: a thought\n---\n")]);
    let note = only(&corpus);
    assert_eq!(note.binding().bound_by(), "catch-all");
    assert_eq!(ids(&corpus), ["note.undeclared-property"]);
}

#[test]
fn a_type_naming_nothing_the_contract_declares_is_reported_and_binds_to_nothing() {
    let note = "---\ntype: persno\nfull_name: Ada\nstray: one\n---\n";
    let corpus = read(&[("ada.md", note)]);
    let message = one_finding(&corpus, "note.unknown-type");
    assert!(message.contains("`persno`"), "{message}");
    let read = only(&corpus);
    assert_eq!(read.binding().bound_type(), None);
    assert_eq!(read.binding().bound_by(), "none");
    assert_eq!(read.binding().discriminator(), Some("persno"));
}

#[test]
fn a_type_that_is_not_a_scalar_is_reported_and_never_falls_back_to_the_catch_all() {
    let corpus = read(&[("ada.md", "---\ntype: [person]\n---\n")]);
    let message = one_finding(&corpus, "note.type-invalid");
    assert!(message.contains("a sequence"), "{message}");
    assert_eq!(only(&corpus).binding().bound_by(), "none");
}

#[test]
fn a_note_bound_to_nothing_collects_no_further_finding() {
    let note = "---\ntype: persno\nstray: one\nborn_on: not-a-date\n---\n";
    let corpus = read(&[("ada.md", note)]);
    assert_eq!(ids(&corpus), ["note.unknown-type"]);
}

#[test]
fn an_undeclared_key_is_info_per_key_and_points_at_the_key_it_names() {
    let note = "---\ntype: person\nfull_name: Ada\nworks-at: \"[[engine]]\"\ncreated: 2026-08-03\nupdated: 2026-08-03\n---\n";
    let corpus = read(&[("ada.md", note)]);
    assert_eq!(ids(&corpus), ["note.undeclared-property", "note.undeclared-property"]);
    let first = &corpus.diagnostics()[0];
    assert_eq!(first.severity, Severity::Info);
    assert!(first.message.contains("`created`"), "{}", first.message);
    let span = first.location.as_ref().expect("located").span.expect("spanned");
    assert_eq!((span.start.line, span.start.column), (5, 1));
}

#[test]
fn a_missing_required_property_names_it_and_points_at_the_note_itself() {
    let note = "---\ntype: person\nworks-at: \"[[engine]]\"\n---\n";
    let corpus = read(&[("ada.md", note)]);
    let message = one_finding(&corpus, "note.missing-required-property");
    assert!(message.contains("`full_name`"), "{message}");
    let location = corpus.diagnostics()[0].location.as_ref().expect("located");
    assert!(location.span.is_none(), "an absence has no bytes to point at");
    let evidence = &corpus.diagnostics()[0].related[0];
    assert!(evidence.message.contains("required"));
    assert!(evidence.location.is_some(), "the requirement is written in the contract");
}

#[test]
fn a_required_relationship_with_no_edge_is_reported_against_the_note() {
    let note = "---\ntype: person\nfull_name: Ada\nworks-at:\n---\n";
    let corpus = read(&[("ada.md", note)]);
    let message = one_finding(&corpus, "note.missing-required-relationship");
    assert!(message.contains("`works-at`"), "{message}");
    assert_eq!(only(&corpus).relationship("works-at"), Some(&[][..]));
}

#[test]
fn a_relationship_value_that_is_not_a_link_is_reported() {
    let note = "---\ntype: person\nfull_name: Ada\nworks-at:\n  at: Engine\n---\n";
    let corpus = read(&[("ada.md", note)]);
    assert_eq!(ids(&corpus), ["note.missing-required-relationship", "note.relationship-value-invalid"]);
}

#[test]
fn a_value_that_fails_its_kinds_lexical_form_names_the_kind_and_the_span() {
    let note = "---\ntype: person\nfull_name: Ada\nworks-at: \"[[engine]]\"\nborn_on: 1815-12-1\nstatus: published\n---\n";
    let corpus = read(&[("ada.md", note)]);
    assert_eq!(ids(&corpus), ["note.property-kind-invalid", "note.property-kind-invalid"]);
    assert!(corpus.diagnostics()[0].message.contains("`date`"));
    assert!(corpus.diagnostics()[1].message.contains("draft, archived"));
    assert_eq!(only(&corpus).property("born_on").and_then(PropertyValue::scalar), Some("1815-12-1"));
}

#[test]
fn a_value_whose_shape_the_kind_cannot_hold_leaves_the_property_absent() {
    let note = "---\ntype: person\nfull_name: Ada\nworks-at: \"[[engine]]\"\nlabels: one\nlegal_name: Augusta\n---\n";
    let corpus = read(&[("ada.md", note)]);
    assert_eq!(ids(&corpus), ["note.property-kind-invalid", "note.property-kind-invalid"]);
    let read = only(&corpus);
    assert!(read.property("labels").is_none());
    assert!(read.property("legal_name").is_none());
}

#[test]
fn a_records_fields_validate_exactly_as_properties_do_under_the_field_path() {
    let note = "---\ntype: person\nfull_name: Ada\nworks-at: \"[[engine]]\"\nlegal_name:\n  family: Lovelace\n  middle: Augusta\n---\n";
    let corpus = read(&[("ada.md", note)]);
    assert_eq!(ids(&corpus), ["note.missing-required-property", "note.undeclared-property"]);
    let missing = &corpus.diagnostics()[0].message;
    assert!(missing.contains("`legal_name.given`"), "{missing}");
    assert!(corpus.diagnostics()[1].message.contains("`legal_name`"));
}

#[test]
fn every_element_of_a_list_of_records_is_held_to_the_same_fields() {
    let note = "---\ntype: person\nfull_name: Ada\nworks-at: \"[[engine]]\"\nwaypoints:\n  - caption: first\n    reached_on: 1843-1-1\n  - reached_on: 1843-01-02\n---\n";
    let corpus = read(&[("ada.md", note)]);
    assert_eq!(ids(&corpus), ["note.missing-required-property", "note.property-kind-invalid"]);
    let missing = &corpus.diagnostics()[0].message;
    assert!(missing.contains("`waypoints[1].caption`"), "{missing}");
    assert!(corpus.diagnostics()[1].message.contains("`waypoints[0].reached_on`"));
}

#[test]
fn an_element_of_a_list_is_held_to_the_element_kind_under_its_index() {
    let note = "---\ntype: person\nfull_name: Ada\nworks-at: \"[[engine]]\"\nlabels:\n  - role/founder\n  - one: two\nwaypoints:\n  - one\n---\n";
    let corpus = read(&[("ada.md", note)]);
    assert_eq!(ids(&corpus), ["note.property-kind-invalid", "note.property-kind-invalid"]);
    assert!(corpus.diagnostics()[0].message.contains("`labels[1]`"));
    assert!(corpus.diagnostics()[1].message.contains("`waypoints[0]`"));
}

#[test]
fn a_sequence_of_links_is_read_as_one_edge_each() {
    let note = "---\ntype: person\nfull_name: Ada\nworks-at:\n  - \"[[engine]]\"\n  - \"[[society]]\"\n---\n";
    let corpus = read(&[("ada.md", note)]);
    let reported = ids(&corpus);
    assert!(reported.is_empty(), "{reported:?}");
    let edges = only(&corpus).relationship("works-at").expect("declared");
    let written: Vec<&str> = edges.iter().map(Edge::written).collect();
    assert_eq!(written, ["[[engine]]", "[[society]]"]);
    let targets: Vec<&str> = edges.iter().filter_map(|edge| edge.target().map(VaultPath::as_str)).collect();
    assert_eq!(targets, ["engine.md", "society.md"]);
}

#[test]
fn a_sequence_holding_something_that_is_not_a_link_is_reported() {
    let note = "---\ntype: person\nfull_name: Ada\nworks-at:\n  - at: Engine\n---\n";
    let corpus = read(&[("ada.md", note)]);
    assert_eq!(ids(&corpus), ["note.missing-required-relationship", "note.relationship-value-invalid"]);
}

#[test]
fn a_predicate_the_note_never_writes_carries_no_edge_at_all() {
    let note = "---\ntype: person\nfull_name: Ada\n---\n";
    let corpus = read(&[("ada.md", note)]);
    assert_eq!(ids(&corpus), ["note.missing-required-relationship"]);
    assert_eq!(only(&corpus).relationship("works-at"), Some(&[][..]));
}

#[test]
fn an_optional_relationship_with_no_edge_is_not_a_finding() {
    let corpus = read_against(&untagged(), &[("ada.md", "---\ntype: person\nlabels: [one]\n---\n")]);
    let reported = ids(&corpus);
    assert!(reported.is_empty(), "{reported:?}");
    assert!(only(&corpus).tags().is_empty());
}

#[test]
fn a_scalar_kind_meeting_a_collection_leaves_the_property_absent() {
    let note = "---\ntype: person\nfull_name: Ada\nworks-at: \"[[engine]]\"\nborn_on: [1815-12-10]\n---\n";
    let corpus = read(&[("ada.md", note)]);
    assert_eq!(ids(&corpus), ["note.property-kind-invalid"]);
    assert!(only(&corpus).property("born_on").is_none());
}

#[test]
fn a_list_element_is_held_to_its_element_kinds_lexical_form() {
    let note = "---\ntype: person\nfull_name: Ada\nworks-at: \"[[engine]]\"\nscores: [1, one]\n---\n";
    let corpus = read(&[("ada.md", note)]);
    let message = one_finding(&corpus, "note.property-kind-invalid");
    assert!(message.contains("`scores[1]`"), "{message}");
    assert!(message.contains("`integer`"), "{message}");
}

#[test]
fn a_records_optional_field_may_simply_be_absent() {
    let note = "---\ntype: person\nfull_name: Ada\nworks-at: \"[[engine]]\"\nlegal_name:\n  given: Augusta\n  usage: nickname\n---\n";
    let corpus = read(&[("ada.md", note)]);
    let message = one_finding(&corpus, "note.property-kind-invalid");
    assert!(message.contains("`legal_name.usage`"), "{message}");
    let record = &only(&corpus).property("legal_name").expect("a record").records()[0];
    assert_eq!(record.field("family"), None);
    assert_eq!(record.field("given"), Some("Augusta"));
}

#[test]
fn a_required_namespace_with_no_tag_in_it_points_at_the_tags_the_note_wrote() {
    let corpus = tagged("[topic/computing]");
    let message = one_finding(&corpus, "note.required-namespace-missing");
    assert!(message.contains("`role/`"), "{message}");
    let span = corpus.diagnostics()[0].location.as_ref().expect("located").span.expect("spanned");
    assert_eq!((span.start.line, span.start.column), (3, 9));
}

#[test]
fn a_note_carrying_no_tags_at_all_is_told_so_against_the_note_itself() {
    let corpus = read_against(&namespaced(), &[("ada.md", "---\ntype: person\n---\n")]);
    let message = one_finding(&corpus, "note.required-namespace-missing");
    assert!(message.contains("`role/`"), "{message}");
    let location = corpus.diagnostics()[0].location.as_ref().expect("located");
    assert!(location.span.is_none());
    assert!(corpus.diagnostics()[0].related[0].message.contains("required"));
}

#[test]
fn a_tag_outside_a_closed_namespaces_vocabulary_is_reported_against_the_tag() {
    let corpus = tagged("[role/chair]");
    let message = one_finding(&corpus, "note.tag-outside-vocabulary");
    assert!(message.contains("`role/chair`"), "{message}");
}

#[test]
fn an_open_namespace_bounds_nothing_and_an_undeclared_prefix_is_untouched() {
    let corpus = tagged("[role/advisor, topic/anything-at-all, other/entirely]");
    let reported = ids(&corpus);
    assert!(reported.is_empty(), "{reported:?}");
    assert_eq!(only(&corpus).tags(), ["role/advisor", "topic/anything-at-all", "other/entirely"]);
}

#[test]
fn every_namespace_is_evaluated_independently_of_every_other() {
    let corpus = tagged("[role/chair, role/founder]");
    assert_eq!(ids(&corpus), ["note.tag-outside-vocabulary"]);
}

#[test]
fn a_note_whose_bytes_are_not_text_is_reported_and_the_corpus_still_reads() {
    let corpus = read_corpus(
        listing(&[("ada.md", CONFORMING.as_bytes()), ("broken.md", b"# Title \xff\n")]),
        &full(),
    );
    assert_eq!(ids(&corpus), ["note.unreadable"]);
    assert_eq!(corpus.notes().len(), 3, "one unreadable note is not a corpus");
    assert!(corpus.diagnostics()[0].message.contains("valid UTF-8"));
}

#[test]
fn a_byte_order_mark_and_a_carriage_return_are_warnings_and_the_note_is_read() {
    let note = "\u{feff}---\r\ntype: person\r\nfull_name: Ada\r\nworks-at: \"[[engine]]\"\r\n---\r\n";
    let corpus = read(&[("ada.md", note)]);
    assert_eq!(ids(&corpus), ["note.byte-order-mark", "note.carriage-return-line-ending"]);
    for diagnostic in corpus.diagnostics() {
        assert_eq!(diagnostic.severity, Severity::Warning);
    }
    assert_eq!(only(&corpus).binding().bound_type(), Some("person"));
}

#[test]
fn a_refused_frontmatter_construct_leaves_the_note_bound_to_nothing() {
    let note = "---\ntype: person\nalias: *base\n---\n# Ada\n";
    let corpus = read(&[("ada.md", note)]);
    let message = one_finding(&corpus, "note.frontmatter-unsupported");
    assert!(message.contains("an alias"), "{message}");
    let read = only(&corpus);
    assert_eq!(read.binding().bound_by(), "none");
    assert_eq!(read.title(), Some("Ada"));
}

#[test]
fn a_refused_construct_written_in_brackets_is_refused_just_the_same() {
    let note = "---\ntype: person\nlabels: [role/founder, *base]\n---\n";
    let corpus = read_against(&namespaced(), &[("ada.md", note)]);
    let message = one_finding(&corpus, "note.frontmatter-unsupported");
    assert!(message.contains("an alias"), "{message}");
    let read = only(&corpus);
    assert!(read.tags().is_empty(), "{:?}", read.tags());
    assert_eq!(read.binding().bound_by(), "none");
}

#[test]
fn a_record_field_written_twice_in_brackets_is_refused_rather_than_last_wins() {
    let note = "---\ntype: person\nfull_name: Ada\nworks-at: \"[[engine]]\"\nlegal_name: {given: Augusta, given: Ada}\n---\n";
    let corpus = read(&[("ada.md", note)]);
    let message = one_finding(&corpus, "note.frontmatter-unsupported");
    assert!(message.contains("written twice"), "{message}");
}

#[test]
fn a_frontmatter_block_that_is_not_the_grammar_is_reported_as_invalid() {
    let corpus = read(&[("ada.md", "---\nnot an entry\n---\n")]);
    let message = one_finding(&corpus, "note.frontmatter-invalid");
    assert!(message.contains("`key: value`"), "{message}");
}

#[test]
fn tags_come_from_the_declared_tag_property_and_only_where_the_type_declares_it() {
    let corpus = read(&[("inbox.md", "---\nlabels: [role/founder]\n---\n")]);
    let note = only(&corpus);
    assert_eq!(note.binding().bound_type(), Some("capture"));
    assert!(note.tags().is_empty());
    assert_eq!(ids(&corpus), ["note.undeclared-property"]);
}

#[test]
fn a_corpus_answers_in_path_order_and_its_diagnostics_in_the_total_order() {
    let stray = "---\ntype: person\nfull_name: Ada\nworks-at: \"[[engine]]\"\nstray: one\n---\n";
    let corpus = read(&[("z.md", stray), ("a.md", stray), ("m/b.md", CONFORMING)]);
    assert_eq!(paths(&corpus), ["a.md", "engine.md", "m/b.md", "society.md", "z.md"]);
    assert_eq!(located(&corpus), ["a.md", "z.md"]);
}

#[test]
fn a_folder_note_and_its_folder_answer_in_one_order_rather_than_two() {
    let stray = "---\ntype: person\nfull_name: Ada\nworks-at: \"[[engine]]\"\nstray: one\n---\n";
    let corpus = read(&[("projects/alpha.md", stray), ("projects.md", stray)]);
    assert_eq!(paths(&corpus), ["engine.md", "projects.md", "projects/alpha.md", "society.md"]);
    assert_eq!(located(&corpus), ["projects.md", "projects/alpha.md"]);
}

#[test]
fn a_typed_link_naming_no_note_is_reported_against_the_reference_itself() {
    let corpus = read(&[("ada.md", &linking("\"[[difference]]\""))]);
    let message = one_finding(&corpus, "link.dangling-typed-link");
    assert!(message.contains("`difference`"), "{message}");
    assert!(message.contains("must resolve"), "{message}");
    let location = corpus.diagnostics()[0].location.as_ref().expect("located");
    assert_eq!(location.file.display_path(), "ada.md");
    let span = location.span.expect("the reference has bytes to point at");
    assert_eq!((span.start.line, span.start.column), (4, 11));
    let edge = &only(&corpus).relationship("works-at").expect("declared")[0];
    assert_eq!(edge.target(), None);
}

#[test]
fn a_path_qualified_link_resolves_with_or_without_the_extension() {
    for reference in ["\"[[engines/analytical]]\"", "\"[[engines/analytical.md]]\""] {
        let corpus = read(&[
            ("people/ada.md", &linking(reference)),
            ("engines/analytical.md", "# The Analytical Engine\n"),
        ]);
        let reported = ids(&corpus);
        assert!(reported.is_empty(), "{reference}: {reported:?}");
        let note = corpus_note(&corpus, "people/ada.md");
        let edge = &note.relationship("works-at").expect("declared")[0];
        assert_eq!(edge.target().map(VaultPath::as_str), Some("engines/analytical.md"));
    }
}

#[test]
fn a_bare_name_two_notes_bear_is_reported_against_the_link_with_both_candidates() {
    let corpus = read(&[
        ("ada.md", &linking("\"[[daily]]\"")),
        ("2025/daily.md", "# Daily\n"),
        ("2026/daily.md", "# Daily\n"),
    ]);
    let message = one_finding(&corpus, "link.ambiguous-reference");
    assert!(message.contains("`daily`"), "{message}");
    let evidence: Vec<&str> = corpus.diagnostics()[0]
        .related
        .iter()
        .map(|related| related.location.as_ref().expect("located").file.display_path())
        .collect();
    assert_eq!(evidence, ["2025/daily.md", "2026/daily.md"]);
}

#[test]
fn two_notes_sharing_a_name_that_nothing_references_is_not_a_finding() {
    let corpus = read(&[("2025/daily.md", "# Daily\n"), ("2026/daily.md", "# Daily\n")]);
    let reported = ids(&corpus);
    assert!(reported.is_empty(), "{reported:?}");
}

#[test]
fn a_link_written_in_a_dialect_the_contract_does_not_declare_names_no_note() {
    let note = |reference: &str| format!("---\ntype: person\nworks-at: {reference}\n---\n");
    let engine = ("engines/analytical.md", "# The Analytical Engine\n");
    let resolved = read_against(&markdown(), &[("ada.md", &note("\"[The Engine](engines/analytical.md)\"")), engine]);
    assert!(ids(&resolved).is_empty(), "{:?}", ids(&resolved));
    let ada = corpus_note(&resolved, "ada.md");
    let edge = &ada.relationship("works-at").expect("declared")[0];
    assert_eq!(edge.target().map(VaultPath::as_str), Some("engines/analytical.md"));
    let crossed = read_against(&markdown(), &[("ada.md", &note("\"[[engines/analytical]]\"")), engine]);
    assert_eq!(ids(&crossed), ["link.dangling-typed-link"]);
}

#[test]
fn an_undelimited_relationship_value_is_the_reference_it_spells() {
    let corpus = read(&[("ada.md", &linking("engine"))]);
    let reported = ids(&corpus);
    assert!(reported.is_empty(), "{reported:?}");
    let edge = &only(&corpus).relationship("works-at").expect("declared")[0];
    assert_eq!(edge.target().map(VaultPath::as_str), Some("engine.md"));
}

#[test]
fn the_bodys_untyped_references_resolve_and_a_dangling_one_is_never_a_finding() {
    let note = "---\ntype: person\nfull_name: Ada\nworks-at: \"[[engine]]\"\n---\n# Ada\n\nWorked on [[society]], and later on [[difference]].\n";
    let corpus = read(&[("ada.md", note)]);
    let reported = ids(&corpus);
    assert!(reported.is_empty(), "{reported:?}");
    let read: Vec<(&str, Option<&str>)> = only(&corpus)
        .body_references()
        .iter()
        .map(|reference| (reference.written(), reference.target().map(VaultPath::as_str)))
        .collect();
    assert_eq!(read, [("[[society]]", Some("society.md")), ("[[difference]]", None)]);
}

#[test]
fn a_corpus_resolves_a_callers_reference_by_the_rule_its_own_links_obeyed() {
    let corpus = read(&[("people/ada.md", CONFORMING), ("2025/daily.md", "# Daily\n"), ("2026/daily.md", "# Daily\n")]);
    let bare = corpus.resolve("ada").expect("one note bears it");
    assert_eq!(bare.path().as_str(), "people/ada.md");
    let qualified = corpus.resolve("people/ada").expect("a path resolves");
    assert_eq!(qualified.path().as_str(), "people/ada.md");
    let missing = corpus.resolve("babbage").expect_err("no note bears it");
    assert_eq!(missing.diagnostic().id.as_str(), "link.target-not-found");
    assert!(missing.candidates().is_empty());
    let ambiguous = corpus.resolve("daily").expect_err("two notes bear it");
    assert_eq!(ambiguous.diagnostic().id.as_str(), "link.ambiguous-reference");
    assert_eq!(ambiguous.candidates().len(), 2);
    assert_eq!(ambiguous.reference(), "daily");
}

#[test]
fn a_corpus_looks_a_note_up_by_its_identity() {
    let corpus = read(&[("people/ada.md", CONFORMING)]);
    let found = corpus.note(only(&corpus).path()).expect("held");
    assert_eq!(found.name(), "ada");
    assert!(corpus.note(&VaultPath::kernel("absent.md")).is_none());
}

#[test]
fn a_corpus_whose_root_cannot_be_read_reports_it_and_holds_no_note() {
    let listing = Listing { files: Vec::new(), unreadable: vec![unreadable("", "No such file or directory")] };
    let corpus = read_corpus(listing, &full());
    assert!(corpus.notes().is_empty());
    assert_eq!(ids(&corpus), ["note.unreadable"]);
}

#[test]
fn a_corpus_clones_compares_and_formats() {
    let corpus = read(&[("ada.md", CONFORMING)]);
    let copy = corpus.clone();
    assert_eq!(copy, corpus);
    assert_ne!(corpus, read(&[]));
    assert!(format!("{corpus:?}").contains("Lovelace"));
}

#[test]
fn a_note_read_despite_its_encoding_is_reported_once_for_each_fault() {
    let read = dogtag::note::read::note(&VaultPath::kernel("marked.md"), "\u{feff}plain body\r\nmore\r\n".as_bytes(), &full());
    assert!(read.note.is_some());
    let mut ids: Vec<KernelDiagnostic> = read.diagnostics.iter().map(|d| d.id).collect();
    ids.sort_by_key(|id| format!("{id:?}"));
    assert_eq!(ids, [KernelDiagnostic::NoteByteOrderMark, KernelDiagnostic::NoteCarriageReturnLineEnding]);
}

#[test]
fn a_refused_block_reports_its_fault_and_nothing_its_type_would_have() {
    let read = dogtag::note::read::note(&VaultPath::kernel("ada.md"), b"---\ntype: person\n# Ada\n", &full());
    let note = read.note.expect("text is read");
    assert_eq!(*note.binding(), Binding::Unbound { named: None });
    assert_eq!(read.diagnostics.len(), 1);
    assert_eq!(read.diagnostics[0].id, KernelDiagnostic::NoteFrontmatterInvalid);
}

#[test]
fn every_note_s_own_findings_are_among_the_corpus_findings() {
    let corpus = read_corpus(
        listing(&[("marked.md", "\u{feff}# Marked\n".as_bytes()), ("broken.md", &[0xff, 0xfe][..])]),
        &full(),
    );
    let ids: Vec<KernelDiagnostic> = corpus.diagnostics().iter().map(|d| d.id).collect();
    assert!(ids.contains(&KernelDiagnostic::NoteByteOrderMark));
    assert!(ids.contains(&KernelDiagnostic::NoteUnreadable));
    let paths: Vec<&str> = corpus.notes().iter().map(|n| n.path().as_str()).collect();
    assert_eq!(paths, ["engine.md", "marked.md", "society.md"]);
}
