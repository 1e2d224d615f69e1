use dogtag::contract::{
    Capability,
    Contract, Dialect, FieldDecl, FieldKind, LifecycleDecl, LinkDialect, Ordinary, PropertyDecl, PropertyKind,
    RelationshipDecl, ScalarKind, Tags, TypeDecl,
};
use dogtag::diagnostic::{Diagnostic, KernelDiagnostic, Severity, SeverityCounts, VaultPath};
use dogtag::note::list::{admits, list, ListFilter, ListResult};
use dogtag::note::read::note as read_note;
use dogtag::note::{read_corpus, Corpus, Listing, Note};
use dogtag::provenance::Provenance;
use dogtag::report::capture::{capture_text, Outcome, WriteResult};
use dogtag::report::check::{check_report, check_text};
use dogtag::report::list::list_text;
use dogtag::report::show::{show_report, show_text};
use dogtag::report::{Selection, SelectionRoute, SCHEMA_VERSION};

fn property(name: &str, kind: PropertyKind) -> PropertyDecl {
    PropertyDecl { name: name.to_owned(), kind, required: false }
}

fn type_decl(name: &str, catch_all: bool) -> TypeDecl {
    TypeDecl {
        name: name.to_owned(),
        capabilities: vec![if catch_all { Capability::CatchAll } else { Capability::IdentityBearing }],
        properties: Vec::new(),
        relationships: Vec::new(),
        tag_namespaces: Vec::new(),
    }
}

fn contract_of(lifecycle: LifecycleDecl, tags: &str, first: TypeDecl) -> Contract {
    Contract {
        contract_version: 3,
        dialect: Dialect { links: LinkDialect::Wikilink },
        lifecycle,
        tags: Some(Tags { property: tags.to_owned() }),
        flags: Vec::new(),
        types: vec![first, type_decl("capture", true)],
        provenance: Provenance::new(),
    }
}

/// A person with a name, labels and a `knows` relationship, beside a
/// catch-all capture type.
fn people() -> Contract {
    let mut person = type_decl("person", false);
    person.properties = vec![
        property("name", PropertyKind::Scalar(ScalarKind::String)),
        property("labels", PropertyKind::List { of: ScalarKind::String }),
    ];
    person.relationships = vec![RelationshipDecl { predicate: "knows".to_owned(), required: false }];
    contract_of(LifecycleDecl::NoAxis, "labels", person)
}

/// The person contract, with a record and a list of records besides.
fn shown() -> Contract {
    let mut contract = people();
    let record = |name: &str| FieldDecl { name: name.to_owned(), kind: FieldKind::Scalar(ScalarKind::String), required: false };
    contract.types[0].properties.push(property("identity", PropertyKind::Record { fields: vec![record("given")] }));
    contract.types[0].properties.push(property("visits", PropertyKind::ListOfRecord { fields: vec![record("place")] }));
    contract
}

fn read(contract: &Contract, notes: &[(&str, &str)]) -> Corpus {
    let files = notes.iter().map(|(path, body)| (VaultPath::kernel(path), body.as_bytes().to_vec())).collect();
    read_corpus(Listing { files, unreadable: Vec::new() }, contract)
}

fn planted(id: KernelDiagnostic, severity: Severity, message: &str) -> Diagnostic {
    Diagnostic { id, severity, message: message.to_owned(), location: None, related: Vec::new(), help: None }
}

#[test]
fn a_clean_corpus_reports_no_findings() {
    let corpus = read(&people(), &[("people/ada.md", "---\ntype: person\nname: Ada\n---\n# Ada\n")]);
    let report = check_report(corpus, Vec::new());
    assert!(report.diagnostics().is_empty());
    assert_eq!(report.counts(), SeverityCounts::zero());
    assert!(report.by_identifier().is_empty());
    assert_eq!(check_text(&report), "no findings\n");
}

#[test]
fn findings_arrive_in_the_total_order_with_loading_diagnostics_merged() {
    let corpus = read(&people(), &[("people/ada.md", "---\ntype: person\nname: Ada\nknows: \"[[missing]]\"\n---\n")]);
    let loading = planted(KernelDiagnostic::NoteCarriageReturnLineEnding, Severity::Warning, "an ancestor");
    let report = check_report(corpus, vec![loading]);
    let ids: Vec<&str> = report.diagnostics().iter().map(|diagnostic| diagnostic.id.as_str()).collect();
    assert!(ids.contains(&"link.dangling-typed-link"), "{ids:?}");
    assert!(ids.contains(&"note.carriage-return-line-ending"), "{ids:?}");
    assert_eq!(report.counts().error, 1);
    assert_eq!(report.counts().warning, 1);
}

#[test]
fn identifier_counts_tally_and_sort_by_identifier() {
    let corpus = read(
        &people(),
        &[
            ("people/ada.md", "---\ntype: person\nname: Ada\nknows: \"[[missing]]\"\n---\n"),
            ("people/grace.md", "---\ntype: person\nname: Grace\nknows: \"[[also-missing]]\"\n---\n"),
            ("marked.md", "\u{feff}plain\n"),
        ],
    );
    let report = check_report(corpus, Vec::new());
    let tally: Vec<(&str, usize)> = report.by_identifier().iter().map(|(id, count)| (id.as_str(), *count)).collect();
    assert_eq!(tally, [("link.dangling-typed-link", 2), ("note.byte-order-mark", 1)]);
    let rendered = check_text(&report);
    assert!(rendered.starts_with("findings: 2 error(s), 1 warning(s), 0 info\n"));
    assert!(rendered.contains("  link.dangling-typed-link  2\n"), "{rendered}");
    assert!(rendered.contains("  note.byte-order-mark      1\n"), "{rendered}");
}

#[test]
fn an_info_only_report_counts_no_failures() {
    let corpus = read(&people(), &[]);
    let report = check_report(corpus, vec![planted(KernelDiagnostic::NoteUnreadable, Severity::Info, "a permanent, accepted condition")]);
    assert_eq!(report.counts().error, 0);
    assert_eq!(report.counts().warning, 0);
    assert_eq!(report.counts().info, 1);
}

#[test]
fn a_tally_orders_identifiers_whatever_order_the_findings_came_in() {
    let extra = vec![
        planted(KernelDiagnostic::SearchInvalidQuery, Severity::Error, "third"),
        planted(KernelDiagnostic::LinkTargetNotFound, Severity::Error, "first"),
        planted(KernelDiagnostic::NoteUnknownType, Severity::Error, "second"),
        planted(KernelDiagnostic::LinkTargetNotFound, Severity::Error, "first again"),
    ];
    let report = check_report(read(&people(), &[]), extra);
    let tally: Vec<(&str, usize)> = report.by_identifier().iter().map(|(id, count)| (id.as_str(), *count)).collect();
    assert_eq!(tally, [("link.target-not-found", 2), ("note.unknown-type", 1), ("search.invalid-query", 1)]);
    assert_eq!(
        check_text(&report),
        "findings: 4 error(s), 0 warning(s), 0 info\n  link.target-not-found  2\n  note.unknown-type      1\n  search.invalid-query   1\n"
    );
}

const ADA: &str = "---\ntype: person\nname: Ada Lovelace\nlabels: [role/founder, topic/computing]\nidentity: {given: Augusta}\nvisits: [{place: London}, {place: Paris}]\nknows: \"[[people/charles]]\"\n---\n# Ada Lovelace\n\nBody.\n";

fn shown_corpus() -> (Contract, Corpus) {
    let contract = shown();
    let corpus = read(
        &contract,
        &[
            ("people/ada.md", ADA),
            ("people/charles.md", "# Charles\n"),
            ("capture.md", "body"),
            ("other/ada.md", "# Another Ada\n"),
        ],
    );
    (contract, corpus)
}

#[test]
fn a_report_resolves_one_note_and_renders_every_document_model_part() {
    let (contract, corpus) = shown_corpus();
    let report = show_report(corpus, contract, "people/ada", Vec::new());
    assert_eq!(report.note().map(|note| note.path().as_str()), Some("people/ada.md"));
    assert_eq!(report.counts(), SeverityCounts::zero());
    assert!(report.declares_every_property());
    let text = show_text(&report);
    for expected in [
        "path: people/ada.md",
        "title: Ada Lovelace",
        "type: person",
        "name (string): Ada Lovelace",
        "labels (list): [role/founder, topic/computing]",
        "identity (record): {given: Augusta}",
        "visits (list): [{place: London}, {place: Paris}]",
        "knows: [[people/charles]] -> people/charles.md",
        "  - role/founder",
        "# Ada Lovelace\n\nBody.",
    ] {
        assert!(text.contains(expected), "missing {expected:?} from {text}");
    }
}

#[test]
fn missing_and_ambiguous_references_are_reports_without_notes() {
    for (reference, identifier) in [("missing", "link.target-not-found"), ("ada", "link.ambiguous-reference")] {
        let (contract, corpus) = shown_corpus();
        let report = show_report(corpus, contract, reference, Vec::new());
        assert!(report.note().is_none());
        assert_eq!(report.diagnostics().last().unwrap().id.as_str(), identifier);
        assert_eq!(show_text(&report), "");
    }
}

#[test]
fn an_untitled_empty_catch_all_renders_each_explicit_absence() {
    let (contract, corpus) = shown_corpus();
    let report = show_report(corpus, contract, "capture", Vec::new());
    let text = show_text(&report);
    assert!(text.contains("title: -\ntype: capture\nbound by: catch-all"));
    assert!(text.contains("properties:\n  -\nrelationships:\n  -\ntags:\n  -"));
    assert!(text.ends_with("body\n"));
}

#[test]
fn a_shown_note_renders_exactly_and_ends_in_one_line_break() {
    let contract = people();
    let corpus = read(&contract, &[("grace.md", "---\ntype: person\nname: Grace Hopper\n---\nprose\n")]);
    let report = show_report(corpus, contract, "grace", Vec::new());
    assert_eq!(
        show_text(&report),
        "path: grace.md\ntitle: -\ntype: person\nbound by: declaration\nproperties:\n  name (string): Grace Hopper\nrelationships:\n  -\ntags:\n  -\nbody:\nprose\n"
    );
}

fn written(outcome: Outcome) -> WriteResult {
    WriteResult { outcome, scope: vec![VaultPath::kernel("captures/a-loose-thought.md")] }
}

#[test]
fn a_capture_that_landed_names_the_note_and_how_to_undo_it() {
    let rendered = capture_text(&written(Outcome::Created { path: VaultPath::kernel("captures/a-loose-thought.md") }));
    assert!(rendered.contains("captured      captures/"), "{rendered}");
    assert!(rendered.contains("committed     no\n"), "{rendered}");
    assert!(rendered.contains("recover by    deleting captures/"), "{rendered}");
}

#[test]
fn a_preview_says_what_it_would_have_created_and_offers_no_recovery() {
    let rendered = capture_text(&written(Outcome::Previewed));
    assert!(rendered.starts_with("preview: nothing written\n"), "{rendered}");
    assert!(rendered.contains("would create   captures/"), "{rendered}");
    assert!(!rendered.contains("recover by"), "{rendered}");
}

#[test]
fn a_refusal_says_so_and_names_nothing() {
    let rendered = capture_text(&written(Outcome::Refused));
    assert_eq!(rendered, "refused: nothing written\n");
}

#[test]
fn a_committed_capture_names_the_commit_and_reverting_it() {
    let rendered = capture_text(&written(Outcome::Committed {
        path: VaultPath::kernel("captures/a-loose-thought.md"),
        commit: "4f2a9c1".to_owned(),
    }));
    assert!(rendered.contains("captured      captures/"), "{rendered}");
    assert!(rendered.contains("committed     "), "{rendered}");
    assert!(rendered.contains("recover by    reverting "), "{rendered}");
    assert!(!rendered.contains("committed     no"), "{rendered}");
    assert_eq!(
        rendered,
        "captured      captures/a-loose-thought.md\ncommitted     4f2a9c1\nrecover by    reverting 4f2a9c1\n"
    );
}

#[test]
fn the_rendering_is_a_function_of_the_result_alone() {
    let result = written(Outcome::Created { path: VaultPath::kernel("captures/twice.md") });
    assert_eq!(capture_text(&result), capture_text(&result));
}

#[test]
fn every_route_is_spelled_exactly_once_in_the_table() {
    for route in SelectionRoute::ALL {
        let expected = match route {
            SelectionRoute::Discovery => "discovery",
            SelectionRoute::FlagPath => "flag-path",
            SelectionRoute::FlagName => "flag-name",
            SelectionRoute::EnvironmentPath => "environment-path",
            SelectionRoute::EnvironmentName => "environment-name",
        };
        assert_eq!(route.as_str(), expected);
    }
    assert_eq!(SelectionRoute::ALL.len(), 5);
}

fn requested(how: SelectionRoute, given: &str) -> Selection {
    Selection::new(how, Some(given.to_owned()))
}

fn discovery() -> Selection {
    Selection::new(SelectionRoute::Discovery, None)
}

#[test]
fn a_route_names_its_argument_where_it_has_one() {
    let phrases = [
        (SelectionRoute::FlagPath, "./work", "--vault ./work"),
        (SelectionRoute::FlagName, "work", "--vault work (registered)"),
        (SelectionRoute::EnvironmentPath, "/data/work", "DOGTAG_VAULT /data/work"),
        (SelectionRoute::EnvironmentName, "work", "DOGTAG_VAULT work (registered)"),
    ];
    for (route, given, expected) in phrases {
        assert_eq!(requested(route, given).describe(), expected);
    }
    let nothing_was_requested = discovery().describe();
    assert_eq!(nothing_was_requested, "upward discovery from the current directory");
}

#[test]
fn a_route_with_no_argument_renders_its_placeholder_rather_than_a_blank() {
    let bare = Selection::new(SelectionRoute::FlagName, None);
    let asked = (bare.describe(), bare.requested(), bare.how());
    assert_eq!(asked, ("--vault <name> (registered)".to_owned(), None, SelectionRoute::FlagName));
}

#[test]
fn selections_clone_compare_and_format() {
    let selection = requested(SelectionRoute::FlagPath, "./work");
    assert_eq!(selection.clone(), selection);
    let rendered = format!("{selection:?}");
    assert!(rendered.contains("FlagPath"), "{rendered}");
    assert_ne!(selection, discovery());
}

#[test]
fn only_a_name_route_resolves_through_the_registry() {
    assert_eq!(requested(SelectionRoute::EnvironmentName, "work").registry_name(), Some("work"));
    assert_eq!(requested(SelectionRoute::FlagPath, "./work").registry_name(), None);
    assert_eq!(discovery().registry_name(), None);
}

#[test]
fn the_schema_version_is_its_own_clock() {
    assert_eq!(SCHEMA_VERSION, 3);
}

/// A `work` type whose `stage` axis is ordinary when absent.
fn staged(ordinary: Ordinary) -> Contract {
    let mut work = type_decl("work", false);
    work.properties = vec![
        property("stage", PropertyKind::Enum { values: vec!["active".to_owned(), "done".to_owned()] }),
        property("tags", PropertyKind::List { of: ScalarKind::String }),
    ];
    contract_of(LifecycleDecl::Axis { axis: "stage".to_owned(), ordinary }, "tags", work)
}

const WORK: &[(&str, &str)] = &[
    ("a.md", "---\ntype: work\nstage: active\ntags: [topic/a]\n---\n# ignored [[missing]]\n"),
    ("b.md", "---\ntype: work\ntags: [topic/b]\n---\n# ignored\n"),
    ("c.md", "capture\n"),
];

fn listing(extra: &[(&str, &str)]) -> Listing {
    let files = WORK
        .iter()
        .chain(extra.iter())
        .map(|(path, body)| (VaultPath::kernel(path), body.as_bytes().to_vec()))
        .collect();
    Listing { files, unreadable: Vec::new() }
}

fn paths(result: &ListResult) -> Vec<&str> {
    result.notes().iter().map(|note| note.path().as_str()).collect()
}

fn one_note(contract: &Contract, path: &str, body: &str) -> Note {
    read_note(&VaultPath::kernel(path), body.as_bytes(), contract).note.expect("readable note")
}

#[test]
fn enumeration_is_sorted_body_free_and_every_filter_composes() {
    let contract = staged(Ordinary::Absent);
    let all = list(listing(&[]), &contract, &ListFilter::default());
    assert_eq!(paths(&all), ["a.md", "b.md", "c.md"]);
    assert!(all.diagnostics().is_empty());
    assert_eq!(all.notes()[0].bound_type(), Some("work"));
    assert_eq!(all.notes()[0].lifecycle(), Some("active"));
    assert_eq!(all.notes()[2].bound_type(), Some("capture"));
    assert_eq!(all.notes()[2].lifecycle(), None);

    let filtered = list(
        listing(&[]),
        &contract,
        &ListFilter {
            bound_type: Some("work".into()),
            tag: Some("topic/a".into()),
            lifecycle: Some("active".into()),
            ordinary: false,
        },
    );
    assert_eq!(paths(&filtered), ["a.md"]);
    assert!(list(listing(&[]), &contract, &ListFilter { tag: Some("topic".into()), ..ListFilter::default() })
        .notes()
        .is_empty());
    for filter in [
        ListFilter { bound_type: Some("missing".into()), ..ListFilter::default() },
        ListFilter { lifecycle: Some("done".into()), ..ListFilter::default() },
    ] {
        assert!(list(listing(&[]), &contract, &filter).notes().is_empty());
    }
    assert_eq!(paths(&list(listing(&[]), &contract, &ListFilter { ordinary: true, ..ListFilter::default() })), ["b.md"]);
}

#[test]
fn named_ordinary_and_unbound_notes_take_their_declared_meanings() {
    let mut contract = staged(Ordinary::Value("active".to_owned()));
    contract.types[0].properties[0].required = true;
    assert_eq!(paths(&list(listing(&[]), &contract, &ListFilter { ordinary: true, ..ListFilter::default() })), ["a.md"]);
    let result = list(listing(&[("d.md", "---\ntype: unknown\n---\n")]), &contract, &ListFilter::default());
    assert!(result.notes().iter().any(|note| note.bound_type().is_none()));
}

#[test]
fn lifecycle_filters_refuse_a_declared_absence_and_renderings_share_the_result() {
    let mut contract = staged(Ordinary::Absent);
    contract.lifecycle = LifecycleDecl::NoAxis;
    for filter in [
        ListFilter { lifecycle: Some("active".into()), ..ListFilter::default() },
        ListFilter { ordinary: true, ..ListFilter::default() },
    ] {
        let refused = list(listing(&[]), &contract, &filter);
        assert!(refused.notes().is_empty());
        assert_eq!(refused.diagnostics()[0].id.as_str(), "note.lifecycle-axis-absent");
    }
    let result = list(listing(&[]), &contract, &ListFilter::default());
    assert_eq!(list_text(&result), "a.md\twork\nb.md\twork\nc.md\tcapture\n");

    let note = one_note(&contract, "a.md", WORK[0].1);
    assert!(admits(&note, &contract, &ListFilter::default()));
    assert!(admits(&note, &contract, &ListFilter { lifecycle: Some("active".into()), ..ListFilter::default() }));
}

#[test]
fn nonparticipants_never_match_a_lifecycle_filter() {
    let contract = staged(Ordinary::Absent);
    let capture = one_note(&contract, "c.md", WORK[2].1);
    assert!(!admits(&capture, &contract, &ListFilter { lifecycle: Some("active".into()), ..ListFilter::default() }));
    let unbound = one_note(&contract, "d.md", "---\ntype: unknown\n---\n");
    assert!(!admits(&unbound, &contract, &ListFilter { ordinary: true, ..ListFilter::default() }));
}

#[test]
fn a_listed_axis_value_takes_its_own_column_folded_onto_one_line() {
    let contract = staged(Ordinary::Absent);
    let result = list(listing(&[]), &contract, &ListFilter::default());
    assert_eq!(list_text(&result), "a.md\twork\tactive\nb.md\twork\nc.md\tcapture\n");
}
