use dogtag::contract::{
    Capability,
    Contract, Dialect, LifecycleDecl, LinkDialect, Ordinary, PropertyDecl, PropertyKind, ScalarKind, Tags, TypeDecl,
};
use dogtag::diagnostic::VaultPath;
use dogtag::note::list::ListFilter;
use dogtag::note::search::{search, SearchRequest, SearchResult, SNIPPET_CONTEXT};
use dogtag::note::Listing;
use dogtag::provenance::Provenance;
use dogtag::report::search::search_text;

fn property(name: &str, kind: PropertyKind) -> PropertyDecl {
    PropertyDecl { name: name.to_owned(), kind, required: false }
}

fn type_decl(name: &str, catch_all: bool, properties: Vec<PropertyDecl>) -> TypeDecl {
    TypeDecl {
        name: name.to_owned(),
        capabilities: vec![if catch_all { Capability::CatchAll } else { Capability::IdentityBearing }],
        properties,
        relationships: Vec::new(),
        tag_namespaces: Vec::new(),
    }
}

/// A contract with an axis, tags, and an `aliases` declaration on the one
/// identity-bearing type.
fn contract() -> Contract {
    let work = type_decl(
        "work",
        false,
        vec![
            property("stage", PropertyKind::Enum { values: vec!["active".to_owned(), "done".to_owned()] }),
            property("tags", PropertyKind::List { of: ScalarKind::String }),
            property("aliases", PropertyKind::List { of: ScalarKind::String }),
        ],
    );
    Contract {
        contract_version: 2,
        dialect: Dialect { links: LinkDialect::Wikilink },
        lifecycle: LifecycleDecl::Axis { axis: "stage".to_owned(), ordinary: Ordinary::Absent },
        tags: Some(Tags { property: "tags".to_owned() }),
        flags: Vec::new(),
        types: vec![work, type_decl("capture", true, Vec::new())],
        provenance: Provenance::new(),
    }
}

/// The same contract, declaring no lifecycle axis.
fn no_axis() -> Contract {
    Contract { lifecycle: LifecycleDecl::NoAxis, ..contract() }
}

/// A contract that declares `aliases` as a single string.
fn scalar_alias() -> Contract {
    let work = type_decl("work", false, vec![property("aliases", PropertyKind::Scalar(ScalarKind::String))]);
    Contract {
        contract_version: 2,
        dialect: Dialect { links: LinkDialect::Wikilink },
        lifecycle: LifecycleDecl::NoAxis,
        tags: None,
        flags: Vec::new(),
        types: vec![work, type_decl("capture", true, Vec::new())],
        provenance: Provenance::new(),
    }
}

fn asking(query: &str) -> SearchRequest {
    SearchRequest { query: query.to_owned(), filter: ListFilter::default(), limit: 20 }
}

fn listing(notes: &[(&str, &str)]) -> Listing {
    Listing {
        files: notes.iter().map(|(path, text)| (VaultPath::kernel(path), text.as_bytes().to_vec())).collect(),
        unreadable: Vec::new(),
    }
}

fn searched_with(contract: &Contract, notes: &[(&str, &str)], request: &SearchRequest) -> SearchResult {
    search(listing(notes), contract, request)
}

fn searched(contract: &Contract, notes: &[(&str, &str)], query: &str) -> SearchResult {
    searched_with(contract, notes, &asking(query))
}

fn paths(result: &SearchResult) -> Vec<&str> {
    result.hits().iter().map(|hit| hit.path().as_str()).collect()
}

fn ids(result: &SearchResult) -> Vec<&str> {
    result.diagnostics().iter().map(|diagnostic| diagnostic.id.as_str()).collect()
}

#[test]
fn bare_terms_are_or_combined_across_body_title_path_and_aliases() {
    let notes: &[(&str, &str)] = &[
        ("prose.md", "# Elsewhere\n\nThe analytical engine.\n"),
        ("titled.md", "# The Engine\n\nnothing else\n"),
        ("engine.md", "unrelated words\n"),
        ("known-as.md", "---\ntype: work\naliases: [\"the Engine\"]\n---\nprose\n"),
        ("silent.md", "no match here\n"),
    ];
    let result = searched(&contract(), notes, "engine daily");
    assert!(result.diagnostics().is_empty());
    assert_eq!(paths(&result), ["titled.md", "engine.md", "known-as.md", "prose.md"]);
}

#[test]
fn every_hit_carries_its_identity_its_type_and_its_context() {
    let notes: &[(&str, &str)] = &[(
        "work/alpha.md",
        "---\ntype: work\nstage: active\n---\n# Alpha\n\nThe analytical engine restarted.\n",
    )];
    let result = searched(&contract(), notes, "engine");
    let hit = &result.hits()[0];
    assert_eq!(hit.path().as_str(), "work/alpha.md");
    assert_eq!(hit.bound_type(), Some("work"));
    assert_eq!(hit.snippet(), Some("# Alpha\n\nThe analytical engine restarted."));
}

#[test]
fn a_long_body_is_quoted_around_the_first_match_with_cut_edges_marked() {
    let body = format!("# T\n\n{} engine {}\n", "x".repeat(120), "y".repeat(120));
    let notes: &[(&str, &str)] = &[("long.md", &body)];
    let result = searched(&contract(), notes, "engine");
    let snippet = result.hits()[0].snippet().expect("a body match");
    assert!(snippet.starts_with('…'), "{snippet}");
    assert!(snippet.ends_with('…'), "{snippet}");
    assert!(snippet.contains("engine"));
    assert_eq!(snippet.matches('x').count(), SNIPPET_CONTEXT - 1);
    assert_eq!(snippet.matches('y').count(), SNIPPET_CONTEXT - 1);
}

#[test]
fn a_snippet_window_lands_on_character_boundaries() {
    let body = format!("{} engine {}\n", "λ".repeat(30), "λ".repeat(30));
    let notes: &[(&str, &str)] = &[("greek.md", &body)];
    let result = searched(&contract(), notes, "engine");
    let snippet = result.hits()[0].snippet().expect("a body match");
    assert!(snippet.contains("engine"), "{snippet}");
}

#[test]
fn an_identity_only_match_quotes_the_first_matched_alias_and_a_path_match_nothing() {
    let notes: &[(&str, &str)] = &[
        ("known-as.md", "---\ntype: work\naliases: [\"Difference Engine\", \"the Engine\"]\n---\nprose\n"),
        ("engine.md", "unrelated\n"),
    ];
    let result = searched(&contract(), notes, "engine");
    let by_path: Vec<(&str, Option<&str>)> = result.hits().iter().map(|hit| (hit.path().as_str(), hit.snippet())).collect();
    assert_eq!(by_path, [("known-as.md", Some("Difference Engine")), ("engine.md", None)]);
}

#[test]
fn a_title_match_is_quoted_by_the_body_window_holding_the_heading() {
    let notes: &[(&str, &str)] = &[("titled.md", "# The Engine Room\n\nprose\n")];
    let result = searched(&contract(), notes, "engine");
    assert_eq!(result.hits()[0].snippet(), Some("# The Engine Room\n\nprose"));
}

#[test]
fn a_scalar_alias_declaration_is_one_alias() {
    let notes: &[(&str, &str)] = &[("scalar.md", "---\ntype: work\naliases: the Engine\n---\nprose\n")];
    let result = searched(&scalar_alias(), notes, "engine");
    assert_eq!(result.hits()[0].snippet(), Some("the Engine"));
}

#[test]
fn an_aliases_key_on_a_type_that_does_not_declare_it_is_not_matched() {
    let notes: &[(&str, &str)] = &[("plain.md", "---\naliases: [engine]\n---\nprose\n")];
    let result = searched(&contract(), notes, "engine");
    assert!(paths(&result).is_empty());
    assert_eq!(ids(&result), ["note.undeclared-property"]);
}

#[test]
fn filters_compose_with_the_query_under_lists_own_rules() {
    let notes: &[(&str, &str)] = &[
        ("active.md", "---\ntype: work\nstage: active\ntags: [topic/x]\n---\nengine\n"),
        ("done.md", "---\ntype: work\nstage: done\n---\nengine\n"),
        ("untyped.md", "engine\n"),
    ];
    let filtered = searched_with(
        &contract(),
        notes,
        &SearchRequest {
            filter: ListFilter {
                bound_type: Some("work".into()),
                tag: Some("topic/x".into()),
                lifecycle: Some("active".into()),
                ordinary: false,
            },
            ..asking("engine")
        },
    );
    assert_eq!(paths(&filtered), ["active.md"]);
    let ordinary = searched_with(
        &contract(),
        notes,
        &SearchRequest { filter: ListFilter { ordinary: true, ..ListFilter::default() }, ..asking("engine") },
    );
    assert!(paths(&ordinary).is_empty());
}

#[test]
fn a_lifecycle_filter_against_a_declared_absence_is_refused_before_the_scan() {
    let result = searched_with(
        &no_axis(),
        &[("note.md", "engine\n")],
        &SearchRequest { filter: ListFilter { lifecycle: Some("active".into()), ..ListFilter::default() }, ..asking("engine") },
    );
    assert!(result.hits().is_empty());
    assert_eq!(result.diagnostics()[0].id.as_str(), "note.lifecycle-axis-absent");
}

#[test]
fn an_invalid_query_is_refused_before_the_scan_with_every_fault_reported() {
    let result = searched_with(
        &no_axis(),
        &[("note.md", "engine\n")],
        &SearchRequest { filter: ListFilter { ordinary: true, ..ListFilter::default() }, ..asking("\"never closed") },
    );
    assert_eq!(ids(&result), ["note.lifecycle-axis-absent", "search.invalid-query"]);
    assert!(result.hits().is_empty());
}

#[test]
fn an_empty_result_is_a_result_and_not_a_diagnostic() {
    let result = searched(&contract(), &[("note.md", "prose\n")], "absent");
    assert!(result.hits().is_empty());
    assert!(result.diagnostics().is_empty());
}

#[test]
fn the_limit_keeps_the_best_ranked_hits() {
    let notes: &[(&str, &str)] = &[("a.md", "engine\n"), ("b.md", "engine engine\n"), ("c.md", "engine\n")];
    let result = searched_with(&contract(), notes, &SearchRequest { limit: 2, ..asking("engine") });
    assert_eq!(paths(&result), ["b.md", "a.md"]);
}

#[test]
fn matching_more_of_the_query_outranks_matching_one_atom_often() {
    let notes: &[(&str, &str)] = &[("breadth.md", "engine daily\n"), ("depth.md", "engine engine engine\n")];
    let result = searched(&contract(), notes, "engine daily");
    assert_eq!(paths(&result), ["breadth.md", "depth.md"]);
}

#[test]
fn identical_runs_produce_identical_results() {
    let notes: &[(&str, &str)] = &[("a.md", "engine\n"), ("b.md", "engine\n"), ("c/d.md", "# Engine\n")];
    let first = searched(&contract(), notes, "engine");
    let second = searched(&contract(), notes, "engine");
    assert_eq!(first, second);
}

#[test]
fn a_broken_corpus_surfaces_its_diagnostics_on_every_retrieval() {
    let notes: &[(&str, &str)] = &[("engine.md", "# Engine\n"), ("broken.md", "---\ntype: nothing\n---\n")];
    let result = searched(&contract(), notes, "engine");
    assert_eq!(paths(&result), ["engine.md"]);
    assert_eq!(ids(&result), ["note.unknown-type"]);
}

#[test]
fn an_unbound_note_still_matches_and_carries_no_type() {
    let notes: &[(&str, &str)] = &[("broken.md", "---\ntype: nothing\n---\nengine\n")];
    let result = searched(&contract(), notes, "engine");
    assert_eq!(result.hits()[0].bound_type(), None);
}

#[test]
fn the_snippet_quotes_the_earliest_body_match_whichever_atom_found_it() {
    let body = format!("engine {} daily\n", "x".repeat(120));
    let notes: &[(&str, &str)] = &[("wide.md", &body)];
    let result = searched(&contract(), notes, "daily engine");
    let snippet = result.hits()[0].snippet().expect("a body match");
    assert!(snippet.starts_with("engine"), "{snippet}");
}

#[test]
fn the_fallback_alias_is_the_first_in_note_order_whichever_atom_matched_it() {
    let notes: &[(&str, &str)] =
        &[("known-as.md", "---\ntype: work\naliases: [\"Difference Engine\", \"the Machine\"]\n---\nprose\n")];
    let result = searched(&contract(), notes, "machine difference");
    assert_eq!(result.hits()[0].snippet(), Some("Difference Engine"));
}

#[test]
fn a_search_result_clones_compares_and_formats() {
    let result = searched(&contract(), &[("engine.md", "# Engine\n")], "engine");
    let copy = result.clone();
    assert_eq!(copy, result);
    assert!(format!("{result:?}").contains("engine.md"));
    assert_ne!(result, searched(&contract(), &[], "engine"));
    let request = asking("engine");
    assert_eq!(request.clone(), request);
    assert_ne!(request, asking("daily"));
    assert!(format!("{request:?}").contains("engine"));
}

#[test]
fn the_text_rendering_folds_line_breaks_and_omits_an_empty_snippet_column() {
    let notes: &[(&str, &str)] = &[("multi.md", "# A\nengine here\n"), ("engine.md", "unrelated\n")];
    let result = searched(&contract(), notes, "engine");
    assert_eq!(search_text(&result), "engine.md\tcapture\nmulti.md\tcapture\t# A engine here\n");
}
