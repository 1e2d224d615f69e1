use dogtag::contract::{
    Capability,
    Contract, Dialect, LifecycleDecl, LinkDialect, Ordinary, PropertyDecl, PropertyKind, ScalarKind, TypeDecl,
};
use dogtag::diagnostic::VaultPath;
use dogtag::note::find::{find, FindResult};
use dogtag::note::Listing;
use dogtag::provenance::Provenance;
use dogtag::report::find::find_text;

fn type_decl(name: &str, catch_all: bool, properties: Vec<PropertyDecl>) -> TypeDecl {
    TypeDecl {
        name: name.to_owned(),
        capabilities: vec![if catch_all { Capability::CatchAll } else { Capability::IdentityBearing }],
        properties,
        relationships: Vec::new(),
        tag_namespaces: Vec::new(),
    }
}

/// A `work` type with a `stage` axis and aliases, beside a catch-all.
fn contract() -> Contract {
    let stage = PropertyDecl {
        name: "stage".to_owned(),
        kind: PropertyKind::Enum { values: vec!["active".to_owned(), "done".to_owned()] },
        required: false,
    };
    let aliases =
        PropertyDecl { name: "aliases".to_owned(), kind: PropertyKind::List { of: ScalarKind::String }, required: false };
    Contract {
        contract_version: 2,
        dialect: Dialect { links: LinkDialect::Wikilink },
        lifecycle: LifecycleDecl::Axis { axis: "stage".to_owned(), ordinary: Ordinary::Absent },
        tags: None,
        flags: Vec::new(),
        types: vec![type_decl("work", false, vec![stage, aliases]), type_decl("capture", true, Vec::new())],
        provenance: Provenance::new(),
    }
}

fn found(notes: &[(&str, &str)], name: &str, wanted: Option<&str>) -> FindResult {
    let files = notes.iter().map(|(path, body)| (VaultPath::kernel(path), body.as_bytes().to_vec())).collect();
    find(Listing { files, unreadable: Vec::new() }, &contract(), name, wanted)
}

fn ids(result: &FindResult) -> Vec<&str> {
    result.diagnostics().iter().map(|diagnostic| diagnostic.id.as_str()).collect()
}

#[test]
fn an_unambiguous_name_answers_the_document_model_summary() {
    let notes: &[(&str, &str)] =
        &[("people/ada.md", "---\ntype: work\nstage: active\n---\n"), ("people/babbage.md", "# Charles\n")];
    let result = found(notes, "ada", None);
    assert!(result.diagnostics().is_empty());
    let note = result.note().expect("one note bears it");
    assert_eq!(note.path().as_str(), "people/ada.md");
    assert_eq!(note.bound_type(), Some("work"));
    assert_eq!(note.lifecycle(), Some("active"));
}

#[test]
fn the_name_match_is_case_insensitive_over_names_and_aliases() {
    let notes: &[(&str, &str)] = &[
        ("people/ada.md", "---\ntype: work\n---\n"),
        ("engines/analytical.md", "---\ntype: work\naliases: [\"The Engine\"]\n---\n"),
    ];
    let by_name = found(notes, "ADA", None);
    assert_eq!(by_name.note().map(|note| note.path().as_str()), Some("people/ada.md"));
    let by_alias = found(notes, "the engine", None);
    assert_eq!(by_alias.note().map(|note| note.path().as_str()), Some("engines/analytical.md"));
}

#[test]
fn an_ambiguous_name_is_the_same_refusal_show_raises_with_every_candidate() {
    let notes: &[(&str, &str)] = &[("2025/daily.md", "# Daily\n"), ("2026/daily.md", "# Daily\n")];
    let result = found(notes, "daily", None);
    assert!(result.note().is_none());
    assert_eq!(ids(&result), ["link.ambiguous-reference"]);
    let refused = &result.diagnostics()[0];
    assert!(refused.message.contains("`daily`"), "{}", refused.message);
    let evidence: Vec<&str> = refused
        .related
        .iter()
        .map(|related| related.location.as_ref().expect("located").file.display_path())
        .collect();
    assert_eq!(evidence, ["2025/daily.md", "2026/daily.md"]);
}

#[test]
fn an_alias_shared_with_a_name_is_ambiguity_like_any_other() {
    let notes: &[(&str, &str)] =
        &[("engine.md", "# The file named engine\n"), ("engines/analytical.md", "---\ntype: work\naliases: [Engine]\n---\n")];
    let result = found(notes, "engine", None);
    assert!(result.note().is_none());
    assert_eq!(ids(&result), ["link.ambiguous-reference"]);
    assert_eq!(result.diagnostics()[0].related.len(), 2);
}

#[test]
fn a_name_nothing_bears_is_target_not_found() {
    let result = found(&[("ada.md", "# Ada\n")], "babbage", None);
    assert!(result.note().is_none());
    assert_eq!(ids(&result), ["link.target-not-found"]);
    assert!(result.diagnostics()[0].message.contains("names no note in this vault"));
}

#[test]
fn the_type_filter_narrows_the_candidates_before_anything_is_decided() {
    let notes: &[(&str, &str)] = &[("2025/daily.md", "---\ntype: work\n---\n"), ("2026/daily.md", "# untyped\n")];
    let narrowed = found(notes, "daily", Some("work"));
    assert_eq!(narrowed.note().map(|note| note.path().as_str()), Some("2025/daily.md"));
    let excluded = found(notes, "daily", Some("person"));
    assert!(excluded.note().is_none());
    let message = &excluded.diagnostics()[0].message;
    assert_eq!(ids(&excluded), ["link.target-not-found"]);
    assert!(message.contains("of type `person`"), "{message}");
}

#[test]
fn a_path_qualified_reference_resolves_exactly_and_case_sensitively() {
    let notes: &[(&str, &str)] =
        &[("2025/daily.md", "# Daily\n"), ("2026/daily.md", "# Daily\n"), ("welcome.md", "# Welcome\n")];
    let by_path = found(notes, "2025/daily", None);
    assert_eq!(by_path.note().map(|note| note.path().as_str()), Some("2025/daily.md"));
    let by_extension = found(notes, "welcome.md", None);
    assert_eq!(by_extension.note().map(|note| note.path().as_str()), Some("welcome.md"));
    let cased = found(notes, "2025/Daily", None);
    assert!(cased.note().is_none());
    assert_eq!(ids(&cased), ["link.target-not-found"]);
}

#[test]
fn a_broken_corpus_surfaces_its_diagnostics_on_every_lookup() {
    let notes: &[(&str, &str)] = &[("ada.md", "# Ada\n"), ("broken.md", "---\ntype: nothing\n---\n")];
    let result = found(notes, "ada", None);
    assert!(result.note().is_some());
    assert_eq!(ids(&result), ["note.unknown-type"]);
}

#[test]
fn a_finding_only_prose_can_raise_surfaces_at_this_door_too() {
    let notes: &[(&str, &str)] =
        &[("ada.md", "# Ada\n\nSee [[daily]].\n"), ("2025/daily.md", "# Daily\n"), ("2026/daily.md", "# Daily\n")];
    let result = found(notes, "ada", None);
    assert!(result.note().is_some());
    assert_eq!(ids(&result), ["link.ambiguous-reference"]);
}

#[test]
fn a_find_result_clones_compares_and_formats() {
    let result = found(&[("ada.md", "# Ada\n")], "ada", None);
    let copy = result.clone();
    assert_eq!(copy, result);
    assert_ne!(result, found(&[("ada.md", "# Ada\n")], "b", None));
    assert!(format!("{result:?}").contains("ada.md"));
}

#[test]
fn renderings_share_the_result_and_a_refusal_renders_no_note() {
    let notes: &[(&str, &str)] = &[("people/ada.md", "---\ntype: work\nstage: active\n---\n")];
    let result = found(notes, "ada", None);
    assert_eq!(find_text(&result), "people/ada.md\twork\tactive\n");
    let refused = found(notes, "absent", None);
    assert_eq!(find_text(&refused), "");
    assert_eq!(find_text(&result), find_text(&result));
}
