use dogtag::diagnostic::VaultPath;
use dogtag::note::resolve::reference;
use dogtag::note::{Binding, Note};

fn note(path: &'static str) -> Note {
    Note {
        path: VaultPath::kernel(path),
        binding: Binding::Unbound { named: None },
        properties: Vec::new(),
        relationships: Vec::new(),
        references: Vec::new(),
        tags: Vec::new(),
        title: None,
        body: String::new(),
    }
}

#[test]
fn a_callers_reference_answers_the_note_it_names() {
    let notes = [note("people/ada.md"), note("people/babbage.md")];
    let found = reference(&notes, "ada").expect("one note bears it");
    assert_eq!(found.path().as_str(), "people/ada.md");
    let qualified = reference(&notes, "people/babbage").expect("a path resolves exactly");
    assert_eq!(qualified.path().as_str(), "people/babbage.md");
}

#[test]
fn a_callers_reference_naming_nothing_is_target_not_found_with_no_candidates() {
    let notes = [note("people/ada.md")];
    let refused = reference(&notes, "babbage").expect_err("no note bears it");
    assert_eq!(refused.reference(), "babbage");
    assert!(refused.candidates().is_empty());
    let reported = refused.diagnostic();
    assert_eq!(reported.id.as_str(), "link.target-not-found");
    assert!(reported.message.contains("`babbage`"), "{}", reported.message);
    assert!(reported.location.is_none());
}

#[test]
fn a_callers_ambiguous_reference_carries_every_candidate_as_evidence() {
    let notes = [note("2025/daily.md"), note("2026/daily.md")];
    let refused = reference(&notes, "daily").expect_err("two notes bear it");
    assert_eq!(
        refused.candidates().iter().map(VaultPath::as_str).collect::<Vec<_>>(),
        ["2025/daily.md", "2026/daily.md"]
    );
    let reported = refused.diagnostic();
    assert_eq!(reported.id.as_str(), "link.ambiguous-reference");
    assert!(reported.message.contains("2 notes"), "{}", reported.message);
    assert_eq!(reported.related.len(), 2);
    assert!(reported.related[0].message.contains("`2025/daily.md`"));
    assert!(reported.related[0].location.is_some());
}

#[test]
fn an_unresolved_reference_clones_compares_and_formats() {
    let notes = [note("a.md")];
    let refused = reference(&notes, "b").expect_err("no note bears it");
    assert_eq!(refused.clone(), refused);
    assert_ne!(refused, reference(&notes, "c").expect_err("nor this"));
    assert!(format!("{refused:?}").contains("UnresolvedReference"));
}
