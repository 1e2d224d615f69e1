use dogtag::diagnostic::VaultPath;
use dogtag::note::index::{qualified, Index, Resolution};
use dogtag::note::{Binding, Note};

fn note(path: &'static str) -> Note {
    Note {
        path: VaultPath::kernel(path),
        binding: Binding::Unbound { named: None },
        properties: Vec::new(),
        relationships: Vec::new(),
        references: Vec::new(),
        tags: Vec::new(),
        title: None,
        body: String::new(),
    }
}

fn corpus(paths: &[&'static str]) -> Vec<Note> {
    let mut paths = paths.to_vec();
    paths.sort_unstable();
    paths.into_iter().map(note).collect()
}

fn resolve(paths: &[&'static str], reference: &str) -> Resolution {
    Index::of(&corpus(paths)).resolve(reference)
}

#[test]
fn a_bare_name_resolves_when_exactly_one_note_bears_it() {
    let corpus = ["people/ada.md", "engines/analytical.md"];
    assert_eq!(resolve(&corpus, "ada"), Resolution::One(1));
    assert_eq!(resolve(&corpus, "analytical"), Resolution::One(0));
}

#[test]
fn a_bare_name_two_notes_bear_names_neither_of_them() {
    let corpus = ["2026/daily.md", "2025/daily.md", "people/ada.md"];
    assert_eq!(resolve(&corpus, "daily"), Resolution::Ambiguous(vec![0, 1]));
}

#[test]
fn a_name_no_note_bears_resolves_to_nothing() {
    assert_eq!(resolve(&["people/ada.md"], "babbage"), Resolution::Absent);
}

#[test]
fn a_path_qualified_reference_resolves_exactly_with_or_without_the_extension() {
    let corpus = ["people/ada.md", "people/babbage.md"];
    let found = (resolve(&corpus, "people/ada"), resolve(&corpus, "people/ada.md"));
    assert_eq!(found, (Resolution::One(0), Resolution::One(0)));
}

#[test]
fn a_root_level_path_is_path_qualified_by_its_extension_alone() {
    let corpus = ["welcome.md", "people/ada.md"];
    let found = (resolve(&corpus, "welcome.md"), resolve(&corpus, "welcome"));
    assert_eq!(found, (Resolution::One(1), Resolution::One(1)));
}

#[test]
fn a_name_that_itself_ends_in_the_extension_has_no_bare_name_shorthand() {
    let corpus = ["notes/x.md.md"];
    let found = (resolve(&corpus, "x.md"), resolve(&corpus, "notes/x.md.md"));
    assert_eq!(found, (Resolution::Absent, Resolution::One(0)));
}

#[test]
fn a_path_that_names_no_note_resolves_to_nothing_however_it_is_spelled() {
    let corpus = ["people/ada.md"];
    let nothing = [
        resolve(&corpus, "people/babbage"),
        resolve(&corpus, "../outside/ada"),
        resolve(&corpus, "/people/ada.md"),
        resolve(&corpus, "people/"),
    ];
    assert!(nothing.iter().all(|found| *found == Resolution::Absent), "{nothing:?}");
}

#[test]
fn a_path_qualified_reference_is_never_read_as_a_bare_name() {
    let corpus = ["people/ada.md"];
    let found = (resolve(&corpus, "ada"), resolve(&corpus, "elsewhere/ada"));
    assert_eq!(found, (Resolution::One(0), Resolution::Absent));
}

#[test]
fn a_notes_name_is_its_file_name_without_the_extension_wherever_it_sits() {
    let corpus = ["inbox.md", "a/b/deep.md"];
    let found = (resolve(&corpus, "inbox"), resolve(&corpus, "deep"));
    assert_eq!(found, (Resolution::One(1), Resolution::One(0)));
}

#[test]
fn a_reference_is_qualified_by_appending_the_extension_only_when_it_lacks_one() {
    assert_eq!(qualified("people/ada"), "people/ada.md");
    assert_eq!(qualified("people/ada.md"), "people/ada.md");
    assert_eq!(qualified("people/ada.markdown"), "people/ada.markdown.md");
}

#[test]
fn a_resolution_clones_compares_and_formats() {
    let one = Resolution::One(0);
    assert_eq!(one.clone(), one);
    assert_ne!(one, Resolution::Absent);
    assert!(format!("{:?}", Resolution::Ambiguous(vec![0, 1])).contains("Ambiguous"));
}
