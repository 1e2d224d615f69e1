use dogtag::diagnostic::{FileRef, Location, VaultPath};
use dogtag::note::traverse::{hidden_directory, is_note, join_segment, spell, traverse, unreadable};

fn paths(found: &[VaultPath]) -> Vec<&str> {
    found.iter().map(VaultPath::as_str).collect()
}

#[test]
fn a_directory_that_cannot_be_read_is_reported_and_never_aborts_the_walk() {
    let traversal = traverse(&[], vec![unreadable("", "No such file or directory")]);
    assert!(traversal.notes().is_empty());
    let ids: Vec<&str> = traversal.diagnostics().iter().map(|d| d.id.as_str()).collect();
    assert_eq!(ids, ["note.unreadable"]);
    let reported = &traversal.diagnostics()[0];
    assert!(reported.message.contains("the directory `.`"));
    assert_eq!(reported.location, Some(Location::whole_file(FileRef::InVault(VaultPath::kernel("")))));
}

#[test]
fn a_directory_spells_itself_by_its_vault_relative_path_and_the_root_as_a_dot() {
    assert_eq!(spell(""), ".");
    assert_eq!(spell("people/deep"), "people/deep");
    assert_eq!(join_segment("", "people"), "people");
    assert_eq!(join_segment("people", "ada.md"), "people/ada.md");
}

#[test]
fn the_membership_helpers_answer_for_the_shapes_a_walk_meets() {
    assert!(hidden_directory(".git"));
    assert!(hidden_directory("notes/.trash"));
    assert!(!hidden_directory("notes"));
    assert!(!hidden_directory(""));
    assert!(is_note("a.md"));
    assert!(!is_note("a.markdown"));
    assert!(!is_note("a"));
}

#[test]
fn notes_come_out_in_path_order_whatever_order_the_files_were_listed_in() {
    let listed = [
        VaultPath::kernel("z.md"),
        VaultPath::kernel("projects/alpha.md"),
        VaultPath::kernel("projects.md"),
        VaultPath::kernel("a.md"),
        VaultPath::kernel("picture.png"),
        VaultPath::kernel(".git/config.md"),
        VaultPath::kernel("notes/.hidden.md"),
    ];
    let traversal = traverse(&listed, Vec::new());
    assert_eq!(paths(traversal.notes()), ["a.md", "notes/.hidden.md", "projects.md", "projects/alpha.md", "z.md"]);
    assert!(traversal.diagnostics().is_empty());
}
