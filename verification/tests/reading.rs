use dogtag::diagnostic::VaultPath;
use dogtag::note::read::unopened;
use dogtag::note::traverse::{nameless, read_despite_name};

#[test]
fn a_note_that_is_not_there_is_a_diagnostic_against_it_rather_than_a_failure() {
    let path = VaultPath::kernel("gone.md");
    let reported = unopened(&path, "No such file or directory (os error 2)");
    assert_eq!(reported.id.as_str(), "note.unreadable");
    let message = &reported.message;
    assert!(message.starts_with("`gone.md`"));
    assert!(!message.contains("/nonexistent"), "a machine path never reaches output: {message}");
    assert_eq!(reported.location.as_ref().map(|at| at.file.display_path()), Some("gone.md"));
}

#[test]
fn a_badly_named_entry_is_reported_only_where_a_well_named_one_would_have_been_read() {
    assert!(read_despite_name(false, false, "caf\u{fffd}.md"));
    assert!(read_despite_name(false, true, "caf\u{fffd}"));
    assert!(!read_despite_name(false, true, ".caf\u{fffd}"));
    assert!(!read_despite_name(true, false, "caf\u{fffd}.md"));
    assert!(!read_despite_name(false, false, "caf\u{fffd}.txt"));
    let reported = nameless("notes/caf\u{fffd}.md");
    assert_eq!(reported.id.as_str(), "note.unreadable");
    assert!(reported.location.is_none());
    assert_eq!(reported.message, "`notes/caf\u{fffd}.md` could not be read: its name is not valid UTF-8");
}
