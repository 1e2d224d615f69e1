use dogtag::diagnostic::{FileRef, KernelDiagnostic, Location, Position, Related, Severity, Span, VaultPath};
use dogtag::note::findings::Findings;

fn findings() -> Findings {
    Findings::new(&VaultPath::kernel("people/ada.md"), "---\ntype: person\n---\n")
}

#[test]
fn a_span_becomes_a_line_and_a_column_in_the_note_itself() {
    let findings = findings();
    assert_eq!(
        findings.at(4..8),
        Location::in_file(
            FileRef::InVault(VaultPath::kernel("people/ada.md")),
            Span::between(Position::new(2, 1, 4), Position::new(2, 5, 8))
        )
    );
}

#[test]
fn a_finding_about_an_absence_points_at_the_note_and_carries_the_declaration() {
    let mut findings = findings();
    findings.absent(
        KernelDiagnostic::NoteMissingRequiredProperty,
        "the type `person` requires `full_name`".to_owned(),
        Related::new("declared here".to_owned()),
    );
    let reported = findings.finish();
    assert_eq!(reported[0].severity, Severity::Error);
    assert_eq!(
        reported[0].location,
        Some(Location::whole_file(FileRef::InVault(VaultPath::kernel("people/ada.md"))))
    );
    assert_eq!(reported[0].related[0].message, "declared here");
}

#[test]
fn findings_come_out_in_the_total_order_with_absences_before_spans() {
    let mut findings = findings();
    findings.spanned(KernelDiagnostic::NoteUndeclaredProperty, "spanned".to_owned(), 4..8);
    findings.absent(
        KernelDiagnostic::NoteMissingRequiredProperty,
        "absent".to_owned(),
        Related::new("declared here".to_owned()),
    );
    let reported = findings.finish();
    let messages: Vec<&str> = reported.iter().map(|diagnostic| diagnostic.message.as_str()).collect();
    assert_eq!(messages, ["absent", "spanned"]);
}

#[test]
fn a_position_counts_characters_rather_than_bytes_on_its_line() {
    let findings = Findings::new(&VaultPath::kernel("a.md"), "é\nnaïve x");
    let at = findings.position(10);
    assert_eq!((at.line, at.column, at.offset), (2, 7, 10));
}
