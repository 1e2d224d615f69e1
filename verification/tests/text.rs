use dogtag::text::one_line;

fn is_headline(line: &str) -> bool {
    ["error[", "warning[", "info["].iter().any(|opening| line.starts_with(opening)) && line.contains("]: ")
}

fn headline_lines(rendered: &str) -> usize {
    rendered.split(['\n', '\r']).filter(|line| is_headline(line)).count()
}

#[test]
fn text_with_no_line_break_is_returned_as_it_was_given() {
    assert_eq!(one_line("a plain value"), "a plain value");
    assert_eq!(one_line(""), "");
}

#[test]
fn every_line_break_folds_to_one_space_and_nothing_else_changes() {
    assert_eq!(one_line("a\nb\rc\r\nd"), "a b c  d");
    assert_eq!(one_line("naïve | `a \\ backslash`"), "naïve | `a \\ backslash`");
}

#[test]
fn every_control_character_folds_for_the_same_reason_a_carriage_return_does() {
    assert_eq!(one_line("a\u{1b}[2Kb"), "a [2Kb");
    assert_eq!(one_line("up\u{1b}[1A"), "up [1A");
    assert_eq!(one_line("bell\u{7}tab\ttext"), "bell tab text");
    assert_eq!(one_line("csi\u{9b}2K"), "csi 2K");
    assert_eq!(one_line("naïve — a•b"), "naïve — a•b");
}

#[test]
fn a_headline_is_recognised_only_at_the_start_of_a_line() {
    assert!(is_headline("error[contract.unknown-key]: a message"));
    assert!(is_headline("warning[discovery.nested-vault]: an ancestor"));
    assert!(is_headline("info[compat.newer-format-available]: newer"));
    assert!(!is_headline("  note: error[contract.unknown-key]: quoted"));
    assert!(!is_headline("errors[not-a-severity]: an identifier"));
    assert!(!is_headline("error[unterminated"));
}

#[test]
fn headlines_are_counted_across_carriage_returns_as_well_as_newlines() {
    let forged = "error[contract.no-types]: this contract declares no type\n  help: quoting `a value\rerror[contract.unknown-key]: forged`\n";
    assert_eq!(headline_lines(forged), 2);
    assert_eq!(headline_lines(&one_line(forged)), 1);
    assert_eq!(headline_lines(""), 0);
}
