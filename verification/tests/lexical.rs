use dogtag::contract::ScalarKind;
use dogtag::note::lexical::{days_in, leap, member, scalar};

fn accepted(kind: ScalarKind, values: &[&str]) {
    for value in values {
        assert!(scalar(kind, value), "{kind:?} must accept `{value}`");
    }
}

fn refused(kind: ScalarKind, values: &[&str]) {
    for value in values {
        assert!(!scalar(kind, value), "{kind:?} must refuse `{value}`");
    }
}

#[test]
fn a_string_accepts_any_scalars_bytes_as_they_were_written() {
    accepted(ScalarKind::String, &["", "NO", "true", "1", "  spaced  ", "[[a link]]"]);
}

#[test]
fn an_integer_is_digits_and_a_float_is_never_one() {
    accepted(ScalarKind::Integer, &["0", "1", "-1", "+1", "0042"]);
    refused(ScalarKind::Integer, &["", "1.0", "1e3", "1_000", "0x10", " 1", "1 ", "one", "-"]);
}

#[test]
fn a_float_carries_a_fractional_part_or_an_exponent_and_an_integer_is_neither() {
    accepted(ScalarKind::Float, &["1.0", "-1.5", "+0.5", "1e3", "1.5e-3", "1E+3"]);
    refused(ScalarKind::Float, &["1", "", ".5", "1.", "1.0.0", "1e", "1e1.5", "e3", "one"]);
}

#[test]
fn a_boolean_is_written_out_and_yamls_own_spellings_are_not_it() {
    accepted(ScalarKind::Boolean, &["true", "false"]);
    refused(ScalarKind::Boolean, &["NO", "no", "yes", "True", "TRUE", "1", "0", ""]);
}

#[test]
fn a_date_is_an_rfc_3339_full_date_and_nothing_that_merely_looks_like_one() {
    accepted(ScalarKind::Date, &["2026-08-03", "2000-02-29", "2024-02-29"]);
    refused(
        ScalarKind::Date,
        &[
            "2026-8-3",
            "2026-08-03T00:00:00Z",
            "26-08-03",
            "2026-13-01",
            "2026-00-01",
            "2026-02-30",
            "2023-02-29",
            "1900-02-29",
            "2026-04-31",
            "2026-01-00",
            "2026-01",
            "2026",
            "",
        ],
    );
}

#[test]
fn a_datetime_carries_a_mandatory_offset_and_a_local_time_is_not_one() {
    accepted(
        ScalarKind::DateTime,
        &[
            "2026-07-31T09:15:00-04:00",
            "2026-07-31T09:15:00Z",
            "2026-07-31t09:15:00z",
            "2026-07-31T09:15:00.123456Z",
            "2026-12-31T23:59:60Z",
            "2026-07-31T09:15:00+00:00",
        ],
    );
    refused(
        ScalarKind::DateTime,
        &[
            "2026-07-31T09:15:00",
            "2026-07-31 09:15:00Z",
            "2026-07-31T09:15Z",
            "2026-07-31T24:00:00Z",
            "2026-07-31T09:60:00Z",
            "2026-07-31T09:15:61Z",
            "2026-07-31T09:15:00.Z",
            "2026-07-31T09:15:00-4:00",
            "2026-07-31T09:15:00-24:00",
            "2026-07-31T09:15:00-04:60",
            "2026-07-31T09:15:00-0400",
            "2026-07-31T0915Z",
            "2026-07-31T0915-04:00",
            "2026-07-31T9:15:00Z",
            "2026-07-31T09:1:00Z",
            "2026-07-31T09:15:0Z",
            "2026-07-31T09:15:00-04:0",
            "2026-02-30T09:15:00Z",
            "2026-07-31",
        ],
    );
}

#[test]
fn an_enum_value_is_a_member_and_membership_is_exact() {
    let values = ["draft".to_owned(), "archived".to_owned()];
    let held = (member(&values, "draft"), member(&values, "archived"));
    assert_eq!(held, (true, true));
    let outside = (member(&values, "Draft"), member(&values, "published"), member(&[], "draft"));
    assert_eq!(outside, (false, false, false));
}

#[test]
fn a_leap_year_is_the_gregorian_rule_and_not_merely_every_fourth_year() {
    let leaps = (leap(2024), leap(2000), leap(2023), leap(1900));
    assert_eq!(leaps, (true, true, false, false));
    let february = (days_in(2024, 2), days_in(2023, 2), days_in(2023, 12));
    assert_eq!(february, (29, 28, 31));
}
