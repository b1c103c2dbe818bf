use notes_sync::date::{Date, epoch_days, midnight_epoch_secs, weekday_label, days_in_month};
use notes_sync::path::{parse_date, candidate_date, is_hidden_name, has_note_extension};

fn date(year: u32, month: u32, day: u32) -> Date {
    Date { year, month, day }
}

#[test]
fn epoch_days_at_epoch() {
    assert_eq!(epoch_days(date(1970, 1, 1)), 0);
    assert_eq!(epoch_days(date(1970, 1, 2)), 1);
    assert_eq!(epoch_days(date(1969, 12, 31)), -1);
}

#[test]
fn epoch_days_modern() {
    assert_eq!(epoch_days(date(2024, 1, 1)), 19723);
    assert_eq!(epoch_days(date(2024, 1, 3)), 19725);
}

#[test]
fn midnight_seconds() {
    assert_eq!(midnight_epoch_secs(date(1970, 1, 1)), 0);
    assert_eq!(midnight_epoch_secs(date(2024, 1, 1)), 1704067200);
    assert_eq!(midnight_epoch_secs(date(2024, 1, 2)), 1704153600);
}

#[test]
fn weekday_labels() {
    assert_eq!(weekday_label(date(1970, 1, 1)), "Thu");
    assert_eq!(weekday_label(date(2000, 1, 1)), "Sat");
    assert_eq!(weekday_label(date(2024, 1, 1)), "Mon");
    assert_eq!(weekday_label(date(2024, 1, 2)), "Tue");
    assert_eq!(weekday_label(date(2024, 1, 7)), "Sun");
}

#[test]
fn month_lengths_and_leap_years() {
    assert_eq!(days_in_month(2024, 2), 29);
    assert_eq!(days_in_month(2023, 2), 28);
    assert_eq!(days_in_month(1900, 2), 28);
    assert_eq!(days_in_month(2000, 2), 29);
    assert_eq!(days_in_month(2024, 4), 30);
    assert_eq!(days_in_month(2024, 12), 31);
}

#[test]
fn parse_date_accepts_valid_stems() {
    assert_eq!(parse_date("2024-01-13"), Some(date(2024, 1, 13)));
    assert_eq!(parse_date("2024-02-29"), Some(date(2024, 2, 29)));
    assert_eq!(parse_date("0001-01-01"), Some(date(1, 1, 1)));
}

#[test]
fn parse_date_rejects_bad_stems() {
    assert_eq!(parse_date("2023-02-29"), None);
    assert_eq!(parse_date("2024-13-01"), None);
    assert_eq!(parse_date("2024-00-10"), None);
    assert_eq!(parse_date("2024-01-00"), None);
    assert_eq!(parse_date("2024-1-01"), None);
    assert_eq!(parse_date("24-01-01"), None);
    assert_eq!(parse_date("2024-01-013"), None);
    assert_eq!(parse_date(""), None);
    assert_eq!(parse_date("hello toad"), None);
}

#[test]
fn candidate_date_reads_the_file_name() {
    assert_eq!(
        candidate_date("vault/notes/2024-01-01.md"),
        Some(date(2024, 1, 1))
    );
    assert_eq!(candidate_date("2024-01-02.md"), Some(date(2024, 1, 2)));
    assert_eq!(candidate_date("vault/notes/readme.md"), None);
    assert_eq!(candidate_date("vault/notes/2024-01-01.txt"), None);
    assert_eq!(candidate_date("vault/notes/.2024-01-01.md"), None);
    assert_eq!(candidate_date("vault/2024-01-01/notes.md"), None);
    assert_eq!(candidate_date(""), None);
}

#[test]
fn hidden_names() {
    assert!(is_hidden_name(".git"));
    assert!(is_hidden_name(".2024-01-01.md"));
    assert!(!is_hidden_name("2024-01-01.md"));
    assert!(!is_hidden_name(""));
}

#[test]
fn note_extension() {
    assert!(has_note_extension("2024-01-01.md"));
    assert!(has_note_extension("a.md"));
    assert!(has_note_extension(".md"));
    assert!(!has_note_extension("note.txt"));
    assert!(!has_note_extension("md"));
}
