use notes_sync::date::Date;
use notes_sync::discover::{Candidate, discover_notes, screen_candidate};
use notes_sync::note::Record;
use notes_sync::sync::{SyncPlan, day_of_secs, resolve_start_day, yesterday_day, run_core};

fn candidate(path: &str, text: &str) -> Candidate {
    Candidate {
        path: path.to_string(),
        text: text.to_string(),
    }
}

const WORK_AND_MISC: &str = "---\ntags:\n- '#work'\n- misc\n---\nfirst day\n";
const HOME: &str = "---\ntags:\n- '#home'\n---\nsecond day\n";
const ONLY_PLAIN: &str = "---\ntags:\n- misc\n- daily\n---\nnothing taggable\n";

// Midnights: 2024-01-01 = 1704067200, 2024-01-02 = 1704153600,
// 2024-01-04 = 1704326400. Day numbers: 2024-01-01 = 19723.

#[test]
fn day_of_secs_floors() {
    assert_eq!(day_of_secs(0), 0);
    assert_eq!(day_of_secs(86399), 0);
    assert_eq!(day_of_secs(86400), 1);
    assert_eq!(day_of_secs(-1), -1);
    assert_eq!(day_of_secs(-86400), -1);
    assert_eq!(day_of_secs(-86401), -2);
}

#[test]
fn resolver_uses_latest_point_day() {
    assert_eq!(resolve_start_day(Some(5 * 86400 + 3)), 5);
    assert_eq!(resolve_start_day(Some(1704153600)), 19724);
}

#[test]
fn resolver_falls_back_to_epoch() {
    // A sink that errors or answers with an empty series reaches the
    // resolver as `None`: the starting day is the epoch day, not a failure.
    assert_eq!(resolve_start_day(None), 0);
}

#[test]
fn yesterday_excludes_today() {
    assert_eq!(yesterday_day(1704326400), 19725);
    assert_eq!(yesterday_day(1704326400 + 86399), 19725);
}

#[test]
fn screening_applies_the_window() {
    // Window: (2024-01-01, 2024-01-03]
    let start = 19723;
    let yesterday = 19725;
    assert_eq!(
        screen_candidate("v/2024-01-02.md", start, yesterday),
        Some(Date { year: 2024, month: 1, day: 2 })
    );
    assert_eq!(screen_candidate("v/2024-01-01.md", start, yesterday), None);
    assert_eq!(screen_candidate("v/2023-12-31.md", start, yesterday), None);
    assert_eq!(screen_candidate("v/2024-01-04.md", start, yesterday), None);
    assert_eq!(screen_candidate("v/readme.md", start, yesterday), None);
}

#[test]
fn discovery_sorts_ascending_by_date() {
    let candidates = vec![
        candidate("v/2024-01-03.md", HOME),
        candidate("v/2024-01-01.md", WORK_AND_MISC),
        candidate("v/2024-01-02.md", HOME),
    ];
    let notes = discover_notes(&candidates, 0, 20000);
    assert_eq!(notes.len(), 3);
    assert_eq!(notes[0].date, Date { year: 2024, month: 1, day: 1 });
    assert_eq!(notes[1].date, Date { year: 2024, month: 1, day: 2 });
    assert_eq!(notes[2].date, Date { year: 2024, month: 1, day: 3 });
}

#[test]
fn discovery_skips_unparsable_and_out_of_window() {
    let candidates = vec![
        candidate("v/notes.md", HOME),
        candidate("v/2024-01-02.md", "no header here"),
        candidate("v/2024-01-02.md", HOME),
        candidate("v/.hidden/2090-01-01.md", HOME),
    ];
    // Window: (2024-01-01, 2024-01-03]; the hidden-directory file is dated
    // far outside it.
    let notes = discover_notes(&candidates, 19723, 19725);
    assert_eq!(notes.len(), 1);
    assert_eq!(notes[0].tags, vec!["#home".to_string()]);
}

fn expect_write(plan: SyncPlan) -> Vec<Record> {
    match plan {
        SyncPlan::Write(records) => records,
        SyncPlan::NoNotes => panic!("expected a write, found no notes"),
        SyncPlan::EmptyExpansion => panic!("expected a write, found an empty expansion"),
    }
}

#[test]
fn run_writes_one_record_per_taggable_tag() {
    // Vault with 2024-01-01.md (tags #work, misc) and 2024-01-02.md (#home);
    // starting point is the epoch, yesterday is 2024-01-03.
    let candidates = vec![
        candidate("vault/notes/2024-01-02.md", HOME),
        candidate("vault/notes/2024-01-01.md", WORK_AND_MISC),
    ];
    let plan = run_core(None, 1704326400, &candidates);
    let records = expect_write(plan);
    assert_eq!(records.len(), 2);
    assert_eq!(records[0].timestamp_secs, 1704067200);
    assert_eq!(records[0].tag, "#work");
    assert_eq!(records[0].weekday, "Mon");
    assert_eq!(records[0].value, 1);
    assert_eq!(records[1].timestamp_secs, 1704153600);
    assert_eq!(records[1].tag, "#home");
    assert_eq!(records[1].weekday, "Tue");
}

#[test]
fn run_with_only_todays_file_finds_no_notes() {
    // The file is dated today: the window closes at yesterday, so the run
    // succeeds with nothing to do and writes nothing.
    let candidates = vec![candidate("vault/notes/2024-01-02.md", HOME)];
    let now_midday = 1704153600 + 3600;
    let plan = run_core(None, now_midday, &candidates);
    assert!(matches!(plan, SyncPlan::NoNotes));
}

#[test]
fn run_with_no_taggable_tags_fails_as_empty_expansion() {
    let candidates = vec![candidate("vault/notes/2024-01-01.md", ONLY_PLAIN)];
    let plan = run_core(None, 1704326400, &candidates);
    assert!(matches!(plan, SyncPlan::EmptyExpansion));
}

#[test]
fn second_run_is_a_no_op() {
    let candidates = vec![
        candidate("vault/notes/2024-01-01.md", WORK_AND_MISC),
        candidate("vault/notes/2024-01-02.md", HOME),
    ];
    let first = expect_write(run_core(None, 1704326400, &candidates));
    let latest = first.iter().map(|r| r.timestamp_secs).max().unwrap();
    // Same files, same sink contents: the resolver now starts at the last
    // written day and discovery finds nothing.
    let second = run_core(Some(latest), 1704326400, &candidates);
    assert!(matches!(second, SyncPlan::NoNotes));
}
