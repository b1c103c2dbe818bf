use notes_sync::date::Date;
use notes_sync::front_matter::extract;
use notes_sync::note::{Note, expand, is_taggable};

fn date(year: u32, month: u32, day: u32) -> Date {
    Date { year, month, day }
}

fn tags(list: &[&str]) -> Vec<String> {
    list.iter().map(|s| s.to_string()).collect()
}

#[test]
fn taggable_means_marker_character() {
    assert!(is_taggable("#work"));
    assert!(is_taggable("work#"));
    assert!(is_taggable("wo#rk"));
    assert!(!is_taggable("misc"));
    assert!(!is_taggable(""));
}

#[test]
fn expansion_assigns_consecutive_offsets() {
    let notes = vec![Note {
        date: date(2024, 1, 1),
        tags: tags(&["#a", "skip", "#b", "#c"]),
    }];
    let records = expand(&notes);
    assert_eq!(records.len(), 3);
    assert_eq!(records[0].timestamp_secs, 1704067200);
    assert_eq!(records[1].timestamp_secs, 1704067201);
    assert_eq!(records[2].timestamp_secs, 1704067202);
    assert_eq!(records[0].tag, "#a");
    assert_eq!(records[1].tag, "#b");
    assert_eq!(records[2].tag, "#c");
    for r in &records {
        assert_eq!(r.weekday, "Mon");
        assert_eq!(r.value, 1);
    }
    assert!(records[0].timestamp_secs != records[1].timestamp_secs);
    assert!(records[1].timestamp_secs != records[2].timestamp_secs);
}

#[test]
fn expansion_restarts_offsets_per_note() {
    let notes = vec![
        Note {
            date: date(2024, 1, 1),
            tags: tags(&["#a", "#b"]),
        },
        Note {
            date: date(2024, 1, 2),
            tags: tags(&["none", "#c"]),
        },
    ];
    let records = expand(&notes);
    assert_eq!(records.len(), 3);
    assert_eq!(records[0].timestamp_secs, 1704067200);
    assert_eq!(records[1].timestamp_secs, 1704067201);
    assert_eq!(records[2].timestamp_secs, 1704153600);
    assert_eq!(records[2].tag, "#c");
    assert_eq!(records[2].weekday, "Tue");
}

#[test]
fn non_taggable_tags_yield_no_records() {
    let notes = vec![Note {
        date: date(2024, 1, 1),
        tags: tags(&["misc", "daily"]),
    }];
    assert_eq!(expand(&notes).len(), 0);
}

#[test]
fn note_without_tags_yields_no_records() {
    let notes = vec![Note {
        date: date(2024, 1, 1),
        tags: Vec::new(),
    }];
    assert_eq!(expand(&notes).len(), 0);
}

#[test]
fn extract_reads_header_tags() {
    let text = "---\ntags:\n- '#work'\n- misc\n---\nbody text\n";
    let tags = extract(text).unwrap();
    assert_eq!(tags, vec!["#work".to_string(), "misc".to_string()]);
}

#[test]
fn extract_header_without_tags_is_empty_not_error() {
    let text = "---\ntitle: 'a day'\n---\nbody\n";
    let tags = extract(text).unwrap();
    assert_eq!(tags.len(), 0);
}

#[test]
fn extract_without_header_is_an_error() {
    assert!(extract("plain body, no header at all\n").is_err());
    assert!(extract("").is_err());
}

#[test]
fn extract_with_malformed_tags_is_an_error() {
    assert!(extract("---\ntags: 7\n---\nbody\n").is_err());
    assert!(extract("---\ntags:\n- 3\n- '#ok'\n---\n").is_err());
}
