//! Notes and their expansion into point records.
//!
//! A note is one discovered file: its calendar date and the tag list read
//! from its header. Expansion keeps only the taggable tags — those carrying
//! the `#` marker — and gives each, keeping the header's order, a zero-based
//! occurrence index; the record's timestamp is the note's midnight plus that
//! index in seconds, which keeps every (date, index) timestamp distinct.

use vstd::prelude::*;
use vstd::string::StrSliceExecFns;
use vstd::string::StringExecFns;
use crate::date::{
    Date, spec_midnight_epoch_secs, spec_weekday_label, midnight_epoch_secs, weekday_label,
};

verus! {

/// One discovered note file: its date and the tags of its header, in header
/// order.
#[derive(Debug)]
pub struct Note {
    pub date: Date,
    pub tags: Vec<String>,
}

pub ghost struct NoteView {
    pub date: Date,
    pub tags: Seq<Seq<char>>,
}

impl View for Note {
    type V = NoteView;

    open spec fn view(&self) -> NoteView {
        NoteView { date: self.date, tags: self.tags.deep_view() }
    }
}

impl NoteView {
    /// A note the expansion can handle: a real calendar date, and a tag count
    /// whose occurrence indexes fit the machine's second offsets.
    pub open spec fn wf(self) -> bool {
        self.date.valid() && self.tags.len() <= u32::MAX
    }
}

/// A tag is taggable — worth recording — exactly when it contains the `#`
/// marker character.
pub open spec fn spec_taggable(tag: Seq<char>) -> bool {
    tag.contains('#')
}

pub fn is_taggable(tag: &str) -> (r: bool)
    ensures
        r == spec_taggable(tag@),
{
    let n = tag.unicode_len();
    let mut i: usize = 0;
    while i < n
        invariant
            i <= n == tag@.len(),
            forall|j: int| 0 <= j < i ==> tag@[j] != '#',
        decreases n - i,
    {
        if tag.get_char(i) == '#' {
            return true;
        }
        i = i + 1;
    }
    false
}

/// One timestamped tag-presence fact, ready to be written to the sink.
#[derive(Debug)]
pub struct Record {
    /// Seconds since 1970-01-01T00:00:00Z: the note's midnight plus the
    /// tag's occurrence index.
    pub timestamp_secs: i64,
    /// Short name of the weekday of the note's date.
    pub weekday: String,
    /// The raw tag string.
    pub tag: String,
    /// Constant presence indicator.
    pub value: u8,
}

pub ghost struct RecordView {
    pub timestamp_secs: int,
    pub weekday: Seq<char>,
    pub tag: Seq<char>,
    pub value: u8,
}

impl View for Record {
    type V = RecordView;

    open spec fn view(&self) -> RecordView {
        RecordView {
            timestamp_secs: self.timestamp_secs as int,
            weekday: self.weekday@,
            tag: self.tag@,
            value: self.value,
        }
    }
}

/// The record a note dated `date` yields for the taggable tag `tag` at
/// occurrence index `idx`.
pub open spec fn spec_record(date: Date, idx: int, tag: Seq<char>) -> RecordView {
    RecordView {
        timestamp_secs: spec_midnight_epoch_secs(date) + idx,
        weekday: spec_weekday_label(date),
        tag: tag,
        value: 1u8,
    }
}

/// The records a note dated `date` with tag list `tags` yields: one per
/// taggable tag, in tag order, with occurrence indexes counting only the
/// taggable ones.
pub open spec fn spec_note_records(date: Date, tags: Seq<Seq<char>>) -> Seq<RecordView>
    decreases tags.len(),
{
    if tags.len() == 0 {
        Seq::empty()
    } else {
        let rest = spec_note_records(date, tags.drop_last());
        if spec_taggable(tags.last()) {
            rest.push(spec_record(date, rest.len() as int, tags.last()))
        } else {
            rest
        }
    }
}

/// The records of a whole run: each note's records, in note order.
pub open spec fn spec_expand(notes: Seq<NoteView>) -> Seq<RecordView>
    decreases notes.len(),
{
    if notes.len() == 0 {
        Seq::empty()
    } else {
        spec_expand(notes.drop_last()) + spec_note_records(notes.last().date, notes.last().tags)
    }
}

/// A note with N taggable tags yields exactly N records; the i-th record
/// carries the i-th taggable tag (in the note's own order) and the timestamp
/// midnight + i seconds, so all the note's timestamps are distinct. A note
/// whose tags are all non-taggable — and in particular one with no tags at
/// all — yields no records.
pub proof fn lemma_note_records(date: Date, tags: Seq<Seq<char>>)
    ensures
        spec_note_records(date, tags).len() == tags.filter(|t: Seq<char>| spec_taggable(t)).len(),
        forall|i: int|
            0 <= i < spec_note_records(date, tags).len() ==> #[trigger] spec_note_records(
                date,
                tags,
            )[i] == spec_record(date, i, tags.filter(|t: Seq<char>| spec_taggable(t))[i]),
        forall|i: int, j: int|
            0 <= i < j < spec_note_records(date, tags).len() ==> spec_note_records(date, tags)[i]
                .timestamp_secs != spec_note_records(date, tags)[j].timestamp_secs,
        (forall|i: int| 0 <= i < tags.len() ==> !spec_taggable(#[trigger] tags[i]))
            ==> spec_note_records(date, tags).len() == 0,
        tags.len() == 0 ==> spec_note_records(date, tags).len() == 0,
    decreases tags.len(),
{
    reveal(Seq::filter);
    if tags.len() > 0 {
        lemma_note_records(date, tags.drop_last());
    }
}

/// Expands discovered notes into the point records of the run, note by note.
pub fn expand(notes: &Vec<Note>) -> (r: Vec<Record>)
    requires
        forall|i: int| 0 <= i < notes@.len() ==> (#[trigger] notes@[i])@.wf(),
    ensures
        r@.map_values(|x: Record| x@) == spec_expand(notes@.map_values(|n: Note| n@)),
{
    let ghost all = notes@.map_values(|n: Note| n@);
    let mut out: Vec<Record> = Vec::new();
    let mut i: usize = 0;
    while i < notes.len()
        invariant
            i <= notes@.len(),
            all == notes@.map_values(|n: Note| n@),
            forall|k: int| 0 <= k < notes@.len() ==> (#[trigger] notes@[k])@.wf(),
            out@.map_values(|x: Record| x@) == spec_expand(all.take(i as int)),
        decreases notes@.len() - i,
    {
        let note = &notes[i];
        let midnight = midnight_epoch_secs(note.date);
        let wd = weekday_label(note.date);
        let ghost tags = note@.tags;
        let mut j: usize = 0;
        let mut k: u32 = 0;
        while j < note.tags.len()
            invariant
                j <= note.tags@.len() == tags.len(),
                tags == note@.tags,
                note@.wf(),
                midnight == spec_midnight_epoch_secs(note.date),
                -721020 * 86400 <= midnight <= 3660400 * 86400,
                wd@ == spec_weekday_label(note.date),
                k == spec_note_records(note.date, tags.take(j as int)).len(),
                k <= j,
                out@.map_values(|x: Record| x@) == spec_expand(all.take(i as int))
                    + spec_note_records(note.date, tags.take(j as int)),
            decreases note.tags@.len() - j,
        {
            proof {
                assert(tags.take(j + 1).drop_last() =~= tags.take(j as int));
                assert(tags.take(j + 1).last() == note.tags@[j as int].deep_view());
            }
            let ghost prev = out@.map_values(|x: Record| x@);
            let tag = &note.tags[j];
            if is_taggable(tag.as_str()) {
                let rec = Record {
                    timestamp_secs: midnight + k as i64,
                    weekday: String::from_str(wd),
                    tag: tag.clone(),
                    value: 1,
                };
                let ghost grec = rec@;
                out.push(rec);
                proof {
                    assert(out@.map_values(|x: Record| x@) =~= prev.push(grec));
                    assert(prev.push(grec) =~= spec_expand(all.take(i as int))
                        + spec_note_records(note.date, tags.take(j as int)).push(grec));
                }
                k = k + 1;
            }
            proof {
                assert(out@.map_values(|x: Record| x@) =~= spec_expand(all.take(i as int))
                    + spec_note_records(note.date, tags.take(j + 1)));
            }
            j = j + 1;
        }
        proof {
            assert(tags.take(tags.len() as int) =~= tags);
            assert(all.take(i + 1).drop_last() =~= all.take(i as int));
            assert(all.take(i + 1).last() == note@);
        }
        i = i + 1;
    }
    proof {
        assert(all.take(all.len() as int) =~= all);
    }
    out
}

} // verus!
