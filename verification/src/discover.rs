//! File discovery: which files of the vault become notes of this run, and in
//! what order.
//!
//! The walk itself (directory traversal, file reads) happens outside; it
//! hands in each found file as a `Candidate`. A candidate becomes a note
//! exactly when its name encodes a date inside the sync window — strictly
//! after the starting day, no later than yesterday — and its text has a
//! decodable header; every other candidate is silently passed over. The
//! result is sorted ascending by date, ties in any order.

use vstd::prelude::*;
use vstd::seq_lib::to_multiset_insert;
use crate::date::{Date, spec_epoch_days, epoch_days};
use crate::front_matter::{front_matter_tags, extract};
use crate::note::{Note, NoteView};
use crate::path::{spec_candidate_date, candidate_date};

verus! {

/// One file the walk found: its path and its raw text.
pub struct Candidate {
    pub path: String,
    pub text: String,
}

pub ghost struct CandidateView {
    pub path: Seq<char>,
    pub text: Seq<char>,
}

impl View for Candidate {
    type V = CandidateView;

    open spec fn view(&self) -> CandidateView {
        CandidateView { path: self.path@, text: self.text@ }
    }
}

/// The sync window: strictly after the starting day, no later than yesterday.
pub open spec fn spec_in_window(d: Date, start_day: int, yesterday_day: int) -> bool {
    start_day < spec_epoch_days(d) <= yesterday_day
}

pub fn in_window(d: Date, start_day: i64, yesterday_day: i64) -> (r: bool)
    requires
        d.valid(),
    ensures
        r == spec_in_window(d, start_day as int, yesterday_day as int),
{
    let e = epoch_days(d);
    start_day < e && e <= yesterday_day
}

/// The note one candidate yields: its date must be encoded in the file name,
/// fall inside the window, and the text must have a decodable header. The
/// tag-count bound keeps later occurrence indexes within machine range; a
/// list longer than that cannot come out of a real file.
pub open spec fn spec_eligible_note(c: CandidateView, start_day: int, yesterday_day: int) -> Option<
    NoteView,
> {
    match spec_candidate_date(c.path) {
        Some(d) => if spec_in_window(d, start_day, yesterday_day) {
            match front_matter_tags(c.text) {
                Some(tags) => if tags.len() <= u32::MAX {
                    Some(NoteView { date: d, tags })
                } else {
                    None
                },
                None => None,
            }
        } else {
            None
        },
        None => None,
    }
}

/// The notes a candidate list yields, in list order.
pub open spec fn spec_eligible_notes(
    cs: Seq<CandidateView>,
    start_day: int,
    yesterday_day: int,
) -> Seq<NoteView>
    decreases cs.len(),
{
    if cs.len() == 0 {
        Seq::empty()
    } else {
        let rest = spec_eligible_notes(cs.drop_last(), start_day, yesterday_day);
        match spec_eligible_note(cs.last(), start_day, yesterday_day) {
            Some(n) => rest.push(n),
            None => rest,
        }
    }
}

/// Every note a candidate list yields lies inside the window and is
/// well-formed.
pub proof fn lemma_eligible_notes_in_window(
    cs: Seq<CandidateView>,
    start_day: int,
    yesterday_day: int,
)
    ensures
        forall|k: int|
            0 <= k < spec_eligible_notes(cs, start_day, yesterday_day).len() ==> {
                let n = #[trigger] spec_eligible_notes(cs, start_day, yesterday_day)[k];
                spec_in_window(n.date, start_day, yesterday_day) && n.wf()
            },
    decreases cs.len(),
{
    if cs.len() > 0 {
        lemma_eligible_notes_in_window(cs.drop_last(), start_day, yesterday_day);
        crate::path::lemma_parse_date_valid(
            crate::path::spec_base_name(cs.last().path).take(
                crate::path::spec_base_name(cs.last().path).len() - 3,
            ),
        );
        let whole = spec_eligible_notes(cs, start_day, yesterday_day);
        let rest = spec_eligible_notes(cs.drop_last(), start_day, yesterday_day);
        assert forall|k: int| 0 <= k < whole.len() implies {
            let n = #[trigger] whole[k];
            spec_in_window(n.date, start_day, yesterday_day) && n.wf()
        } by {
            if k < rest.len() {
                assert(whole[k] == rest[k]);
            }
        }
    }
}

/// Screens one path against the window, so that only files that could become
/// notes need to be read at all: the date its name encodes, if that date lies
/// inside the window.
pub fn screen_candidate(path: &str, start_day: i64, yesterday_day: i64) -> (r: Option<Date>)
    ensures
        r == (match spec_candidate_date(path@) {
            Some(d) => if spec_in_window(d, start_day as int, yesterday_day as int) {
                Some(d)
            } else {
                None::<Date>
            },
            None => None::<Date>,
        }),
{
    match candidate_date(path) {
        Some(d) => if in_window(d, start_day, yesterday_day) {
            Some(d)
        } else {
            None
        },
        None => None,
    }
}

/// Builds the note of one candidate, or `None` when the candidate is not
/// eligible: name without a well-dated stem, date outside the window, or
/// undecodable header.
pub fn note_from_candidate(c: &Candidate, start_day: i64, yesterday_day: i64) -> (r: Option<Note>)
    ensures
        r is Some <==> spec_eligible_note(c@, start_day as int, yesterday_day as int) is Some,
        r matches Some(n) ==> Some(n@) == spec_eligible_note(
            c@,
            start_day as int,
            yesterday_day as int,
        ) && n@.wf(),
{
    let d = match candidate_date(self_path(c)) {
        Some(d) => d,
        None => {
            return None;
        },
    };
    if !in_window(d, start_day, yesterday_day) {
        return None;
    }
    let tags = match extract(self_text(c)) {
        Ok(tags) => tags,
        Err(_) => {
            return None;
        },
    };
    if tags.len() as u64 <= u32::MAX as u64 {
        Some(Note { date: d, tags })
    } else {
        None
    }
}

fn self_path(c: &Candidate) -> (r: &str)
    ensures
        r@ == c@.path,
{
    c.path.as_str()
}

fn self_text(c: &Candidate) -> (r: &str)
    ensures
        r@ == c@.text,
{
    c.text.as_str()
}

/// Ascending by date; same-date notes may stand in any order.
pub open spec fn spec_notes_sorted(ns: Seq<NoteView>) -> bool {
    forall|a: int, b: int|
        0 <= a < b < ns.len() ==> spec_epoch_days(ns[a].date) <= spec_epoch_days(ns[b].date)
}

/// What holds of every element of one sequence holds of every element of any
/// rearrangement of it.
pub proof fn lemma_all_from_multiset(
    a: Seq<NoteView>,
    b: Seq<NoteView>,
    p: spec_fn(NoteView) -> bool,
)
    requires
        a.to_multiset() == b.to_multiset(),
        forall|i: int| 0 <= i < a.len() ==> p(#[trigger] a[i]),
    ensures
        forall|i: int| 0 <= i < b.len() ==> p(#[trigger] b[i]),
{
    broadcast use vstd::seq_lib::group_to_multiset_ensures;

    assert forall|i: int| 0 <= i < b.len() implies p(#[trigger] b[i]) by {
        assert(b.contains(b[i]));
        assert(a.to_multiset().count(b[i]) > 0);
        assert(a.contains(b[i]));
        let k = choose|k: int| 0 <= k < a.len() && a[k] == b[i];
        assert(p(a[k]));
    }
}

fn insert_pos(v: &Vec<Note>, i: usize, xd: i64) -> (p: usize)
    requires
        i <= v@.len(),
        forall|k: int| 0 <= k < v@.len() ==> (#[trigger] v@[k])@.wf(),
    ensures
        p <= i,
        forall|q: int| p <= q < i ==> spec_epoch_days((#[trigger] v@[q])@.date) > xd,
        p > 0 ==> spec_epoch_days(v@[p - 1]@.date) <= xd,
{
    let mut p: usize = i;
    while p > 0
        invariant
            p <= i <= v@.len(),
            forall|k: int| 0 <= k < v@.len() ==> (#[trigger] v@[k])@.wf(),
            forall|q: int| p <= q < i ==> spec_epoch_days((#[trigger] v@[q])@.date) > xd,
        decreases p,
    {
        if epoch_days(v[p - 1].date) > xd {
            p = p - 1;
        } else {
            return p;
        }
    }
    0
}

/// Sorts notes ascending by date. The result is a rearrangement of the input:
/// same notes, same multiplicities.
pub fn sort_notes_by_date(notes: Vec<Note>) -> (r: Vec<Note>)
    requires
        forall|i: int| 0 <= i < notes@.len() ==> (#[trigger] notes@[i])@.wf(),
    ensures
        spec_notes_sorted(r@.map_values(|n: Note| n@)),
        r@.map_values(|n: Note| n@).to_multiset() == notes@.map_values(|n: Note| n@).to_multiset(),
        forall|i: int| 0 <= i < r@.len() ==> (#[trigger] r@[i])@.wf(),
{
    let ghost orig = notes@.map_values(|n: Note| n@);
    let mut v = notes;
    let mut i: usize = 1;
    while i < v.len()
        invariant
            1 <= i,
            v@.len() == orig.len(),
            v@.map_values(|n: Note| n@).to_multiset() == orig.to_multiset(),
            forall|k: int| 0 <= k < v@.len() ==> (#[trigger] v@[k])@.wf(),
            forall|a: int, b: int|
                0 <= a < b < i && b < v@.len() ==> spec_epoch_days(v@[a]@.date) <= spec_epoch_days(
                    v@[b]@.date,
                ),
        decreases v@.len() - i,
    {
        let ghost v0 = v@.map_values(|n: Note| n@);
        let x = v.remove(i);
        let ghost v1 = v@.map_values(|n: Note| n@);
        proof {
            broadcast use vstd::seq_lib::group_to_multiset_ensures;

            assert(v1 =~= v0.remove(i as int));
            assert(v1.to_multiset() == v0.to_multiset().remove(v0[i as int]));
        }
        let xd = epoch_days(x.date);
        let p = insert_pos(&v, i, xd);
        v.insert(p, x);
        proof {
            broadcast use vstd::seq_lib::group_to_multiset_ensures;

            let v2 = v@.map_values(|n: Note| n@);
            assert(v2 =~= v1.insert(p as int, x@));
            to_multiset_insert(v1, p as int, x@);
            assert(v2.to_multiset() =~= v0.to_multiset());
            assert forall|a: int, b: int|
                0 <= a < b < i + 1 && b < v2.len() implies spec_epoch_days(v2[a].date)
                <= spec_epoch_days(v2[b].date) by {
                v1.insert_ensures(p as int, x@);
            }
        }
        i = i + 1;
    }
    v
}

/// Discovers this run's notes among the walked candidates: every eligible
/// candidate becomes a note (same notes, same multiplicities as the
/// eligibility rule yields, in some order), the result is sorted ascending by
/// date, and no note lies outside the window.
pub fn discover_notes(candidates: &Vec<Candidate>, start_day: i64, yesterday_day: i64) -> (r: Vec<
    Note,
>)
    ensures
        r@.map_values(|n: Note| n@).to_multiset() == spec_eligible_notes(
            candidates@.map_values(|c: Candidate| c@),
            start_day as int,
            yesterday_day as int,
        ).to_multiset(),
        spec_notes_sorted(r@.map_values(|n: Note| n@)),
        forall|i: int|
            0 <= i < r@.len() ==> spec_in_window(
                (#[trigger] r@[i])@.date,
                start_day as int,
                yesterday_day as int,
            ) && r@[i]@.wf(),
{
    let ghost cs = candidates@.map_values(|c: Candidate| c@);
    let mut found: Vec<Note> = Vec::new();
    let mut i: usize = 0;
    while i < candidates.len()
        invariant
            i <= candidates@.len(),
            cs == candidates@.map_values(|c: Candidate| c@),
            found@.map_values(|n: Note| n@) == spec_eligible_notes(
                cs.take(i as int),
                start_day as int,
                yesterday_day as int,
            ),
            forall|k: int| 0 <= k < found@.len() ==> (#[trigger] found@[k])@.wf(),
        decreases candidates@.len() - i,
    {
        proof {
            assert(cs.take(i + 1).drop_last() =~= cs.take(i as int));
            assert(cs.take(i + 1).last() == candidates@[i as int]@);
        }
        let ghost prev = found@.map_values(|n: Note| n@);
        match note_from_candidate(&candidates[i], start_day, yesterday_day) {
            Some(n) => {
                let ghost nv = n@;
                found.push(n);
                proof {
                    assert(found@.map_values(|n: Note| n@) =~= prev.push(nv));
                }
            },
            None => {},
        }
        i = i + 1;
    }
    proof {
        assert(cs.take(cs.len() as int) =~= cs);
    }
    let sorted = sort_notes_by_date(found);
    proof {
        lemma_eligible_notes_in_window(cs, start_day as int, yesterday_day as int);
        lemma_all_from_multiset(
            found@.map_values(|n: Note| n@),
            sorted@.map_values(|n: Note| n@),
            |n: NoteView|
                spec_in_window(n.date, start_day as int, yesterday_day as int) && n.wf(),
        );
        assert forall|i: int| 0 <= i < sorted@.len() implies spec_in_window(
            (#[trigger] sorted@[i])@.date,
            start_day as int,
            yesterday_day as int,
        ) && sorted@[i]@.wf() by {
            let p = |n: NoteView|
                spec_in_window(n.date, start_day as int, yesterday_day as int) && n.wf();
            assert(p(sorted@.map_values(|n: Note| n@)[i]));
        }
    }
    sorted
}

} // verus!
