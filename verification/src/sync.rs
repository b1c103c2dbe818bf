//! The driver's decisions for one sync run.
//!
//! A run is linear: resolve the starting day from the sink's most recent
//! point, discover the eligible notes, expand them into records, and submit
//! the records in one batch. Everything here is pure; the caller performs the
//! sink query before and the batch write after, and hands plain values in.

use vstd::prelude::*;
use vstd::arithmetic::div_mod::{
    lemma_fundamental_div_mod, lemma_fundamental_div_mod_converse, lemma_mod_bound,
    lemma_div_pos_is_pos, lemma_div_is_ordered, lemma_hoist_over_denominator,
};
use crate::date::{Date, spec_epoch_days, spec_midnight_epoch_secs};
use crate::discover::{
    Candidate, CandidateView, spec_eligible_notes, spec_notes_sorted, spec_in_window,
    discover_notes, lemma_all_from_multiset,
};
use crate::note::{Note, NoteView, Record, spec_expand, spec_note_records, expand};
use crate::path::spec_candidate_date;

verus! {

/// Day number (days since 1970-01-01) of the instant `t` seconds since the
/// epoch, flooring toward earlier days.
pub open spec fn spec_day_of_secs(t: int) -> int {
    t / 86400
}

pub fn day_of_secs(t: i64) -> (r: i64)
    ensures
        r == spec_day_of_secs(t as int),
        -106751991167302 <= r <= 106751991167300,
{
    if t >= 0 {
        proof {
            lemma_div_pos_is_pos(t as int, 86400);
            lemma_div_is_ordered(t as int, 0x7fff_ffff_ffff_ffffint, 86400);
            lemma_fundamental_div_mod_converse(
                0x7fff_ffff_ffff_ffffint,
                86400,
                106751991167300,
                55807,
            );
        }
        t / 86400
    } else {
        let neg: u128 = (-(t as i128)) as u128;
        let q: u128 = (neg + 86399) / 86400;
        proof {
            let ti = t as int;
            lemma_fundamental_div_mod(ti, 86400);
            lemma_mod_bound(ti, 86400);
            let qd = ti / 86400;
            let m = ti % 86400;
            lemma_fundamental_div_mod_converse(
                (neg + 86399) as int,
                86400,
                -qd,
                86399 - m,
            );
            lemma_div_is_ordered(
                (neg + 86399) as int,
                0x8000_0000_0000_0000int + 86399,
                86400,
            );
            lemma_fundamental_div_mod_converse(
                0x8000_0000_0000_0000int + 86399,
                86400,
                106751991167301,
                55807,
            );
            lemma_div_pos_is_pos((neg + 86399) as int, 86400);
        }
        -((q as i64))
    }
}

/// The starting day of the window: the day of the most recent point already
/// in the sink, or the epoch day when the sink holds none or could not
/// answer. Total: every outcome of the query resolves to a usable day.
pub open spec fn spec_resolve_start_day(latest_secs: Option<i64>) -> int {
    match latest_secs {
        Some(t) => spec_day_of_secs(t as int),
        None => 0,
    }
}

pub fn resolve_start_day(latest_secs: Option<i64>) -> (r: i64)
    ensures
        r == spec_resolve_start_day(latest_secs),
{
    match latest_secs {
        Some(t) => day_of_secs(t),
        None => 0,
    }
}

/// The upper bound of the window: the day before the one containing `now`.
/// Today is left out deliberately — it may still receive edits.
pub open spec fn spec_yesterday_day(now_secs: i64) -> int {
    spec_day_of_secs(now_secs as int) - 1
}

pub fn yesterday_day(now_secs: i64) -> (r: i64)
    ensures
        r == spec_yesterday_day(now_secs),
{
    day_of_secs(now_secs) - 1
}

/// A whole run's expansion is empty exactly when every note's own expansion
/// is.
pub proof fn lemma_expand_empty(ns: Seq<NoteView>)
    ensures
        (spec_expand(ns).len() == 0) <==> (forall|k: int|
            0 <= k < ns.len() ==> (#[trigger] spec_note_records(ns[k].date, ns[k].tags)).len()
                == 0),
    decreases ns.len(),
{
    if ns.len() > 0 {
        lemma_expand_empty(ns.drop_last());
        if spec_expand(ns).len() == 0 {
            assert forall|k: int| 0 <= k < ns.len() implies (#[trigger] spec_note_records(
                ns[k].date,
                ns[k].tags,
            )).len() == 0 by {
                if k < ns.len() - 1 {
                    assert(ns.drop_last()[k] == ns[k]);
                }
            }
        }
        if forall|k: int|
            0 <= k < ns.len() ==> (#[trigger] spec_note_records(ns[k].date, ns[k].tags)).len()
                == 0 {
            assert forall|k: int| 0 <= k < ns.drop_last().len() implies (
            #[trigger] spec_note_records(
                ns.drop_last()[k].date,
                ns.drop_last()[k].tags,
            )).len() == 0 by {
                assert(ns.drop_last()[k] == ns[k]);
            }
            assert(spec_note_records(ns.last().date, ns.last().tags).len() == 0);
        }
    }
}

/// The driver's decision for one run.
pub enum SyncPlan {
    /// Discovery found nothing eligible: the run succeeds without writing.
    NoNotes,
    /// The records to submit to the sink in one batch.
    Write(Vec<Record>),
    /// Notes existed, yet not one record came of them: surfaced as a run
    /// failure, since files that were found should have written something.
    EmptyExpansion,
}

/// Decides the run from the discovered notes: success without writing when
/// there are none, a failure when notes yielded no records at all, and
/// otherwise the full batch of records.
pub fn plan_from_notes(notes: &Vec<Note>) -> (r: SyncPlan)
    requires
        forall|i: int| 0 <= i < notes@.len() ==> (#[trigger] notes@[i])@.wf(),
    ensures
        r is NoNotes <==> notes@.len() == 0,
        r is EmptyExpansion <==> (notes@.len() > 0 && spec_expand(
            notes@.map_values(|n: Note| n@),
        ).len() == 0),
        r matches SyncPlan::Write(recs) ==> recs@.len() > 0 && recs@.map_values(|x: Record| x@)
            == spec_expand(notes@.map_values(|n: Note| n@)),
{
    if notes.len() == 0 {
        return SyncPlan::NoNotes;
    }
    let records = expand(notes);
    if records.len() == 0 {
        return SyncPlan::EmptyExpansion;
    }
    SyncPlan::Write(records)
}

/// One whole run over walked candidates: resolve the starting day from the
/// sink's answer, discover the eligible notes, and decide what to do. The
/// run's outcome is pinned against the eligibility model: `NoNotes` exactly
/// when nothing is eligible; `EmptyExpansion` exactly when eligible notes
/// exist but none has a taggable tag; otherwise the records of the eligible
/// notes in some date-ascending order.
pub fn run_core(latest_secs: Option<i64>, now_secs: i64, candidates: &Vec<Candidate>) -> (r:
    SyncPlan)
    ensures
        ({
            let el = spec_eligible_notes(
                candidates@.map_values(|c: Candidate| c@),
                spec_resolve_start_day(latest_secs),
                spec_yesterday_day(now_secs),
            );
            &&& (r is NoNotes <==> el.len() == 0)
            &&& (r is EmptyExpansion <==> (el.len() > 0 && forall|k: int|
                0 <= k < el.len() ==> (#[trigger] spec_note_records(el[k].date, el[k].tags)).len()
                    == 0))
            &&& (r matches SyncPlan::Write(recs) ==> recs@.len() > 0 && exists|ns: Seq<NoteView>|
                spec_notes_sorted(ns) && #[trigger] ns.to_multiset() == el.to_multiset()
                    && recs@.map_values(|x: Record| x@) == spec_expand(ns))
        }),
{
    broadcast use vstd::seq_lib::group_to_multiset_ensures;

    let start_day = resolve_start_day(latest_secs);
    let yesterday = yesterday_day(now_secs);
    let notes = discover_notes(candidates, start_day, yesterday);
    let ghost el = spec_eligible_notes(
        candidates@.map_values(|c: Candidate| c@),
        spec_resolve_start_day(latest_secs),
        spec_yesterday_day(now_secs),
    );
    let ghost views = notes@.map_values(|n: Note| n@);
    proof {
        assert(views.to_multiset() == el.to_multiset());
        assert(views.to_multiset().len() == views.len());
        assert(el.to_multiset().len() == el.len());
        assert(views.len() == el.len());
        lemma_expand_empty(views);
        let zero_records = |n: NoteView| spec_note_records(n.date, n.tags).len() == 0;
        if forall|k: int|
            0 <= k < views.len() ==> (#[trigger] spec_note_records(
                views[k].date,
                views[k].tags,
            )).len() == 0 {
            assert forall|k: int| 0 <= k < views.len() implies #[trigger] zero_records(
                views[k],
            ) by {}
            lemma_all_from_multiset(views, el, zero_records);
            assert forall|k: int| 0 <= k < el.len() implies (#[trigger] spec_note_records(
                el[k].date,
                el[k].tags,
            )).len() == 0 by {
                assert(zero_records(el[k]));
            }
        }
        if forall|k: int|
            0 <= k < el.len() ==> (#[trigger] spec_note_records(el[k].date, el[k].tags)).len()
                == 0 {
            assert forall|k: int| 0 <= k < el.len() implies #[trigger] zero_records(el[k]) by {}
            lemma_all_from_multiset(el, views, zero_records);
            assert forall|k: int| 0 <= k < views.len() implies (#[trigger] spec_note_records(
                views[k].date,
                views[k].tags,
            )).len() == 0 by {
                assert(zero_records(views[k]));
            }
        }
    }
    plan_from_notes(&notes)
}

/// A point written for a note dated `d` — its midnight plus any non-negative
/// offset — resolves, on the next run, to a starting day no earlier than `d`.
pub proof fn lemma_written_point_resolves_after(d: Date, offset: int)
    requires
        0 <= offset,
    ensures
        spec_day_of_secs(spec_midnight_epoch_secs(d) + offset) >= spec_epoch_days(d),
{
    lemma_hoist_over_denominator(offset, spec_epoch_days(d), 86400nat);
    lemma_div_pos_is_pos(offset, 86400);
}

/// Running the sync again with no new files and no sink changes is a no-op:
/// once the starting day is at or after every candidate's date, discovery
/// yields nothing, and the run ends successfully without writing.
pub proof fn lemma_rerun_is_noop(cs: Seq<CandidateView>, start_day: int, yesterday_day: int)
    requires
        forall|i: int|
            0 <= i < cs.len() ==> ((#[trigger] spec_candidate_date(cs[i].path)) matches Some(d)
                ==> spec_epoch_days(d) <= start_day),
    ensures
        spec_eligible_notes(cs, start_day, yesterday_day) =~= Seq::<NoteView>::empty(),
    decreases cs.len(),
{
    if cs.len() > 0 {
        assert forall|i: int| 0 <= i < cs.drop_last().len() implies ((
        #[trigger] spec_candidate_date(cs.drop_last()[i].path)) matches Some(d)
            ==> spec_epoch_days(d) <= start_day) by {
            assert(cs.drop_last()[i] == cs[i]);
        }
        lemma_rerun_is_noop(cs.drop_last(), start_day, yesterday_day);
        assert(spec_candidate_date(cs.last().path) matches Some(d) ==> !spec_in_window(
            d,
            start_day,
            yesterday_day,
        ));
    }
}

} // verus!
