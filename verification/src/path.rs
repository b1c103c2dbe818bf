//! Screening of file paths: hidden-name and extension predicates, and the
//! fixed `YYYY-MM-DD` date encoded in a note file's name.
//!
//! A candidate path qualifies when its base name ends in the note suffix and
//! the rest of the base name is a valid calendar date; everything else is
//! silently passed over by the callers.

use vstd::prelude::*;
use vstd::string::StrSliceExecFns;
use crate::date::{Date, spec_days_in_month, days_in_month};

verus! {

pub open spec fn spec_is_digit(c: char) -> bool {
    '0' as u32 <= c as u32 && c as u32 <= '9' as u32
}

pub open spec fn spec_digit_val(c: char) -> int {
    c as u32 - '0' as u32
}

fn digit_val(c: char) -> (r: Option<u32>)
    ensures
        r matches Some(v) ==> spec_is_digit(c) && v == spec_digit_val(c),
        r is None ==> !spec_is_digit(c),
{
    let n = c as u32;
    if '0' as u32 <= n && n <= '9' as u32 {
        Some(n - '0' as u32)
    } else {
        None
    }
}

/// The date written in a note's file stem: exactly `YYYY-MM-DD`, and a real
/// day of the calendar.
pub open spec fn spec_parse_date(s: Seq<char>) -> Option<Date> {
    if s.len() == 10 && spec_is_digit(s[0]) && spec_is_digit(s[1]) && spec_is_digit(s[2])
        && spec_is_digit(s[3]) && s[4] == '-' && spec_is_digit(s[5]) && spec_is_digit(s[6])
        && s[7] == '-' && spec_is_digit(s[8]) && spec_is_digit(s[9]) {
        let y = spec_digit_val(s[0]) * 1000 + spec_digit_val(s[1]) * 100 + spec_digit_val(s[2])
            * 10 + spec_digit_val(s[3]);
        let m = spec_digit_val(s[5]) * 10 + spec_digit_val(s[6]);
        let d = spec_digit_val(s[8]) * 10 + spec_digit_val(s[9]);
        if 1 <= m <= 12 && 1 <= d <= spec_days_in_month(y, m) {
            Some(Date { year: y as u32, month: m as u32, day: d as u32 })
        } else {
            None
        }
    } else {
        None
    }
}

pub proof fn lemma_parse_date_valid(s: Seq<char>)
    ensures
        spec_parse_date(s) matches Some(d) ==> d.valid(),
{
}

/// Parses a file stem as a `YYYY-MM-DD` date; any other shape is `None`.
pub fn parse_date(s: &str) -> (r: Option<Date>)
    ensures
        r == spec_parse_date(s@),
{
    if s.unicode_len() != 10 {
        return None;
    }
    let d0 = digit_val(s.get_char(0));
    let d1 = digit_val(s.get_char(1));
    let d2 = digit_val(s.get_char(2));
    let d3 = digit_val(s.get_char(3));
    let d5 = digit_val(s.get_char(5));
    let d6 = digit_val(s.get_char(6));
    let d8 = digit_val(s.get_char(8));
    let d9 = digit_val(s.get_char(9));
    if s.get_char(4) != '-' || s.get_char(7) != '-' {
        return None;
    }
    match (d0, d1, d2, d3, d5, d6, d8, d9) {
        (Some(y0), Some(y1), Some(y2), Some(y3), Some(m0), Some(m1), Some(a0), Some(a1)) => {
            let y = y0 * 1000 + y1 * 100 + y2 * 10 + y3;
            let m = m0 * 10 + m1;
            let d = a0 * 10 + a1;
            if 1 <= m && m <= 12 && 1 <= d && d <= days_in_month(y, m) {
                Some(Date { year: y, month: m, day: d })
            } else {
                None
            }
        },
        _ => None,
    }
}

/// A name whose first character is the hidden-file marker is pruned from
/// traversal entirely.
pub open spec fn spec_is_hidden_name(name: Seq<char>) -> bool {
    name.len() > 0 && name[0] == '.'
}

pub fn is_hidden_name(name: &str) -> (r: bool)
    ensures
        r == spec_is_hidden_name(name@),
{
    if s_len(name) == 0 {
        false
    } else {
        name.get_char(0) == '.'
    }
}

/// Only names ending in the note file suffix `.md` are candidates.
pub open spec fn spec_has_note_extension(name: Seq<char>) -> bool {
    name.len() >= 3 && name[name.len() - 3] == '.' && name[name.len() - 2] == 'm' && name[
        name.len() - 1
    ] == 'd'
}

pub fn has_note_extension(name: &str) -> (r: bool)
    ensures
        r == spec_has_note_extension(name@),
{
    let n = s_len(name);
    if n < 3 {
        false
    } else {
        name.get_char(n - 3) == '.' && name.get_char(n - 2) == 'm' && name.get_char(n - 1) == 'd'
    }
}

fn s_len(s: &str) -> (r: usize)
    ensures
        r == s@.len(),
{
    s.unicode_len()
}

/// Index where the base name of `path` starts: just after the last `/`, or 0
/// when the path has no separator.
pub open spec fn spec_base_start(path: Seq<char>) -> int
    decreases path.len(),
{
    if path.len() == 0 {
        0
    } else if path[path.len() - 1] == '/' {
        path.len() as int
    } else {
        spec_base_start(path.drop_last())
    }
}

/// The base name of `path`: everything after the last separator.
pub open spec fn spec_base_name(path: Seq<char>) -> Seq<char> {
    path.subrange(spec_base_start(path), path.len() as int)
}

fn base_start(path: &str) -> (r: usize)
    ensures
        r == spec_base_start(path@),
        r <= path@.len(),
{
    let n = s_len(path);
    proof {
        assert(path@.take(n as int) =~= path@);
    }
    let mut i: usize = n;
    while i > 0
        invariant
            0 <= i <= n == path@.len(),
            spec_base_start(path@) == spec_base_start(path@.take(i as int)),
        decreases i,
    {
        if path.get_char(i - 1) == '/' {
            proof {
                assert(path@.take(i as int)[i - 1] == '/');
                assert(spec_base_start(path@.take(i as int)) == i);
            }
            return i;
        }
        proof {
            assert(path@.take(i as int).drop_last() =~= path@.take(i - 1));
            assert(path@.take(i as int)[i - 1] != '/');
        }
        i = i - 1;
    }
    proof {
        assert(path@.take(0) =~= Seq::<char>::empty());
    }
    0
}

/// The date a candidate path encodes: the base name must carry the note
/// suffix, and its stem must be a valid `YYYY-MM-DD` date.
pub open spec fn spec_candidate_date(path: Seq<char>) -> Option<Date> {
    let base = spec_base_name(path);
    if spec_has_note_extension(base) {
        spec_parse_date(base.take(base.len() - 3))
    } else {
        None
    }
}

/// Reads the date encoded in a candidate path's file name, or `None` when the
/// name does not carry the note suffix or does not encode a valid date.
pub fn candidate_date(path: &str) -> (r: Option<Date>)
    ensures
        r == spec_candidate_date(path@),
        r matches Some(d) ==> d.valid(),
{
    proof {
        lemma_parse_date_valid(spec_base_name(path@).take(
            spec_base_name(path@).len() - 3,
        ));
    }
    let n = s_len(path);
    let start = base_start(path);
    let base = path.substring_char(start, n);
    if !has_note_extension(base) {
        return None;
    }
    let stem = path.substring_char(start, n - 3);
    proof {
        assert(stem@ =~= spec_base_name(path@).take(spec_base_name(path@).len() - 3));
    }
    parse_date(stem)
}

} // verus!
