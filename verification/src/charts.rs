//! What a collection looks like on the Camelot wheel.
//!
//! Twenty-four segments, two rings, shaded by how many tracks landed in each.
//! Neighbours on the wheel mix, and a library that is all one colour is a
//! library with one hour in it. The drawing is the page's; the counting is
//! here.

use crate::report::{camelot_number_of, Report};
use vstd::prelude::*;

verus! {

/// Whether a report's key is minor, which is the inner ring.
pub open spec fn is_minor(report: Report) -> bool {
    report.key.camelot@.len() > 0 && report.key.camelot@.last() == 'A'
}

/// Whether a report lands in this segment of the wheel: `slot` counted from 1
/// at the top, clockwise, and the ring its mode names.
pub open spec fn lands_in(report: Report, slot: int, minor: bool) -> bool {
    match camelot_number_of(report.key.camelot@) {
        Some(number) => number - 1 == slot && is_minor(report) == minor,
        None => false,
    }
}

/// How many reports land in one segment.
pub open spec fn landed(reports: Seq<Report>, slot: int, minor: bool) -> nat
    decreases reports.len(),
{
    if reports.len() == 0 {
        0
    } else {
        landed(reports.drop_last(), slot, minor) + if lands_in(reports.last(), slot, minor) {
            1nat
        } else {
            0nat
        }
    }
}

proof fn lemma_landed_bounded(reports: Seq<Report>, slot: int, minor: bool)
    ensures
        landed(reports, slot, minor) <= reports.len(),
    decreases reports.len(),
{
    if reports.len() > 0 {
        lemma_landed_bounded(reports.drop_last(), slot, minor);
    }
}

/// How the collection sits on the wheel: for each of the twelve numbers, how
/// many tracks are in its major key and how many in its minor key.
///
/// A report with no Camelot number is on no segment.
pub fn camelot_counts(reports: &Vec<&Report>) -> (r: Vec<(usize, usize)>)
    ensures
        r@.len() == 12,
        forall|slot: int|
            0 <= slot < 12 ==> (#[trigger] r@[slot]).0 == landed(
                reports@.map_values(|report: &Report| *report),
                slot,
                false,
            ) && r@[slot].1 == landed(reports@.map_values(|report: &Report| *report), slot, true),
{
    let ghost all = reports@.map_values(|report: &Report| *report);
    let mut counts: Vec<(usize, usize)> = Vec::new();
    let mut s: usize = 0;
    while s < 12
        invariant
            s <= 12,
            counts@.len() == s,
            forall|k: int| 0 <= k < s ==> #[trigger] counts@[k] == (0usize, 0usize),
        decreases 12 - s,
    {
        counts.push((0, 0));
        s = s + 1;
    }
    let mut i: usize = 0;
    while i < reports.len()
        invariant
            i <= reports@.len(),
            all == reports@.map_values(|report: &Report| *report),
            counts@.len() == 12,
            forall|slot: int|
                0 <= slot < 12 ==> (#[trigger] counts@[slot]).0 == landed(
                    all.take(i as int),
                    slot,
                    false,
                ) && counts@[slot].1 == landed(all.take(i as int), slot, true),
            forall|slot: int|
                0 <= slot < 12 ==> (#[trigger] counts@[slot]).0 <= i && counts@[slot].1 <= i,
        decreases reports@.len() - i,
    {
        let report = reports[i];
        assert(all.take(i + 1).drop_last() =~= all.take(i as int));
        assert(all.take(i + 1).last() == *report);
        match report.camelot_number() {
            Some(number) => {
                let slot = (number - 1) as usize;
                let minor = report.camelot_is_minor();
                let (major_count, minor_count) = counts[slot];
                if minor {
                    counts.set(slot, (major_count, minor_count + 1));
                } else {
                    counts.set(slot, (major_count + 1, minor_count));
                }
            },
            None => {},
        }
        i = i + 1;
    }
    assert(all.take(i as int) =~= all);
    counts
}

} // verus!
