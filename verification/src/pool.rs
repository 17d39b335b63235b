//! How requests are spread over the workers that hold the analysis.
//!
//! Each request carries an id and each reply carries it back, so a pool of
//! workers needs no queue discipline: whichever is least busy takes the next
//! request, and the reply finds its own caller.

use vstd::prelude::*;

verus! {

/// How many tracks to measure at once, on a machine with this many cores.
pub open spec fn workers_for(cores: nat) -> nat {
    let spare = if cores >= 1 { (cores - 1) as nat } else { 0nat };
    if spare < 1 {
        1
    } else if spare > 8 {
        8
    } else {
        spare
    }
}

/// How many tracks to measure at once.
///
/// One fewer than the cores, so the thread drawing the page keeps one. Clamped
/// at the top because past a handful the decoded audio, not the arithmetic, is
/// what runs out: a track is held from the moment it is extracted until its
/// report comes back, and this is how many are held at once.
pub fn worker_count(cores: usize) -> (r: usize)
    ensures
        r == workers_for(cores as nat),
        1 <= r <= 8,
{
    let spare = cores.saturating_sub(1);
    if spare < 1 {
        1
    } else if spare > 8 {
        8
    } else {
        spare
    }
}

/// The worker a request goes to: the one with the fewest requests still
/// unanswered, and the first of them where several tie.
pub fn least_busy(outstanding: &Vec<usize>) -> (r: Option<usize>)
    ensures
        outstanding@.len() == 0 <==> r is None,
        r matches Some(i) ==> {
            &&& i < outstanding@.len()
            &&& forall|j: int| 0 <= j < outstanding@.len() ==> outstanding@[i as int] <= #[trigger] outstanding@[j]
            &&& forall|j: int| 0 <= j < i ==> outstanding@[i as int] < #[trigger] outstanding@[j]
        },
{
    if outstanding.len() == 0 {
        return None;
    }
    let mut best: usize = 0;
    let mut i: usize = 1;
    while i < outstanding.len()
        invariant
            1 <= i <= outstanding@.len(),
            best < i,
            forall|j: int| 0 <= j < i ==> outstanding@[best as int] <= #[trigger] outstanding@[j],
            forall|j: int| 0 <= j < best ==> outstanding@[best as int] < #[trigger] outstanding@[j],
        decreases outstanding@.len() - i,
    {
        if outstanding[i] < outstanding[best] {
            best = i;
        }
        i = i + 1;
    }
    Some(best)
}

/// The id the next request is sent under.
pub fn next_request_id(previous: u32) -> (r: u32)
    ensures
        r == (if previous == u32::MAX { 0 } else { previous + 1 }),
{
    previous.wrapping_add(1)
}

/// Requests to one worker that have not been answered, once one more is.
///
/// Never below nothing: a reply to a request this count never saw leaves it at
/// zero rather than wrapping.
pub fn answered(outstanding: usize) -> (r: usize)
    ensures
        r == (if outstanding == 0 { 0 } else { outstanding - 1 }),
{
    outstanding.saturating_sub(1)
}

} // verus!
