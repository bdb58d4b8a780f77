//! The share of the FSEvents path budget that the streams of a process hold.

use std::sync::atomic::{AtomicUsize, Ordering};
use vstd::prelude::*;

verus! {

/// The number of active paths after reserving `path_count` more of them on top of `active`,
/// if the result stays within `budget`.
pub fn reserve_within_budget(active: usize, path_count: usize, budget: usize) -> (r: Option<usize>)
    ensures
        r == (if active + path_count <= budget { Some((active + path_count) as usize) } else { None::<usize> }),
{
    match active.checked_add(path_count) {
        Some(combined) => {
            if combined <= budget {
                Some(combined)
            } else {
                None
            }
        },
        None => None,
    }
}

/// Calls `AtomicUsize::fetch_update` with [`reserve_within_budget`]: the counter is raised by
/// `path_count` only if the result stays within `budget`. The result is the count that the
/// update saw: `Ok` when it was raised, `Err` when it was left as it was.
#[verifier::external_body]
fn fetch_update_within_budget(active_paths: &AtomicUsize, path_count: usize, budget: usize) -> (r: Result<usize, usize>)
    ensures
        r matches Ok(prev) ==> prev + path_count <= budget,
        r matches Err(prev) ==> prev + path_count > budget,
{
    active_paths.fetch_update(Ordering::Relaxed, Ordering::Relaxed, |active| reserve_within_budget(active, path_count, budget))
}

/// Calls `AtomicUsize::fetch_sub`: takes `n` off the counter (wrapping around on overflow, so
/// it does not panic). What the counter holds is shared with other threads, so nothing is
/// stated of it.
#[verifier::external_body]
fn fetch_sub_paths(active_paths: &AtomicUsize, n: usize)
    opens_invariants none
    no_unwind
{
    active_paths.fetch_sub(n, Ordering::Relaxed);
}

/// Paths reserved in the count that all the FSEvents streams of a process share.
#[derive(Debug)]
pub struct FseventsPathReservation {
    active_paths: &'static AtomicUsize,
    path_count: usize,
    /// The count of active paths that the reserving update saw, before it added `path_count`.
    seen: usize,
}

impl FseventsPathReservation {
    /// The number of paths this reservation holds.
    pub closed spec fn spec_path_count(&self) -> nat {
        self.path_count as nat
    }

    /// The count of active paths that the reserving update saw, before it added this
    /// reservation's paths.
    pub closed spec fn spec_seen(&self) -> nat {
        self.seen as nat
    }

    /// Reserves `path_count` paths in `active_paths` if the combined count stays within
    /// `budget`; otherwise leaves the count as it is and returns the count it saw. Whether it
    /// succeeds depends on the count that the update sees, which other streams change: a
    /// reservation holds `path_count` paths on top of a count `seen` with
    /// `seen + path_count <= budget`, and a refusal gives a count over what `budget` leaves.
    pub fn acquire(active_paths: &'static AtomicUsize, path_count: usize, budget: usize) -> (r: Result<Self, usize>)
        ensures
            r matches Ok(res) ==> res.spec_path_count() == path_count && res.spec_seen() + path_count <= budget,
            r matches Err(active) ==> active + path_count > budget,
    {
        match fetch_update_within_budget(active_paths, path_count, budget) {
            Ok(seen) => Ok(FseventsPathReservation { active_paths, path_count, seen }),
            Err(active) => Err(active),
        }
    }

    /// The number of paths this reservation holds.
    pub fn path_count(&self) -> (r: usize)
        ensures
            r == self.spec_path_count(),
    {
        self.path_count
    }

    /// Gives the reserved paths back to the shared count, as dropping the reservation does.
    pub fn release(self) {
    }
}

impl Drop for FseventsPathReservation {
    /// Gives the reserved paths back to the shared count.
    fn drop(&mut self)
        opens_invariants none
        no_unwind
    {
        fetch_sub_paths(self.active_paths, self.path_count);
    }
}

} // verus!
