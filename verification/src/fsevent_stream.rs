//! What an FSEvents watcher keeps of its watched paths, which paths its stream carries, and
//! which notifications of the stream it delivers.

use crate::assoc::{assoc_get, assoc_index, assoc_insert, assoc_map, assoc_remove, assoc_view};
use crate::config::{RecursiveMode, TargetMode, WatchMode};
use crate::error::{Error, ErrorKind};
use crate::fs_event::{paths_view, Event, EventHead};
use crate::fsevent::{event_count, heads, lemma_event_count_bounds_translation, translate_flags, translated_event_count, translated_heads};
use crate::fsevent_budget::FseventsPathReservation;
use crate::fsevent_flags::{StreamFlags, ALL_FLAGS};
use crate::inotify::{strs_view, EventView};
use crate::path_ops::{parent, path_parent, path_starts_with, same_path, starts_with};
use std::sync::atomic::AtomicUsize;
use vstd::prelude::*;

verus! {

/// Whether a notification on `p` concerns a watch of `t` (each watched path with whether it is
/// recursive): it lies below a recursive watch, or is a watched path itself or one of its
/// direct children.
pub open spec fn handled(t: Seq<(Seq<char>, bool)>, p: Seq<char>) -> bool {
    exists|i: int| 0 <= i < t.len() && {
        let w = #[trigger] t[i];
        path_starts_with(p, w.0) && (w.1 || p == w.0 || path_parent(p) == Some(w.0))
    }
}

/// Whether a notification on `path` concerns one of the watches `recursive_info` (see
/// [`handled`]).
pub fn is_handled_path(recursive_info: &Vec<(String, bool)>, path: &String) -> (r: bool)
    ensures
        r == handled(assoc_view(recursive_info@), path@),
{
    let ghost t = assoc_view(recursive_info@);
    let parent_path = parent(path.as_str());
    let mut i: usize = 0;
    while i < recursive_info.len()
        invariant
            i <= recursive_info@.len(),
            t == assoc_view(recursive_info@),
            parent_path is Some <==> path_parent(path@) is Some,
            parent_path matches Some(q) ==> q@ == path_parent(path@)->0,
            forall|j: int| 0 <= j < i ==> {
                let w = #[trigger] t[j];
                !(path_starts_with(path@, w.0) && (w.1 || path@ == w.0 || path_parent(path@) == Some(w.0)))
            },
        decreases recursive_info@.len() - i,
    {
        assert(t[i as int] == (recursive_info@[i as int].0@, recursive_info@[i as int].1));
        let (watch_path, r) = &recursive_info[i];
        if starts_with(path.as_str(), watch_path.as_str()) {
            if *r || same_path(path, watch_path) {
                return true;
            }
            if let Some(q) = &parent_path {
                if same_path(q, watch_path) {
                    return true;
                }
            }
        }
        i = i + 1;
    }
    false
}

/// The events that a notification on `p` with the raw flags `raw` gives: none when it concerns
/// no watch, else its precise translation, each event on `p`.
pub open spec fn delivered(t: Seq<(Seq<char>, bool)>, p: Seq<char>, raw: u32, root_path: Option<bool>, process_id: u32) -> Seq<EventView> {
    if handled(t, p) {
        translated_heads(raw & ALL_FLAGS, true, root_path, process_id).map_values(|h: EventHead| (h, seq![p]))
    } else {
        seq![]
    }
}

/// The events that one notification of the stream gives: `path` is the path it concerns, `raw`
/// its flags (bits this library does not know are dropped), `root_path`, for a changed root,
/// whether the path exists now and is a directory, and `process_id` the id of this process.
/// A notification on a path that no watch of `recursive_info` concerns gives none.
pub fn stream_events(recursive_info: &Vec<(String, bool)>, path: &String, raw: u32, root_path: Option<bool>, process_id: u32) -> (r: Vec<Event>)
    ensures
        r@.map_values(|e: Event| (e.head(), paths_view(e.paths@)))
            == delivered(assoc_view(recursive_info@), path@, raw, root_path, process_id),
{
    let mut out: Vec<Event> = Vec::new();
    if !is_handled_path(recursive_info, path) {
        assert(out@.map_values(|e: Event| (e.head(), paths_view(e.paths@))) =~= Seq::<EventView>::empty());
        return out;
    }
    let flags = StreamFlags::from_bits_truncate(raw);
    proof {
        lemma_event_count_bounds_translation(flags, true, root_path, process_id);
    }
    if translated_event_count(&flags, true) == 0 {
        assert(out@.map_values(|e: Event| (e.head(), paths_view(e.paths@)))
            =~= delivered(assoc_view(recursive_info@), path@, raw, root_path, process_id));
        return out;
    }
    let evs = translate_flags(&flags, true, root_path, process_id);
    let ghost all = evs@;
    let ghost hs = heads(evs@);
    let mut rest = evs;
    let ghost mut done: int = 0;
    while rest.len() > 0
        invariant
            0 <= done <= all.len(),
            rest@ == all.subrange(done, all.len() as int),
            hs == heads(all),
            forall|j: int| 0 <= j < all.len() ==> (#[trigger] all[j]).paths@.len() == 0,
            out@.map_values(|e: Event| (e.head(), paths_view(e.paths@)))
                == hs.take(done).map_values(|h: EventHead| (h, seq![path@])),
        decreases rest@.len(),
    {
        let ev0 = rest.remove(0);
        assert(ev0 == all[done]);
        let ev = ev0.add_path(path.clone());
        assert(paths_view(ev.paths@) =~= seq![path@]);
        assert(hs[done] == all[done].head());
        let ghost before = out@;
        out.push(ev);
        assert(out@.map_values(|e: Event| (e.head(), paths_view(e.paths@)))
            =~= before.map_values(|e: Event| (e.head(), paths_view(e.paths@))).push((hs[done], seq![path@])));
        assert(hs.take(done + 1).map_values(|h: EventHead| (h, seq![path@]))
            =~= hs.take(done).map_values(|h: EventHead| (h, seq![path@])).push((hs[done], seq![path@])));
        assert(out@.map_values(|e: Event| (e.head(), paths_view(e.paths@)))
            =~= hs.take(done + 1).map_values(|h: EventHead| (h, seq![path@])));
        proof {
            done = done + 1;
            assert(rest@ =~= all.subrange(done, all.len() as int));
        }
    }
    assert(hs.take(done) =~= hs);
    out
}


/// The paths an FSEvents watcher watches, each with whether it is watched recursively.
#[derive(Clone, Debug)]
pub struct FsEventWatches {
    pub watches: Vec<(String, bool)>,
}

impl View for FsEventWatches {
    type V = Map<Seq<char>, bool>;

    open spec fn view(&self) -> Map<Seq<char>, bool> {
        assoc_map(assoc_view(self.watches@))
    }
}

/// The key under which a path is watched: its canonical form when it could be made, the path
/// as given otherwise.
pub open spec fn watch_key(path: Seq<char>, canonical: Option<String>) -> Seq<char> {
    match canonical {
        Some(c) => c@,
        None => path,
    }
}

impl FsEventWatches {
    /// No watched path.
    pub fn new() -> (r: FsEventWatches)
        ensures
            r@ == Map::<Seq<char>, bool>::empty(),
    {
        let r = FsEventWatches { watches: Vec::new() };
        assert(r@ =~= Map::<Seq<char>, bool>::empty());
        r
    }

    /// Whether no path is watched.
    pub fn is_empty(&self) -> (r: bool)
        ensures
            r == (self.watches@.len() == 0),
    {
        self.watches.len() == 0
    }

    /// Watches `path` with `watch_mode`: `exists` is whether the path exists, `canonical` its
    /// canonical form if it could be made. An empty path, and a path that does not exist
    /// unless it is tracked, are refused as not found; otherwise the path is watched under its
    /// key (see [`watch_key`]), recursively as the mode says.
    pub fn append_path(&mut self, path: &String, watch_mode: WatchMode, exists: bool, canonical: Option<String>) -> (r: Result<(), Error>)
        ensures
            ((!exists && watch_mode.target_mode != TargetMode::TrackPath) || path@.len() == 0) ==> {
                &&& r matches Err(e) && e.kind is PathNotFound && e.paths@ == seq![*path]
                &&& final(self)@ == old(self)@
            },
            !((!exists && watch_mode.target_mode != TargetMode::TrackPath) || path@.len() == 0) ==> {
                &&& r is Ok
                &&& final(self)@ == old(self)@.insert(watch_key(path@, canonical),
                    watch_mode.recursive_mode == RecursiveMode::Recursive)
            },
    {
        let tracks = match watch_mode.target_mode {
            TargetMode::TrackPath => true,
            TargetMode::NoTrack => false,
        };
        if (!exists && !tracks) || path.as_str().unicode_len() == 0 {
            let e = Error::path_not_found().add_path(path.clone());
            assert(e.paths@ =~= seq![*path]);
            return Err(e);
        }
        let key = match canonical {
            Some(c) => c,
            None => path.clone(),
        };
        assoc_insert(&mut self.watches, key, watch_mode.recursive_mode.is_recursive());
        Ok(())
    }

    /// Stops watching the path whose key is `watch_key(path, canonical)`; a path that is not
    /// watched gives an error for a watch that does not exist.
    pub fn remove_path(&mut self, path: &String, canonical: Option<String>) -> (r: Result<(), Error>)
        ensures
            old(self)@.contains_key(watch_key(path@, canonical)) ==> r is Ok,
            !old(self)@.contains_key(watch_key(path@, canonical)) ==> (r matches Err(e) && e.kind is WatchNotFound && e.paths@.len() == 0),
            final(self)@ == old(self)@.remove(watch_key(path@, canonical)),
    {
        let key = match canonical {
            Some(c) => c,
            None => path.clone(),
        };
        if assoc_remove(&mut self.watches, &key) {
            Ok(())
        } else {
            Err(Error::watch_not_found())
        }
    }
}

/// The budget of paths that the streams of a process may carry, given the soft limit on its
/// open files if it could be read: a twelfth of it, none when it is unknown or does not fit in
/// a `usize`.
pub fn path_budget(soft_limit: Option<u64>) -> (r: Option<usize>)
    ensures
        match soft_limit {
            Some(soft) => if soft <= usize::MAX { r == Some((soft / 12) as usize) } else { r is None },
            None => r is None,
        },
{
    match soft_limit {
        Some(soft) => {
            if soft <= usize::MAX as u64 {
                Some((soft as usize) / 12)
            } else {
                None
            }
        },
        None => None,
    }
}

/// The most paths that the streams of a process may carry together: the budget, or any count
/// that fits when there is none.
pub open spec fn path_limit(budget: Option<usize>) -> int {
    match budget {
        Some(b) => b as int,
        None => usize::MAX as int,
    }
}

/// The refusal of a stream over the budget: the count of active paths that the reserving
/// update saw, which the stream's paths would have taken over the budget.
#[derive(Copy, Clone, PartialEq, Eq, Debug, Structural)]
pub struct StreamRefused {
    pub active_paths: usize,
}

impl StreamRefused {
    /// The error that a refused stream answers: over the limit of watched files.
    pub fn error(&self) -> (r: Error)
        ensures
            r.kind is MaxFilesWatch,
            r.paths@.len() == 0,
    {
        Error::new(ErrorKind::MaxFilesWatch)
    }
}

/// Reserves the `path_count` paths of a new stream in the count `active_paths` that the
/// streams of the process share, within `budget` (no budget: any count that fits). Whether it
/// succeeds depends on the paths that the other streams hold: a reservation sits on top of a
/// count that leaves room for the stream within the budget, and a refusal gives the count that
/// left none. A stream with more paths than the budget allows is always refused.
pub fn admit_stream(active_paths: &'static AtomicUsize, path_count: usize, budget: Option<usize>) -> (r: Result<FseventsPathReservation, StreamRefused>)
    ensures
        r matches Ok(res) ==> res.spec_path_count() == path_count && res.spec_seen() + path_count <= path_limit(budget),
        r matches Err(x) ==> x.active_paths + path_count > path_limit(budget),
        path_count > path_limit(budget) ==> r is Err,
{
    let limit = match budget {
        Some(b) => b,
        None => usize::MAX,
    };
    match FseventsPathReservation::acquire(active_paths, path_count, limit) {
        Ok(res) => Ok(res),
        Err(active) => Err(StreamRefused { active_paths: active }),
    }
}

impl FsEventWatches {
    /// What comes before a stream is started for these watches: with no watched path there is
    /// nothing to start and nothing is reserved; otherwise the `path_count` paths that the
    /// stream will carry are reserved as [`admit_stream`] does, and a stream over the budget is
    /// refused (its error is [`StreamRefused::error`]).
    pub fn reserve_stream(&self, active_paths: &'static AtomicUsize, path_count: usize, budget: Option<usize>) -> (r: Result<Option<FseventsPathReservation>, StreamRefused>)
        ensures
            self.watches@.len() == 0 ==> r matches Ok(None),
            self.watches@.len() != 0 ==> !(r matches Ok(None)),
            r matches Ok(Some(res)) ==> res.spec_path_count() == path_count && res.spec_seen() + path_count <= path_limit(budget),
            r matches Err(x) ==> x.active_paths + path_count > path_limit(budget),
            self.watches@.len() != 0 && path_count > path_limit(budget) ==> r is Err,
    {
        if self.is_empty() {
            return Ok(None);
        }
        match admit_stream(active_paths, path_count, budget) {
            Ok(res) => Ok(Some(res)),
            Err(x) => Err(x),
        }
    }
}

/// The lower-case form of a string (`str::to_lowercase`).
pub uninterp spec fn lowercase(s: Seq<char>) -> Seq<char>;

/// Calls `str::to_lowercase`.
#[verifier::external_body]
fn to_lowercase(s: &str) -> (r: String)
    ensures
        r@ == lowercase(s@),
{
    s.to_lowercase()
}

/// The lower-case forms of a list of paths.
pub open spec fn lowercased(ps: Seq<Seq<char>>) -> Seq<Seq<char>> {
    ps.map_values(|p: Seq<char>| lowercase(p))
}

/// The indices, in increasing order, of the carried paths `cur` that are not among `lw`.
pub open spec fn stale_indices(cur: Seq<Seq<char>>, lw: Seq<Seq<char>>) -> Seq<int>
    decreases cur.len(),
{
    if cur.len() == 0 {
        seq![]
    } else {
        let prev = stale_indices(cur.drop_last(), lw);
        if lw.contains(cur.last()) { prev } else { prev.push(cur.len() - 1) }
    }
}

/// The paths of `ws` to append to the carried paths `cur`: those whose lower-case form is not
/// carried already (a carried path that is such a form stays).
pub open spec fn paths_to_append(cur: Seq<Seq<char>>, ws: Seq<Seq<char>>) -> Seq<Seq<char>>
    decreases ws.len(),
{
    if ws.len() == 0 {
        seq![]
    } else {
        let prev = paths_to_append(cur, ws.drop_last());
        let l = lowercase(ws.last());
        if cur.contains(l) { prev } else { prev.push(ws.last()) }
    }
}

/// How the paths a stream carries change: the indices of the carried paths to remove, in
/// increasing order, and the paths to append.
#[derive(Clone, Debug)]
pub struct StreamPathsUpdate {
    pub remove_indices: Vec<usize>,
    pub append: Vec<String>,
}

fn contains_str(ps: &Vec<String>, p: &String) -> (r: bool)
    ensures
        r == strs_view(ps@).contains(p@),
{
    let mut i: usize = 0;
    while i < ps.len()
        invariant
            i <= ps@.len(),
            forall|j: int| 0 <= j < i ==> strs_view(ps@)[j] != p@,
        decreases ps@.len() - i,
    {
        if same_path(&ps[i], p) {
            assert(strs_view(ps@)[i as int] == p@);
            return true;
        }
        i = i + 1;
    }
    false
}

/// Brings the paths a stream carries (`current`) in line with the paths to watch
/// (`to_watch`), comparing in lower case as the stream does: a carried path that is not the
/// lower-case form of a path to watch is removed; a path to watch whose lower-case form is not
/// carried already is appended.
pub fn stream_paths_update(current: &Vec<String>, to_watch: &Vec<String>) -> (r: StreamPathsUpdate)
    ensures
        r.remove_indices@.map_values(|i: usize| i as int) == stale_indices(strs_view(current@), lowercased(strs_view(to_watch@))),
        strs_view(r.append@) == paths_to_append(strs_view(current@), strs_view(to_watch@)),
{
    let ghost cur = strs_view(current@);
    let ghost ws = strs_view(to_watch@);
    let mut lower: Vec<String> = Vec::new();
    let mut i: usize = 0;
    while i < to_watch.len()
        invariant
            i <= to_watch@.len(),
            ws == strs_view(to_watch@),
            strs_view(lower@) == lowercased(ws.take(i as int)),
        decreases to_watch@.len() - i,
    {
        let l = to_lowercase(to_watch[i].as_str());
        assert(ws[i as int] == to_watch@[i as int]@);
        assert(l@ == lowercase(ws[i as int]));
        let ghost before = strs_view(lower@);
        lower.push(l);
        assert(strs_view(lower@) =~= before.push(lowercase(ws[i as int])));
        assert(lowercased(ws.take(i + 1)) =~= lowercased(ws.take(i as int)).push(lowercase(ws[i as int])));
        i = i + 1;
    }
    assert(ws.take(i as int) =~= ws);
    let ghost lw = lowercased(ws);
    let mut remove_indices: Vec<usize> = Vec::new();
    let mut k: usize = 0;
    while k < current.len()
        invariant
            k <= current@.len(),
            cur == strs_view(current@),
            strs_view(lower@) == lw,
            remove_indices@.map_values(|i: usize| i as int) == stale_indices(cur.take(k as int), lw),
        decreases current@.len() - k,
    {
        assert(cur.take(k + 1).drop_last() =~= cur.take(k as int));
        assert(cur.take(k + 1).last() == cur[k as int]);
        if !contains_str(&lower, &current[k]) {
            let ghost before = remove_indices@;
            remove_indices.push(k);
            assert(remove_indices@.map_values(|i: usize| i as int) =~= before.map_values(|i: usize| i as int).push(k as int));
        }
        k = k + 1;
    }
    assert(cur.take(k as int) =~= cur);
    let mut append: Vec<String> = Vec::new();
    let mut j: usize = 0;
    while j < to_watch.len()
        invariant
            j <= to_watch@.len(),
            ws == strs_view(to_watch@),
            cur == strs_view(current@),
            strs_view(lower@) == lw,
            lw == lowercased(ws),
            strs_view(append@) == paths_to_append(cur, ws.take(j as int)),
        decreases to_watch@.len() - j,
    {
        let ghost wj = ws.take(j + 1);
        assert(wj.drop_last() =~= ws.take(j as int));
        assert(wj.last() == ws[j as int]);
        let l = to_lowercase(to_watch[j].as_str());
        let kept = contains_str(current, &l);
        if !kept {
            append.push(to_watch[j].clone());
            assert(strs_view(append@) =~= paths_to_append(cur, wj));
        } else {
            assert(strs_view(append@) =~= paths_to_append(cur, wj));
        }
        j = j + 1;
    }
    assert(ws.take(j as int) =~= ws);
    StreamPathsUpdate { remove_indices, append }
}

} // verus!
