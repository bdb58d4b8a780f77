//! The table of user watch roots that the inotify and kqueue backends keep, and the counts of
//! tracked roots below each ancestor directory.

use crate::ancestors::ancestors_of;
use crate::config::{watch_mode_covers, RecursiveMode, TargetMode, WatchMode};
use crate::error::{Error, ErrorKind};
use crate::inotify::strs_view;
use crate::paths::EntryKind;
use crate::fs_event::{head, paths_view, CreateKind, Event, EventHead, EventKind, RemoveKind};
use crate::path_ops::{parent, path_parent, path_starts_with, same_path, starts_with};
use vstd::prelude::*;

verus! {

/// Whether a watched root exists, and as what.
#[derive(Copy, Clone, PartialEq, Eq, Debug, Structural)]
pub enum RootState {
    Missing,
    File,
    Directory,
}

/// A path the user watches. With `TargetMode::TrackPath` the path is tracked through every
/// ancestor: it is reported removed when an ancestor goes away, and created and watched again
/// when it is reachable again.
#[derive(Copy, Clone, PartialEq, Eq, Debug, Structural)]
pub struct RootWatch {
    pub mode: WatchMode,
    pub state: RootState,
}

/// The table of roots, as characters.
pub open spec fn table_view(ws: Seq<(String, RootWatch)>) -> Seq<(Seq<char>, RootWatch)> {
    ws.map_values(|e: (String, RootWatch)| (e.0@, e.1))
}

/// The first entry of the table for the path `p`.
pub open spec fn lookup(t: Seq<(Seq<char>, RootWatch)>, p: Seq<char>) -> Option<RootWatch>
    decreases t.len(),
{
    if t.len() == 0 {
        None
    } else if t[0].0 == p {
        Some(t[0].1)
    } else {
        lookup(t.drop_first(), p)
    }
}

/// Whether `p` is a recursive root of the table.
pub open spec fn is_recursive_root(t: Seq<(Seq<char>, RootWatch)>, p: Seq<char>) -> bool {
    lookup(t, p) matches Some(r) && r.mode.recursive_mode == RecursiveMode::Recursive
}

/// Whether a strict ancestor of `p` is a recursive root of the table.
pub open spec fn recursive_root_above(t: Seq<(Seq<char>, RootWatch)>, p: Seq<char>) -> bool
    decreases p.len(),
{
    match path_parent(p) {
        Some(q) => if q.len() < p.len() {
            is_recursive_root(t, q) || recursive_root_above(t, q)
        } else {
            false
        },
        None => false,
    }
}

/// Whether events on `p` are reported: `p` is a root, its parent is a root, or a recursive
/// root lies above its parent.
pub open spec fn watched(t: Seq<(Seq<char>, RootWatch)>, p: Seq<char>) -> bool {
    lookup(t, p) is Some || match path_parent(p) {
        Some(q) => lookup(t, q) is Some || recursive_root_above(t, q),
        None => false,
    }
}

/// The table with the state of the root at `p` set to `st`.
pub open spec fn set_state_spec(t: Seq<(Seq<char>, RootWatch)>, p: Seq<char>, st: RootState) -> Seq<(Seq<char>, RootWatch)> {
    t.map_values(|e: (Seq<char>, RootWatch)| if e.0 == p { (e.0, RootWatch { state: st, ..e.1 }) } else { e })
}

/// The entry of the table for `path`.
pub fn find_root(watches: &Vec<(String, RootWatch)>, path: &String) -> (r: Option<RootWatch>)
    ensures
        r == lookup(table_view(watches@), path@),
{
    let ghost t = table_view(watches@);
    assert(t.skip(0) =~= t);
    let mut i: usize = 0;
    while i < watches.len()
        invariant
            i <= watches@.len(),
            t == table_view(watches@),
            lookup(t, path@) == lookup(t.skip(i as int), path@),
        decreases watches@.len() - i,
    {
        let ghost rest = t.skip(i as int);
        assert(rest[0] == (watches@[i as int].0@, watches@[i as int].1));
        assert(rest.drop_first() =~= t.skip(i + 1));
        if same_path(&watches[i].0, path) {
            return Some(watches[i].1);
        }
        i = i + 1;
    }
    assert(t.skip(i as int) =~= Seq::<(Seq<char>, RootWatch)>::empty());
    None
}

/// Whether `path` is a root of the table.
pub fn contains_root(watches: &Vec<(String, RootWatch)>, path: &String) -> (r: bool)
    ensures
        r == lookup(table_view(watches@), path@) is Some,
{
    find_root(watches, path).is_some()
}

/// Whether `path` is a recursive root of the table.
fn is_recursive_root_at(watches: &Vec<(String, RootWatch)>, path: &String) -> (r: bool)
    ensures
        r == is_recursive_root(table_view(watches@), path@),
{
    match find_root(watches, path) {
        Some(root) => root.mode.recursive_mode.is_recursive(),
        None => false,
    }
}

/// Whether a strict ancestor of `path` is a recursive root of the table.
pub fn has_recursive_root_above(watches: &Vec<(String, RootWatch)>, path: &String) -> (r: bool)
    ensures
        r == recursive_root_above(table_view(watches@), path@),
{
    let ghost t = table_view(watches@);
    let mut cur = path.clone();
    loop
        invariant
            t == table_view(watches@),
            recursive_root_above(t, path@) == recursive_root_above(t, cur@),
        decreases cur@.len(),
    {
        match parent(cur.as_str()) {
            None => {
                return false;
            },
            Some(q) => {
                if is_recursive_root_at(watches, &q) {
                    return true;
                }
                cur = q;
            },
        }
    }
}

/// Whether events on `path` are reported (see [`watched`]).
pub fn is_watched_path(watches: &Vec<(String, RootWatch)>, path: &String) -> (r: bool)
    ensures
        r == watched(table_view(watches@), path@),
{
    if contains_root(watches, path) {
        return true;
    }
    match parent(path.as_str()) {
        None => false,
        Some(q) => contains_root(watches, &q) || has_recursive_root_above(watches, &q),
    }
}

/// Sets the state of the root at `path`, if there is one.
pub fn set_state(watches: &mut Vec<(String, RootWatch)>, path: &String, state: RootState)
    ensures
        table_view(final(watches)@) == set_state_spec(table_view(old(watches)@), path@, state),
{
    let ghost t0 = table_view(old(watches)@);
    let mut i: usize = 0;
    while i < watches.len()
        invariant
            i <= watches@.len(),
            watches@.len() == old(watches)@.len(),
            t0 == table_view(old(watches)@),
            forall|j: int| 0 <= j < i ==> (#[trigger] table_view(watches@)[j]) == set_state_spec(t0, path@, state)[j],
            forall|j: int| i <= j < watches@.len() ==> #[trigger] watches@[j] == old(watches)@[j],
        decreases watches@.len() - i,
    {
        let ghost before = watches@;
        assert(t0[i as int] == (before[i as int].0@, before[i as int].1));
        if same_path(&watches[i].0, path) {
            let key = watches[i].0.clone();
            let mut entry = watches[i].1;
            entry.state = state;
            watches.set(i, (key, entry));
            assert(table_view(watches@)[i as int] == set_state_spec(t0, path@, state)[i as int]);
        } else {
            assert(table_view(watches@)[i as int] == set_state_spec(t0, path@, state)[i as int]);
        }
        assert forall|j: int| 0 <= j < i + 1 implies #[trigger] table_view(watches@)[j] == set_state_spec(t0, path@, state)[j] by {
            if j < i {
                assert(table_view(watches@)[j] == table_view(before)[j]);
                assert(table_view(before)[j] == set_state_spec(t0, path@, state)[j]);
            }
        }
        i = i + 1;
    }
    assert(table_view(watches@) =~= set_state_spec(t0, path@, state));
}

/// The state of a root that is present as a directory or as a file.
pub open spec fn present_state(is_dir: bool) -> RootState {
    if is_dir { RootState::Directory } else { RootState::File }
}

/// `path` is gone: a root there is missing, and the roots below it are cut off when tracked
/// roots lie below it (`is_ancestor`), which `vanished` then records.
pub fn note_gone(watches: &mut Vec<(String, RootWatch)>, is_ancestor: bool, path: &String, vanished: &mut Vec<String>)
    ensures
        table_view(final(watches)@) == set_state_spec(table_view(old(watches)@), path@, RootState::Missing),
        final(vanished)@ == (if is_ancestor { old(vanished)@.push(*path) } else { old(vanished)@ }),
{
    set_state(watches, path, RootState::Missing);
    if is_ancestor {
        vanished.push(path.clone());
    }
}

/// `path` exists now: a root there is present, and a directory may lead to tracked roots below
/// it when it is an ancestor of some (`is_ancestor`), which `appeared` then records.
pub fn note_present(
    watches: &mut Vec<(String, RootWatch)>,
    is_ancestor: bool,
    path: &String,
    is_dir: bool,
    appeared: &mut Vec<String>,
)
    ensures
        table_view(final(watches)@) == set_state_spec(table_view(old(watches)@), path@, present_state(is_dir)),
        final(appeared)@ == (if is_dir && is_ancestor { old(appeared)@.push(*path) } else { old(appeared)@ }),
{
    let state = if is_dir { RootState::Directory } else { RootState::File };
    set_state(watches, path, state);
    if is_dir && is_ancestor {
        appeared.push(path.clone());
    }
}

/// The watch to add for a path that appeared: at a root, with the root's recursion; below a
/// root's direct child level, with that root's recursion; below a recursive root further up,
/// recursively; none otherwise.
pub open spec fn watch_to_add(t: Seq<(Seq<char>, RootWatch)>, p: Seq<char>) -> Option<bool> {
    match lookup(t, p) {
        Some(r) => Some(r.mode.recursive_mode == RecursiveMode::Recursive),
        None => match path_parent(p) {
            None => None,
            Some(q) => match lookup(t, q) {
                Some(r) => Some(r.mode.recursive_mode == RecursiveMode::Recursive),
                None => if recursive_root_above(t, q) { Some(true) } else { None },
            },
        },
    }
}

/// Queues a watch on `path`, which appeared, with whether it is recursive and whether it is a
/// file without other hard links (see [`watch_to_add`]).
pub fn add_watch_by_event(
    path: &String,
    is_file_without_hardlinks: bool,
    watches: &Vec<(String, RootWatch)>,
    add_watches: &mut Vec<(String, bool, bool)>,
)
    ensures
        final(add_watches)@ == match watch_to_add(table_view(watches@), path@) {
            Some(rec) => old(add_watches)@.push((*path, rec, is_file_without_hardlinks)),
            None => old(add_watches)@,
        },
{
    if let Some(root) = find_root(watches, path) {
        add_watches.push((path.clone(), root.mode.recursive_mode.is_recursive(), is_file_without_hardlinks));
        return;
    }
    let parent_path = match parent(path.as_str()) {
        Some(p) => p,
        None => {
            return;
        },
    };
    if let Some(root) = find_root(watches, &parent_path) {
        add_watches.push((path.clone(), root.mode.recursive_mode.is_recursive(), is_file_without_hardlinks));
        return;
    }
    if has_recursive_root_above(watches, &parent_path) {
        add_watches.push((path.clone(), true, is_file_without_hardlinks));
    }
}

/// Whether the entry `e` is a root at `p` that does not track its path.
pub open spec fn is_untracked_root_at(p: Seq<char>, e: (Seq<char>, RootWatch)) -> bool {
    e.0 == p && e.1.mode.target_mode == TargetMode::NoTrack
}

/// Forgets the root at `path` if it does not track its path: once its entity is removed or
/// moved away, such a watch ends.
pub fn drop_untracked_root(watches: &mut Vec<(String, RootWatch)>, path: &String)
    ensures
        table_view(final(watches)@) == table_view(old(watches)@).filter(|e: (Seq<char>, RootWatch)| !is_untracked_root_at(path@, e)),
{
    let ghost t0 = table_view(old(watches)@);
    let ghost keep = |e: (Seq<char>, RootWatch)| !is_untracked_root_at(path@, e);
    let mut kept: Vec<(String, RootWatch)> = Vec::new();
    let mut i: usize = 0;
    while i < watches.len()
        invariant
            i <= watches@.len(),
            watches@ == old(watches)@,
            t0 == table_view(old(watches)@),
            keep == (|e: (Seq<char>, RootWatch)| !is_untracked_root_at(path@, e)),
            table_view(kept@) == t0.take(i as int).filter(keep),
        decreases watches@.len() - i,
    {
        proof {
            t0.take(i as int).lemma_filter_push(t0[i as int], keep);
            assert(t0.take(i + 1) =~= t0.take(i as int).push(t0[i as int]));
        }
        let drop = same_path(&watches[i].0, path) && watches[i].1.mode.target_mode == TargetMode::NoTrack;
        if !drop {
            kept.push((watches[i].0.clone(), watches[i].1));
            assert(table_view(kept@) =~= t0.take(i as int).filter(keep).push(t0[i as int]));
        }
        i = i + 1;
    }
    assert(t0.take(i as int) =~= t0);
    *watches = kept;
}

/// Whether the entry `e` is a tracked root strictly below `p` in state `present`-ness `st`.
pub open spec fn is_tracked_below(p: Seq<char>, e: (Seq<char>, RootWatch)) -> bool {
    e.1.mode.target_mode == TargetMode::TrackPath && e.0 != p && path_starts_with(e.0, p)
}

/// The removal reported for a tracked root that was present in state `st`.
pub open spec fn vanished_event(root: Seq<char>, st: RootState) -> (EventHead, Seq<Seq<char>>) {
    (head(EventKind::Remove(if st == RootState::Directory { RemoveKind::Folder } else { RemoveKind::File })), seq![root])
}

/// The entry `e` after its ancestor `p` went away.
pub open spec fn vanish_entry(p: Seq<char>, e: (Seq<char>, RootWatch)) -> (Seq<char>, RootWatch) {
    if is_tracked_below(p, e) { (e.0, RootWatch { state: RootState::Missing, ..e.1 }) } else { e }
}

/// The removal reported for the entry `e` when its ancestor `p` went away, if any.
pub open spec fn vanish_report(p: Seq<char>) -> spec_fn((Seq<char>, RootWatch)) -> Option<(EventHead, Seq<Seq<char>>)> {
    |e: (Seq<char>, RootWatch)| if is_tracked_below(p, e) && e.1.state != RootState::Missing {
        Some(vanished_event(e.0, e.1.state))
    } else {
        None
    }
}

/// The roots below `path`, which went away, are out of reach: every tracked root strictly
/// below it becomes missing, and the ones that were present are reported removed, in the
/// order of the table.
pub fn vanish_below(watches: &mut Vec<(String, RootWatch)>, path: &String) -> (r: Vec<Event>)
    ensures
        table_view(final(watches)@) == table_view(old(watches)@).map_values(|e: (Seq<char>, RootWatch)| vanish_entry(path@, e)),
        r@.map_values(|e: Event| (e.head(), paths_view(e.paths@))) == table_view(old(watches)@).filter_map(vanish_report(path@)),
{
    let ghost t0 = table_view(old(watches)@);
    let ghost f = vanish_report(path@);
    let mut out: Vec<Event> = Vec::new();
    let mut i: usize = 0;
    while i < watches.len()
        invariant
            i <= watches@.len(),
            watches@.len() == old(watches)@.len(),
            t0 == table_view(old(watches)@),
            f == vanish_report(path@),
            forall|j: int| 0 <= j < i ==> (#[trigger] table_view(watches@)[j]) == vanish_entry(path@, t0[j]),
            forall|j: int| i <= j < watches@.len() ==> #[trigger] watches@[j] == old(watches)@[j],
            out@.map_values(|e: Event| (e.head(), paths_view(e.paths@))) == t0.take(i as int).filter_map(f),
        decreases watches@.len() - i,
    {
        proof {
            t0.lemma_filter_map_take_succ(f, i as int);
        }
        let ghost before = watches@;
        assert(t0[i as int] == (before[i as int].0@, before[i as int].1));
        let root = watches[i].0.clone();
        let watch = watches[i].1;
        let below = watch.mode.target_mode == TargetMode::TrackPath && !same_path(&root, path)
            && starts_with(root.as_str(), path.as_str());
        if below {
            if watch.state != RootState::Missing {
                let kind = if watch.state == RootState::Directory { RemoveKind::Folder } else { RemoveKind::File };
                let ev = Event::new(EventKind::Remove(kind)).add_path(root.clone());
                assert(paths_view(ev.paths@) =~= seq![root@]);
                out.push(ev);
            }
            let mut updated = watch;
            updated.state = RootState::Missing;
            watches.set(i, (root, updated));
        }
        assert(out@.map_values(|e: Event| (e.head(), paths_view(e.paths@))) =~= t0.take(i + 1).filter_map(f));
        assert(table_view(watches@)[i as int] == vanish_entry(path@, t0[i as int]));
        assert forall|j: int| 0 <= j < i + 1 implies #[trigger] table_view(watches@)[j] == vanish_entry(path@, t0[j]) by {
            if j < i {
                assert(table_view(watches@)[j] == table_view(before)[j]);
            }
        }
        i = i + 1;
    }
    assert(t0.take(i as int) =~= t0);
    assert(table_view(watches@) =~= t0.map_values(|e: (Seq<char>, RootWatch)| vanish_entry(path@, e)));
    out
}

/// The tracked root that the entry `e` holds, if it is missing below `p`, which came back.
pub open spec fn rearm_candidate(p: Seq<char>) -> spec_fn((Seq<char>, RootWatch)) -> Option<(Seq<char>, RecursiveMode)> {
    |e: (Seq<char>, RootWatch)| if is_tracked_below(p, e) && e.1.state == RootState::Missing {
        Some((e.0, e.1.mode.recursive_mode))
    } else {
        None
    }
}

/// The missing tracked roots strictly below `path`, which is a directory again, with their
/// recursion: the roots to watch again if they can be reached now.
pub fn roots_to_rearm(watches: &Vec<(String, RootWatch)>, path: &String) -> (r: Vec<(String, RecursiveMode)>)
    ensures
        r@.map_values(|e: (String, RecursiveMode)| (e.0@, e.1)) == table_view(watches@).filter_map(rearm_candidate(path@)),
{
    let ghost t0 = table_view(watches@);
    let ghost f = rearm_candidate(path@);
    let mut out: Vec<(String, RecursiveMode)> = Vec::new();
    let mut i: usize = 0;
    while i < watches.len()
        invariant
            i <= watches@.len(),
            t0 == table_view(watches@),
            f == rearm_candidate(path@),
            out@.map_values(|e: (String, RecursiveMode)| (e.0@, e.1)) == t0.take(i as int).filter_map(f),
        decreases watches@.len() - i,
    {
        proof {
            t0.lemma_filter_map_take_succ(f, i as int);
        }
        assert(t0[i as int] == (watches@[i as int].0@, watches@[i as int].1));
        let (root, watch) = &watches[i];
        if watch.mode.target_mode == TargetMode::TrackPath && watch.state == RootState::Missing
            && !same_path(root, path) && starts_with(root.as_str(), path.as_str())
        {
            out.push((root.clone(), watch.mode.recursive_mode));
        }
        assert(out@.map_values(|e: (String, RecursiveMode)| (e.0@, e.1)) =~= t0.take(i + 1).filter_map(f));
        i = i + 1;
    }
    assert(t0.take(i as int) =~= t0);
    out
}

proof fn lemma_filter_map_has<A, B>(s: Seq<A>, f: spec_fn(A) -> Option<B>, i: int)
    requires
        0 <= i < s.len(),
        f(s[i]) is Some,
    ensures
        s.filter_map(f).contains(f(s[i])->0),
    decreases s.len(),
{
    let rest = s.drop_last();
    if i == s.len() - 1 {
        assert((rest.filter_map(f) + seq![f(s[i])->0])[rest.filter_map(f).len() as int] == f(s[i])->0);
    } else {
        assert(rest[i] == s[i]);
        lemma_filter_map_has(rest, f, i);
        let k = choose|k: int| 0 <= k < rest.filter_map(f).len() && rest.filter_map(f)[k] == f(s[i])->0;
        match f(s.last()) {
            Some(x) => {
                assert((rest.filter_map(f) + seq![x])[k] == f(s[i])->0);
            },
            None => {},
        }
    }
}

/// A tracked path is reported removed when an ancestor goes away, and is watched again once
/// that ancestor is a directory again: after [`vanish_below`] of `p`, each tracked root
/// strictly below `p` is missing, and was reported removed if it was present; it is then
/// among [`roots_to_rearm`] of `p`; and once it is found present again ([`rearmed`]), it is in
/// that state again.
pub proof fn lemma_vanished_roots_come_back(t: Seq<(Seq<char>, RootWatch)>, p: Seq<char>, i: int, st: RootState)
    requires
        0 <= i < t.len(),
        is_tracked_below(p, t[i]),
    ensures
        ({
            let t2 = t.map_values(|e: (Seq<char>, RootWatch)| vanish_entry(p, e));
            &&& t2[i].1.state == RootState::Missing
            &&& t[i].1.state != RootState::Missing ==> t.filter_map(vanish_report(p)).contains(vanished_event(t[i].0, t[i].1.state))
            &&& t2.filter_map(rearm_candidate(p)).contains((t[i].0, t[i].1.mode.recursive_mode))
            &&& set_state_spec(t2, t[i].0, st)[i].1.state == st
        }),
{
    let t2 = t.map_values(|e: (Seq<char>, RootWatch)| vanish_entry(p, e));
    assert(t2[i] == vanish_entry(p, t[i]));
    if t[i].1.state != RootState::Missing {
        lemma_filter_map_has(t, vanish_report(p), i);
    }
    assert(is_tracked_below(p, t2[i]));
    lemma_filter_map_has(t2, rearm_candidate(p), i);
}

/// Records that the tracked root at `root` was watched again and found in `state`: a root
/// that is present again becomes so and is reported created; a root still missing changes
/// nothing.
pub fn rearmed(watches: &mut Vec<(String, RootWatch)>, root: &String, state: RootState) -> (r: Option<Event>)
    ensures
        state == RootState::Missing ==> r is None && final(watches)@ == old(watches)@,
        state != RootState::Missing ==> {
            &&& table_view(final(watches)@) == set_state_spec(table_view(old(watches)@), root@, state)
            &&& r matches Some(e) && e.head() == head(EventKind::Create(
                if state == RootState::Directory { CreateKind::Folder } else { CreateKind::File }))
                && paths_view(e.paths@) == seq![root@]
        },
{
    if state == RootState::Missing {
        return None;
    }
    set_state(watches, root, state);
    let kind = if state == RootState::Directory { CreateKind::Folder } else { CreateKind::File };
    let ev = Event::new(EventKind::Create(kind)).add_path(root.clone());
    assert(paths_view(ev.paths@) =~= seq![root@]);
    Some(ev)
}

/// Whether `path` lies strictly below a recursive root.
pub fn is_below_recursive_root(watches: &Vec<(String, RootWatch)>, path: &String) -> (r: bool)
    ensures
        r == exists|i: int| 0 <= i < watches@.len() && {
            let e = #[trigger] table_view(watches@)[i];
            e.1.mode.recursive_mode == RecursiveMode::Recursive && e.0 != path@ && path_starts_with(path@, e.0)
        },
{
    let ghost t = table_view(watches@);
    let mut i: usize = 0;
    while i < watches.len()
        invariant
            i <= watches@.len(),
            t == table_view(watches@),
            forall|j: int| 0 <= j < i ==> {
                let e = #[trigger] t[j];
                !(e.1.mode.recursive_mode == RecursiveMode::Recursive && e.0 != path@ && path_starts_with(path@, e.0))
            },
        decreases watches@.len() - i,
    {
        assert(t[i as int] == (watches@[i as int].0@, watches@[i as int].1));
        let (root, watch) = &watches[i];
        if watch.mode.recursive_mode.is_recursive() && !same_path(root, path) && starts_with(path.as_str(), root.as_str()) {
            return true;
        }
        i = i + 1;
    }
    false
}

/// Whether `path` is a recursive root or lies below one.
pub fn is_recursive_at(watches: &Vec<(String, RootWatch)>, path: &String) -> (r: bool)
    ensures
        r == exists|i: int| 0 <= i < watches@.len() && {
            let e = #[trigger] table_view(watches@)[i];
            e.1.mode.recursive_mode == RecursiveMode::Recursive && path_starts_with(path@, e.0)
        },
{
    let ghost t = table_view(watches@);
    let mut i: usize = 0;
    while i < watches.len()
        invariant
            i <= watches@.len(),
            t == table_view(watches@),
            forall|j: int| 0 <= j < i ==> {
                let e = #[trigger] t[j];
                !(e.1.mode.recursive_mode == RecursiveMode::Recursive && path_starts_with(path@, e.0))
            },
        decreases watches@.len() - i,
    {
        assert(t[i as int] == (watches@[i as int].0@, watches@[i as int].1));
        let (root, watch) = &watches[i];
        if watch.mode.recursive_mode.is_recursive() && starts_with(path.as_str(), root.as_str()) {
            return true;
        }
        i = i + 1;
    }
    false
}

/// What installing a watch of a path asks for.
#[derive(Copy, Clone, PartialEq, Eq, Debug, Structural)]
pub enum AddWatchPlan {
    /// The path is a root already: watch its ancestors first if it starts tracking its path,
    /// watch it recursively if it becomes recursive and is a directory, and record `mode`.
    Upgrade { start_tracking: bool, become_recursive: bool, mode: WatchMode },
    /// A new root that tracks its path: watch it through its ancestors.
    Track,
    /// A new root that does not track its path: watch it as it is now.
    Watch,
}

/// What installing a watch with `mode` over `existing` asks for.
pub open spec fn add_watch_plan(existing: Option<RootWatch>, mode: WatchMode) -> AddWatchPlan {
    match existing {
        Some(root) => AddWatchPlan::Upgrade {
            start_tracking: root.mode.target_mode == TargetMode::NoTrack && mode.target_mode == TargetMode::TrackPath,
            become_recursive: root.mode.recursive_mode == RecursiveMode::NonRecursive
                && mode.recursive_mode == RecursiveMode::Recursive,
            mode: crate::config::watch_mode_join(root.mode, mode),
        },
        None => if mode.target_mode == TargetMode::TrackPath {
            AddWatchPlan::Track
        } else {
            AddWatchPlan::Watch
        },
    }
}

/// A watch of a path that is a root already never narrows it: the plan keeps the path a root,
/// with a mode that covers both the mode the root had and the one asked for, and nothing that
/// neither of them covers; it starts tracking the path exactly when the root did not track it
/// and the new watch does, and becomes recursive exactly when the root was not recursive and
/// the new watch is.
pub proof fn lemma_rewatch_plan_widens(existing: RootWatch, mode: WatchMode)
    ensures
        add_watch_plan(Some(existing), mode) matches AddWatchPlan::Upgrade { start_tracking, become_recursive, mode: m }
            && watch_mode_covers(m, existing.mode)
            && watch_mode_covers(m, mode)
            && (forall|c: WatchMode| watch_mode_covers(c, existing.mode) && watch_mode_covers(c, mode) ==> #[trigger] watch_mode_covers(c, m))
            && start_tracking == (existing.mode.target_mode != TargetMode::TrackPath && mode.target_mode == TargetMode::TrackPath)
            && become_recursive == (existing.mode.recursive_mode != RecursiveMode::Recursive && mode.recursive_mode == RecursiveMode::Recursive),
{
}

/// What installing a watch of `path` with `mode` asks for (see [`add_watch_plan`]).
pub fn plan_add_watch(watches: &Vec<(String, RootWatch)>, path: &String, mode: WatchMode) -> (r: AddWatchPlan)
    ensures
        r == add_watch_plan(lookup(table_view(watches@), path@), mode),
{
    match find_root(watches, path) {
        Some(existing) => {
            let start_tracking = match existing.mode.target_mode {
                TargetMode::TrackPath => false,
                TargetMode::NoTrack => mode.target_mode == TargetMode::TrackPath,
            };
            let become_recursive = match existing.mode.recursive_mode {
                RecursiveMode::Recursive => false,
                RecursiveMode::NonRecursive => mode.recursive_mode == RecursiveMode::Recursive,
            };
            let mut upgraded = existing.mode;
            upgraded.upgrade_with(mode);
            AddWatchPlan::Upgrade { start_tracking, become_recursive, mode: upgraded }
        },
        None => {
            if mode.target_mode == TargetMode::TrackPath {
                AddWatchPlan::Track
            } else {
                AddWatchPlan::Watch
            }
        },
    }
}

/// Records `mode` for the root at `path`.
pub fn set_mode(watches: &mut Vec<(String, RootWatch)>, path: &String, mode: WatchMode)
    ensures
        table_view(final(watches)@) == table_view(old(watches)@).map_values(
            |e: (Seq<char>, RootWatch)| if e.0 == path@ { (e.0, RootWatch { mode, ..e.1 }) } else { e }),
{
    let ghost t0 = table_view(old(watches)@);
    let mut i: usize = 0;
    while i < watches.len()
        invariant
            i <= watches@.len(),
            watches@.len() == old(watches)@.len(),
            t0 == table_view(old(watches)@),
            forall|j: int| 0 <= j < i ==> (#[trigger] table_view(watches@)[j])
                == (if t0[j].0 == path@ { (t0[j].0, RootWatch { mode, ..t0[j].1 }) } else { t0[j] }),
            forall|j: int| i <= j < watches@.len() ==> #[trigger] watches@[j] == old(watches)@[j],
        decreases watches@.len() - i,
    {
        let ghost before = watches@;
        assert(t0[i as int] == (before[i as int].0@, before[i as int].1));
        if same_path(&watches[i].0, path) {
            let key = watches[i].0.clone();
            let mut entry = watches[i].1;
            entry.mode = mode;
            watches.set(i, (key, entry));
        }
        assert forall|j: int| 0 <= j < i + 1 implies #[trigger] table_view(watches@)[j]
            == (if t0[j].0 == path@ { (t0[j].0, RootWatch { mode, ..t0[j].1 }) } else { t0[j] }) by {
            if j < i {
                assert(table_view(watches@)[j] == table_view(before)[j]);
            }
        }
        i = i + 1;
    }
    assert(table_view(watches@) =~= t0.map_values(
        |e: (Seq<char>, RootWatch)| if e.0 == path@ { (e.0, RootWatch { mode, ..e.1 }) } else { e }));
}

/// Forgets the root at `path`, returning what was recorded of it; `None` when the path is not
/// a root, which a removal reports as a watch that does not exist.
pub fn remove_root(watches: &mut Vec<(String, RootWatch)>, path: &String) -> (r: Option<RootWatch>)
    ensures
        r == lookup(table_view(old(watches)@), path@),
        table_view(final(watches)@) == table_view(old(watches)@).filter(|e: (Seq<char>, RootWatch)| e.0 != path@),
{
    let found = find_root(watches, path);
    let ghost t0 = table_view(old(watches)@);
    let ghost keep = |e: (Seq<char>, RootWatch)| e.0 != path@;
    let mut kept: Vec<(String, RootWatch)> = Vec::new();
    let mut i: usize = 0;
    while i < watches.len()
        invariant
            i <= watches@.len(),
            watches@ == old(watches)@,
            t0 == table_view(old(watches)@),
            keep == (|e: (Seq<char>, RootWatch)| e.0 != path@),
            table_view(kept@) == t0.take(i as int).filter(keep),
        decreases watches@.len() - i,
    {
        proof {
            t0.take(i as int).lemma_filter_push(t0[i as int], keep);
            assert(t0.take(i + 1) =~= t0.take(i as int).push(t0[i as int]));
        }
        if !same_path(&watches[i].0, path) {
            kept.push((watches[i].0.clone(), watches[i].1));
            assert(table_view(kept@) =~= t0.take(i as int).filter(keep).push(t0[i as int]));
        }
        i = i + 1;
    }
    assert(t0.take(i as int) =~= t0);
    *watches = kept;
    found
}

/// Records the new root `path`; a path that is a root already is replaced.
pub fn insert_root(watches: &mut Vec<(String, RootWatch)>, path: String, root: RootWatch)
    ensures
        table_view(final(watches)@) == table_view(old(watches)@).filter(|e: (Seq<char>, RootWatch)| e.0 != path@).push((path@, root)),
        lookup(table_view(final(watches)@), path@) == Some(root),
{
    remove_root(watches, &path);
    let ghost t1 = table_view(watches@);
    watches.push((path, root));
    assert(table_view(watches@) =~= t1.push((path@, root)));
    proof {
        lemma_lookup_after_push_absent(t1, path@, root);
    }
}

/// Looking up a path that a table does not hold, after it is appended, finds what was
/// appended.
proof fn lemma_lookup_after_push_absent(t: Seq<(Seq<char>, RootWatch)>, p: Seq<char>, root: RootWatch)
    requires
        forall|i: int| 0 <= i < t.len() ==> (#[trigger] t[i]).0 != p,
    ensures
        lookup(t.push((p, root)), p) == Some(root),
    decreases t.len(),
{
    if t.len() > 0 {
        assert(t.push((p, root)).drop_first() =~= t.drop_first().push((p, root)));
        lemma_lookup_after_push_absent(t.drop_first(), p, root);
    }
}


/// Setting the state of a root finds the same roots, with the same modes.
proof fn lemma_lookup_after_set_state(t: Seq<(Seq<char>, RootWatch)>, p: Seq<char>, st: RootState, q: Seq<char>)
    ensures
        (lookup(set_state_spec(t, p, st), q) is Some) == (lookup(t, q) is Some),
        lookup(t, q) is Some ==> lookup(set_state_spec(t, p, st), q).unwrap().mode == lookup(t, q).unwrap().mode,
    decreases t.len(),
{
    if t.len() > 0 {
        assert(set_state_spec(t, p, st).drop_first() =~= set_state_spec(t.drop_first(), p, st));
        lemma_lookup_after_set_state(t.drop_first(), p, st, q);
    }
}

/// Setting the state of a root leaves the recursive roots above a path as they were.
proof fn lemma_recursive_above_after_set_state(t: Seq<(Seq<char>, RootWatch)>, p: Seq<char>, st: RootState, q: Seq<char>)
    ensures
        recursive_root_above(set_state_spec(t, p, st), q) == recursive_root_above(t, q),
    decreases q.len(),
{
    if let Some(r) = path_parent(q) {
        if r.len() < q.len() {
            lemma_lookup_after_set_state(t, p, st, r);
            lemma_recursive_above_after_set_state(t, p, st, r);
        }
    }
}

/// A change of a root's state never changes which paths are watched: what is reported
/// depends on the roots and their modes alone.
pub proof fn lemma_watched_after_set_state(t: Seq<(Seq<char>, RootWatch)>, p: Seq<char>, st: RootState, q: Seq<char>)
    ensures
        watched(set_state_spec(t, p, st), q) == watched(t, q),
{
    lemma_lookup_after_set_state(t, p, st, q);
    if let Some(r) = path_parent(q) {
        lemma_lookup_after_set_state(t, p, st, r);
        lemma_recursive_above_after_set_state(t, p, st, r);
    }
}


/// The strict ancestors of `root`, from the top down: the directories to watch, in order, so
/// that `root` is seen to come and go. The last one is the parent of `root`; a path without a
/// parent has none.
pub fn chain_ancestors(root: &String) -> (r: Vec<String>)
    ensures
        strs_view(r@) == ancestors_of(root@).reverse(),
{
    let mut up: Vec<String> = Vec::new();
    let mut cur = root.clone();
    loop
        invariant
            ancestors_of(root@) == strs_view(up@) + ancestors_of(cur@),
        ensures
            strs_view(up@) == ancestors_of(root@),
        decreases cur@.len(),
    {
        match parent(cur.as_str()) {
            Some(q) => {
                let ghost before = strs_view(up@);
                assert(ancestors_of(cur@) == seq![q@] + ancestors_of(q@));
                up.push(q.clone());
                assert(strs_view(up@) =~= before.push(q@));
                assert(before + (seq![q@] + ancestors_of(q@)) =~= before.push(q@) + ancestors_of(q@));
                cur = q;
            },
            None => {
                assert(ancestors_of(cur@) =~= Seq::<Seq<char>>::empty());
                assert(strs_view(up@) + ancestors_of(cur@) =~= strs_view(up@));
                break;
            },
        }
    }
    let ghost nearest = strs_view(up@);
    let mut down: Vec<String> = Vec::new();
    let mut i: usize = up.len();
    while i > 0
        invariant
            i <= up@.len(),
            nearest == strs_view(up@),
            strs_view(down@) == nearest.subrange(i as int, nearest.len() as int).reverse(),
        decreases i,
    {
        let ghost before = strs_view(down@);
        i = i - 1;
        down.push(up[i].clone());
        assert(strs_view(down@) =~= before.push(nearest[i as int]));
        assert(nearest.subrange(i as int, nearest.len() as int).reverse()
            =~= nearest.subrange(i + 1, nearest.len() as int).reverse().push(nearest[i as int]));
    }
    assert(nearest.subrange(0, nearest.len() as int) =~= nearest);
    down
}

/// The state of a tracked root after it was armed: missing when the chain of its ancestors
/// does not reach it (`chain_reached` is false) or it does not exist, present as what reading
/// its metadata says otherwise; any other error of reading the metadata is returned.
pub fn arm_root_state(chain_reached: bool, metadata: Result<EntryKind, Error>) -> (r: Result<RootState, Error>)
    ensures
        !chain_reached ==> r == Ok::<RootState, Error>(RootState::Missing),
        chain_reached ==> match metadata {
            Ok(k) => r == Ok::<RootState, Error>(if k == EntryKind::Dir { RootState::Directory } else { RootState::File }),
            Err(e) => if e.kind is PathNotFound { r == Ok::<RootState, Error>(RootState::Missing) } else { r == Err::<RootState, Error>(e) },
        },
{
    if !chain_reached {
        return Ok(RootState::Missing);
    }
    match metadata {
        Ok(EntryKind::Dir) => Ok(RootState::Directory),
        Ok(_) => Ok(RootState::File),
        Err(e) => {
            let not_found = match e.kind {
                ErrorKind::PathNotFound => true,
                _ => false,
            };
            if not_found {
                Ok(RootState::Missing)
            } else {
                Err(e)
            }
        },
    }
}

/// The paths of `ps` that lie at or below `path`, in order.
pub open spec fn paths_below_spec(ps: Seq<Seq<char>>, path: Seq<char>) -> Seq<Seq<char>> {
    ps.filter(|p: Seq<char>| path_starts_with(p, path))
}

/// The watched paths of `handles` that lie at or below `path`: the watches to drop once
/// `path` went away.
pub fn paths_below(handles: &Vec<String>, path: &String) -> (r: Vec<String>)
    ensures
        strs_view(r@) == paths_below_spec(strs_view(handles@), path@),
{
    let ghost ps = strs_view(handles@);
    let ghost keep = |p: Seq<char>| path_starts_with(p, path@);
    let mut out: Vec<String> = Vec::new();
    let mut i: usize = 0;
    while i < handles.len()
        invariant
            i <= handles@.len(),
            ps == strs_view(handles@),
            keep == (|p: Seq<char>| path_starts_with(p, path@)),
            strs_view(out@) == ps.take(i as int).filter(keep),
        decreases handles@.len() - i,
    {
        proof {
            ps.take(i as int).lemma_filter_push(ps[i as int], keep);
            assert(ps.take(i + 1) =~= ps.take(i as int).push(ps[i as int]));
        }
        if starts_with(handles[i].as_str(), path.as_str()) {
            let ghost before = strs_view(out@);
            out.push(handles[i].clone());
            assert(strs_view(out@) =~= before.push(ps[i as int]));
        }
        i = i + 1;
    }
    assert(ps.take(i as int) =~= ps);
    out
}

/// Whether the ancestor `a`, which no tracked root needs any more, keeps its watch: it is a
/// root itself, or lies below a recursive root.
pub open spec fn keeps_watch(t: Seq<(Seq<char>, RootWatch)>, a: Seq<char>) -> bool {
    lookup(t, a) is Some || exists|i: int| 0 <= i < t.len() && {
        let e = #[trigger] t[i];
        e.1.mode.recursive_mode == RecursiveMode::Recursive && e.0 != a && path_starts_with(a, e.0)
    }
}

/// The ancestors of `forgotten`, which no tracked root needs any more, whose watches are
/// dropped: those that do not keep their watch (see [`keeps_watch`]), in order.
pub fn forgotten_watches_to_drop(watches: &Vec<(String, RootWatch)>, forgotten: &Vec<String>) -> (r: Vec<String>)
    ensures
        strs_view(r@) == strs_view(forgotten@).filter(|a: Seq<char>| !keeps_watch(table_view(watches@), a)),
{
    let ghost fs = strs_view(forgotten@);
    let ghost keep = |a: Seq<char>| !keeps_watch(table_view(watches@), a);
    let mut out: Vec<String> = Vec::new();
    let mut i: usize = 0;
    while i < forgotten.len()
        invariant
            i <= forgotten@.len(),
            fs == strs_view(forgotten@),
            keep == (|a: Seq<char>| !keeps_watch(table_view(watches@), a)),
            strs_view(out@) == fs.take(i as int).filter(keep),
        decreases forgotten@.len() - i,
    {
        proof {
            fs.take(i as int).lemma_filter_push(fs[i as int], keep);
            assert(fs.take(i + 1) =~= fs.take(i as int).push(fs[i as int]));
        }
        let a = &forgotten[i];
        if !contains_root(watches, a) && !is_below_recursive_root(watches, a) {
            let ghost before = strs_view(out@);
            out.push(a.clone());
            assert(strs_view(out@) =~= before.push(fs[i as int]));
        }
        i = i + 1;
    }
    assert(fs.take(i as int) =~= fs);
    out
}

} // verus!
