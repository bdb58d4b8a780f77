//! The ReadDirectoryChangesW backend: the records that the system writes into a read buffer,
//! the normal form of the paths they name, and the decisions that the backend takes on them.

use crate::assoc::{
    assoc_get, assoc_index, assoc_insert, assoc_map, assoc_remove, assoc_view, keys_distinct, lemma_assoc_get_absent,
    lemma_assoc_get_push,
};
use crate::config::{lemma_upgrade_is_least_upper_bound, watch_mode_covers, watch_mode_join, RecursiveMode, TargetMode, WatchMode};
use crate::error::{Error, ErrorKind};
use crate::fs_event::{CreateKind, Event, EventKind, ModifyKind, RemoveKind, RenameMode};
use crate::inotify::{event_on, events_view, on, push_event_if, push_if, strs_view, EventView};
use crate::path_ops::{parent, path_parent, path_starts_with, same_path, starts_with};
use crate::ancestors::ancestors_of;
use crate::paths::EntryKind;
use crate::watch_table::chain_ancestors;
use vstd::prelude::*;

verus! {

/// A file was added to the directory.
pub const FILE_ACTION_ADDED: u32 = 1;
/// A file was removed from the directory.
pub const FILE_ACTION_REMOVED: u32 = 2;
/// A file was modified.
pub const FILE_ACTION_MODIFIED: u32 = 3;
/// A file was renamed; this is its old name.
pub const FILE_ACTION_RENAMED_OLD_NAME: u32 = 4;
/// A file was renamed; this is its new name.
pub const FILE_ACTION_RENAMED_NEW_NAME: u32 = 5;

/// A read completed.
pub const ERROR_SUCCESS: u32 = 0;
/// A read was refused: the directory may be gone.
pub const ERROR_ACCESS_DENIED: u32 = 5;
/// A read was cancelled: the directory is unwatched, or the watcher stops.
pub const ERROR_OPERATION_ABORTED: u32 = 995;

/// The offset of a file position, in two halves.
#[allow(non_camel_case_types, non_snake_case)]
#[derive(Copy, Clone, Debug)]
pub struct OVERLAPPED_0_0 {
    pub Offset: u32,
    pub OffsetHigh: u32,
}

/// The fixed part of a change record: the offset of the next record (0 for the last one), the
/// action, the length of the file name in bytes, and the first unit of the name.
#[allow(non_camel_case_types, non_snake_case)]
#[derive(Copy, Clone, Debug)]
pub struct FILE_NOTIFY_INFORMATION {
    pub NextEntryOffset: u32,
    pub Action: u32,
    pub FileNameLength: u32,
    pub FileName: [u16; 1],
}

/// The size of the fixed part of a change record before its name.
pub const NOTIFY_HEADER_LEN: usize = 12;

/// The UTF-16 unit of `/`.
pub const SLASH: u16 = 0x2f;
/// The UTF-16 unit of `\`.
pub const BACKSLASH: u16 = 0x5c;
/// The UTF-16 unit of `?`.
pub const QUESTION_MARK: u16 = 0x3f;
/// The UTF-16 unit of `.`.
pub const DOT: u16 = 0x2e;

/// Whether `c` separates path components.
pub open spec fn is_separator(c: u16) -> bool {
    c == SLASH || c == BACKSLASH
}

/// The length of a `\\?\` or `\\.\` namespace prefix at the start of `p` (either separator),
/// or 0 when there is none.
pub open spec fn namespace_prefix_len(p: Seq<u16>) -> nat {
    if p.len() >= 4 && is_separator(p[0]) && is_separator(p[1]) && (p[2] == QUESTION_MARK || p[2] == DOT)
        && is_separator(p[3]) {
        4
    } else {
        0
    }
}

/// `p` with every separator after its namespace prefix written as `\`.
pub open spec fn normalized_separators(p: Seq<u16>) -> Seq<u16> {
    Seq::new(p.len(), |i: int| if i >= namespace_prefix_len(p) && is_separator(p[i]) { BACKSLASH } else { p[i] })
}

fn is_separator_exec(c: u16) -> (r: bool)
    ensures
        r == is_separator(c),
{
    c == SLASH || c == BACKSLASH
}

/// The length of the namespace prefix of `path` (see [`namespace_prefix_len`]).
pub fn windows_namespace_prefix_len(path: &[u16]) -> (r: usize)
    ensures
        r == namespace_prefix_len(path@),
{
    if path.len() >= 4 && is_separator_exec(path[0]) && is_separator_exec(path[1])
        && (path[2] == QUESTION_MARK || path[2] == DOT) && is_separator_exec(path[3]) {
        4
    } else {
        0
    }
}

/// `path`, as UTF-16 units, with every separator after its namespace prefix written as `\`.
pub fn normalize_path_separators(path: Vec<u16>) -> (r: Vec<u16>)
    ensures
        r@ == normalized_separators(path@),
{
    let mut encoded = path;
    let prefix_len = windows_namespace_prefix_len(encoded.as_slice());
    let ghost p = encoded@;
    let mut i: usize = prefix_len;
    while i < encoded.len()
        invariant
            prefix_len == namespace_prefix_len(p),
            prefix_len <= i <= encoded@.len() || encoded@.len() < prefix_len,
            encoded@.len() == p.len(),
            forall|j: int| 0 <= j < i && j < p.len() ==> #[trigger] encoded@[j] == normalized_separators(p)[j],
            forall|j: int| i <= j < p.len() ==> #[trigger] encoded@[j] == p[j],
        decreases encoded@.len() - i,
    {
        if is_separator_exec(encoded[i]) {
            encoded.set(i, BACKSLASH);
        }
        i = i + 1;
    }
    assert(encoded@ =~= normalized_separators(p));
    encoded
}

/// Normalizing the separators of a path twice gives what normalizing them once gives.
pub proof fn lemma_normalize_idempotent(p: Seq<u16>)
    ensures
        normalized_separators(normalized_separators(p)) == normalized_separators(p),
{
    let n = normalized_separators(p);
    assert(namespace_prefix_len(n) == namespace_prefix_len(p));
    assert(normalized_separators(n) =~= n);
}

/// After normalization, no `/` is left after the namespace prefix, and the prefix and the
/// length are those of the input.
pub proof fn lemma_normalize_leaves_backslashes(p: Seq<u16>)
    ensures
        normalized_separators(p).len() == p.len(),
        namespace_prefix_len(normalized_separators(p)) == namespace_prefix_len(p),
        forall|i: int| namespace_prefix_len(p) <= i < p.len() ==> #[trigger] normalized_separators(p)[i] != SLASH,
        forall|i: int| 0 <= i < namespace_prefix_len(p) ==> #[trigger] normalized_separators(p)[i] == p[i],
{
}


/// The little-endian 32-bit number at `off` in `b`.
pub open spec fn le_u32(b: Seq<u8>, off: int) -> int {
    b[off] + 256 * b[off + 1] + 65536 * b[off + 2] + 16777216 * b[off + 3]
}

/// The `n` little-endian UTF-16 units at `off` in `b`.
pub open spec fn le_units(b: Seq<u8>, off: int, n: nat) -> Seq<u16> {
    Seq::new(n, |i: int| (b[off + 2 * i] + 256 * b[off + 2 * i + 1]) as u16)
}

/// One change record: its action and the name it concerns, relative to the watched directory.
#[derive(Clone, Debug)]
pub struct NotifyRecord {
    pub action: u32,
    pub name: Vec<u16>,
}

/// The records of `b` from the one at `off` on, following the offsets to the next record until
/// one is 0; none when a record, or the offset to the next one, runs past the end of `b`.
pub open spec fn notify_records(b: Seq<u8>, off: int) -> Option<Seq<(u32, Seq<u16>)>>
    decreases b.len() - off,
{
    if off < 0 || off + NOTIFY_HEADER_LEN > b.len() {
        None
    } else {
        let next = le_u32(b, off);
        let units = (le_u32(b, off + 8) / 2) as nat;
        if off + NOTIFY_HEADER_LEN + 2 * units > b.len() {
            None
        } else {
            let rec = (le_u32(b, off + 4) as u32, le_units(b, off + NOTIFY_HEADER_LEN, units));
            if next == 0 {
                Some(seq![rec])
            } else if off + next + NOTIFY_HEADER_LEN > b.len() {
                None
            } else {
                match notify_records(b, off + next) {
                    Some(rest) => Some(seq![rec] + rest),
                    None => None,
                }
            }
        }
    }
}

/// The records of a list, as plain values.
pub open spec fn records_view(rs: Seq<NotifyRecord>) -> Seq<(u32, Seq<u16>)> {
    rs.map_values(|r: NotifyRecord| (r.action, r.name@))
}

/// The little-endian 32-bit number at `off` in `buf`.
fn read_le_u32(buf: &[u8], off: usize) -> (r: u32)
    requires
        off + 4 <= buf@.len(),
    ensures
        r == le_u32(buf@, off as int),
{
    (buf[off] as u32) + (buf[off + 1] as u32) * 256 + (buf[off + 2] as u32) * 65536 + (buf[off + 3] as u32) * 16777216
}

/// The `n` little-endian UTF-16 units at `off` in `buf`.
fn read_units(buf: &[u8], off: usize, n: usize) -> (r: Vec<u16>)
    requires
        off + 2 * n <= buf@.len(),
    ensures
        r@ == le_units(buf@, off as int, n as nat),
{
    let mut out: Vec<u16> = Vec::new();
    let len = buf.len();
    let mut i: usize = 0;
    while i < n
        invariant
            i <= n,
            len == buf@.len(),
            off + 2 * n <= buf@.len(),
            out@ == le_units(buf@, off as int, i as nat),
        decreases n - i,
    {
        let p = off + 2 * i;
        let unit: u16 = (buf[p] as u16) + (buf[p + 1] as u16) * 256;
        out.push(unit);
        assert(out@ =~= le_units(buf@, off as int, (i + 1) as nat));
        i = i + 1;
    }
    out
}

/// Reads the change records that a completed read left in `buf`, the first at its start (see
/// [`notify_records`]). Where the system wrote them, each record lies inside the buffer and
/// `Some` comes back; a record that runs past the end gives `None`.
pub fn parse_notify_records(buf: &[u8]) -> (r: Option<Vec<NotifyRecord>>)
    ensures
        match r {
            Some(rs) => notify_records(buf@, 0) == Some(records_view(rs@)),
            None => notify_records(buf@, 0) is None,
        },
{
    let mut out: Vec<NotifyRecord> = Vec::new();
    let mut off: usize = 0;
    loop
        invariant
            off <= buf@.len(),
            notify_records(buf@, 0) == match notify_records(buf@, off as int) {
                Some(rest) => Some(records_view(out@) + rest),
                None => None::<Seq<(u32, Seq<u16>)>>,
            },
        decreases buf@.len() - off,
    {
        let len = buf.len();
        if len - off < NOTIFY_HEADER_LEN {
            return None;
        }
        let next = read_le_u32(buf, off);
        let action = read_le_u32(buf, off + 4);
        let name_len = read_le_u32(buf, off + 8);
        let units = (name_len / 2) as usize;
        if units > (len - off - NOTIFY_HEADER_LEN) / 2 {
            return None;
        }
        let name = read_units(buf, off + NOTIFY_HEADER_LEN, units);
        let ghost before = records_view(out@);
        out.push(NotifyRecord { action, name });
        assert(records_view(out@) =~= before.push((action, name@)));
        if next == 0 {
            assert(before + seq![(action, name@)] =~= records_view(out@));
            return Some(out);
        }
        if next as usize > len - off - NOTIFY_HEADER_LEN {
            return None;
        }
        proof {
            let rec = (action, name@);
            if let Some(rest) = notify_records(buf@, off + next) {
                assert(before + (seq![rec] + rest) =~= records_view(out@) + rest);
            }
        }
        off = off + next as usize;
    }
}


/// The directories that a user watch needs: the one to read for its content, with whether the
/// user asked for the subtree (none while the path is missing), and whether the watch also
/// needs its parent read, to see the path itself renamed or deleted.
#[derive(Clone, Debug)]
pub struct ResolvedWatch {
    pub primary: Option<(String, bool)>,
    pub needs_tracked_parent: bool,
}

impl ResolvedWatch {
    /// A copy of this resolution.
    fn clone_resolved(&self) -> (r: ResolvedWatch)
        ensures
            r == *self,
    {
        ResolvedWatch {
            primary: match &self.primary {
                Some((d, rec)) => Some((d.clone(), *rec)),
                None => None,
            },
            needs_tracked_parent: self.needs_tracked_parent,
        }
    }
}

/// The directory read for a watched file: its parent, or the path itself when it has none.
pub open spec fn file_watch_dir(p: Seq<char>) -> Seq<char> {
    match path_parent(p) {
        Some(q) => q,
        None => p,
    }
}

/// The resolved coverage of a user watch, as plain values.
pub ghost struct ResolvedView {
    pub primary: Option<(Seq<char>, bool)>,
    pub needs_tracked_parent: bool,
}

impl View for ResolvedWatch {
    type V = ResolvedView;

    open spec fn view(&self) -> ResolvedView {
        ResolvedView {
            primary: match self.primary {
                Some(d) => Some((d.0@, d.1)),
                None => None,
            },
            needs_tracked_parent: self.needs_tracked_parent,
        }
    }
}

/// How the watch of `path` with `mode` resolves, given what reading its metadata gave: a
/// directory is read itself, and its parent too when the path is tracked; a file is read
/// through its parent; a tracked path that does not exist waits to be read once it appears.
/// Anything else does not resolve.
pub open spec fn resolution(path: Seq<char>, mode: WatchMode, metadata: Result<EntryKind, Error>) -> Option<ResolvedView> {
    let rec = mode.recursive_mode == RecursiveMode::Recursive;
    let track = mode.target_mode == TargetMode::TrackPath;
    match metadata {
        Ok(EntryKind::Dir) => Some(ResolvedView { primary: Some((path, rec)), needs_tracked_parent: track }),
        Ok(EntryKind::File) => Some(ResolvedView { primary: Some((file_watch_dir(path), rec)), needs_tracked_parent: false }),
        Ok(EntryKind::Other) => None,
        Err(e) => if track && e.kind is PathNotFound {
            Some(ResolvedView { primary: None, needs_tracked_parent: true })
        } else {
            None
        },
    }
}

/// The error that a watch of `path` that does not resolve gives: the error of reading its
/// metadata, or, for a path that is neither a file nor a directory, a generic error on the path.
pub open spec fn resolve_error(e: Error, path: Seq<char>, metadata: Result<EntryKind, Error>) -> bool {
    match metadata {
        Err(e0) => e == e0,
        Ok(_) => e.kind matches ErrorKind::Generic(m) && m@ == "Input watch path is neither a file nor a directory."@
            && e.paths@.len() == 1 && e.paths@[0]@ == path,
    }
}

/// Resolves the watch of `path` with `mode`, given what reading its metadata gave (see
/// [`resolution`]); a watch that does not resolve gives its error (see [`resolve_error`]).
pub fn resolve_user_watch(path: &String, mode: WatchMode, metadata: Result<EntryKind, Error>) -> (r: Result<ResolvedWatch, Error>)
    ensures
        match resolution(path@, mode, metadata) {
            Some(v) => r matches Ok(w) && w@ == v,
            None => r matches Err(e) && resolve_error(e, path@, metadata),
        },
{
    let is_track_path = match mode.target_mode {
        TargetMode::TrackPath => true,
        TargetMode::NoTrack => false,
    };
    match metadata {
        Ok(EntryKind::Dir) => Ok(ResolvedWatch {
            primary: Some((path.clone(), mode.recursive_mode.is_recursive())),
            needs_tracked_parent: is_track_path,
        }),
        Ok(EntryKind::File) => {
            let dir = match parent(path.as_str()) {
                Some(q) => q,
                None => path.clone(),
            };
            Ok(ResolvedWatch { primary: Some((dir, mode.recursive_mode.is_recursive())), needs_tracked_parent: false })
        },
        Ok(EntryKind::Other) => Err(Error::generic("Input watch path is neither a file nor a directory.").add_path(path.clone())),
        Err(e) => {
            let not_found = match e.kind {
                ErrorKind::PathNotFound => true,
                _ => false,
            };
            if is_track_path && not_found {
                Ok(ResolvedWatch { primary: None, needs_tracked_parent: true })
            } else {
                Err(e)
            }
        },
    }
}

/// Whether some resolved watch reads `target` recursively, or reads a directory strictly
/// below it.
pub open spec fn needs_recursive(target: Seq<char>, resolved: Seq<(Seq<char>, ResolvedWatch)>) -> bool {
    exists|i: int| 0 <= i < resolved.len() && ((#[trigger] resolved[i]).1.primary matches Some(d)
        && ((d.0@ == target && d.1) || (d.0@ != target && path_starts_with(d.0@, target))))
}

/// Whether the directory read at `target_path` must cover its subtree: some resolved watch
/// reads it recursively, or reads a directory strictly below it.
pub fn compute_recursive_flag(target_path: &String, resolved_watches: &Vec<(String, ResolvedWatch)>) -> (r: bool)
    ensures
        r == needs_recursive(target_path@, assoc_view(resolved_watches@)),
{
    let ghost t = assoc_view(resolved_watches@);
    let mut i: usize = 0;
    while i < resolved_watches.len()
        invariant
            i <= resolved_watches@.len(),
            t == assoc_view(resolved_watches@),
            forall|j: int| 0 <= j < i ==> !((#[trigger] t[j]).1.primary matches Some(d)
                && ((d.0@ == target_path@ && d.1) || (d.0@ != target_path@ && path_starts_with(d.0@, target_path@)))),
        decreases resolved_watches@.len() - i,
    {
        assert(t[i as int] == (resolved_watches@[i as int].0@, resolved_watches@[i as int].1));
        if let Some((dir, is_rec)) = &resolved_watches[i].1.primary {
            let at_target = same_path(dir, target_path);
            if (at_target && *is_rec) || (!at_target && starts_with(dir.as_str(), target_path.as_str())) {
                return true;
            }
        }
        i = i + 1;
    }
    false
}

/// Whether an event on `p`, `depth` levels below the path the search started from, is covered:
/// a user watch at `p` covers it when `depth` is at most 1 (the path itself or a direct child)
/// or when the watch is recursive; otherwise the search goes on at the parent of `p`.
pub open spec fn covered_from(t: Seq<(Seq<char>, WatchMode)>, p: Seq<char>, depth: nat) -> bool
    decreases p.len(),
{
    (assoc_get(t, p) matches Some(m) && (depth <= 1 || m.recursive_mode == RecursiveMode::Recursive))
        || match path_parent(p) {
        Some(q) => q.len() < p.len() && covered_from(t, q, depth + 1),
        None => false,
    }
}

/// Whether an event on `p` is covered by a user watch (see [`covered_from`]).
pub open spec fn covered(t: Seq<(Seq<char>, WatchMode)>, p: Seq<char>) -> bool {
    covered_from(t, p, 0)
}

/// Whether an event on `event_path` is covered by a user watch: one at the path or at its
/// parent, or a recursive one further up.
pub fn is_event_covered(watches: &Vec<(String, WatchMode)>, event_path: &String) -> (r: bool)
    ensures
        r == covered(assoc_view(watches@), event_path@),
{
    let ghost t = assoc_view(watches@);
    let mut cur = event_path.clone();
    let ghost mut depth: nat = 0;
    let mut near: bool = true;
    let mut is_self: bool = true;
    loop
        invariant
            t == assoc_view(watches@),
            near == (depth <= 1),
            is_self == (depth == 0),
            covered(t, event_path@) == covered_from(t, cur@, depth),
        decreases cur@.len(),
    {
        let here = match assoc_index(watches, &cur) {
            Some(i) => near || watches[i].1.recursive_mode.is_recursive(),
            None => false,
        };
        if here {
            return true;
        }
        match parent(cur.as_str()) {
            Some(q) => {
                cur = q;
                proof {
                    depth = depth + 1;
                }
                near = is_self;
                is_self = false;
            },
            None => {
                return false;
            },
        }
    }
}

/// What a completed read asks for.
#[derive(Clone, Debug)]
pub enum Completion {
    /// The read was cancelled: nothing more is read from this directory.
    Stop,
    /// The directory's handle is given up, after reporting the event, if any.
    Unwatch(Option<Event>),
    /// The records are read and the next read is queued.
    Read,
}

/// What a read of `dir` that completed with `error_code` asks for: a cancelled read stops; a
/// refused read of a directory that is gone gives the handle up, reporting the directory
/// removed when it is an untracked user watch; a refused read of a directory that is still
/// there, and a read that succeeded, are read; any other error gives the handle up.
/// `dir_exists` is whether `dir` exists now.
pub fn completion_action(error_code: u32, dir_exists: bool, watches: &Vec<(String, WatchMode)>, dir: &String) -> (r: Completion)
    ensures
        error_code == ERROR_OPERATION_ABORTED ==> r is Stop,
        error_code == ERROR_ACCESS_DENIED && !dir_exists ==> (r matches Completion::Unwatch(ev) && match ev {
            Some(e) => (e.head(), crate::fs_event::paths_view(e.paths@)) == on(EventKind::Remove(RemoveKind::Any), dir@)
                && (assoc_get(assoc_view(watches@), dir@) matches Some(m) && m.target_mode == TargetMode::NoTrack),
            None => !(assoc_get(assoc_view(watches@), dir@) matches Some(m) && m.target_mode == TargetMode::NoTrack),
        }),
        (error_code == ERROR_ACCESS_DENIED && dir_exists) || error_code == ERROR_SUCCESS ==> r is Read,
        error_code != ERROR_OPERATION_ABORTED && error_code != ERROR_ACCESS_DENIED && error_code != ERROR_SUCCESS
            ==> (r matches Completion::Unwatch(ev) && ev is None),
{
    if error_code == ERROR_OPERATION_ABORTED {
        Completion::Stop
    } else if error_code == ERROR_ACCESS_DENIED {
        if dir_exists {
            Completion::Read
        } else {
            let untracked = match assoc_index(watches, dir) {
                Some(i) => match watches[i].1.target_mode {
                    TargetMode::NoTrack => true,
                    TargetMode::TrackPath => false,
                },
                None => false,
            };
            if untracked {
                Completion::Unwatch(Some(event_on(EventKind::Remove(RemoveKind::Any), dir)))
            } else {
                Completion::Unwatch(None)
            }
        }
    } else if error_code == ERROR_SUCCESS {
        Completion::Read
    } else {
        Completion::Unwatch(None)
    }
}


/// The kind of event that a record with `action` reports, if any.
pub open spec fn record_kind(action: u32) -> Option<EventKind> {
    if action == FILE_ACTION_RENAMED_OLD_NAME {
        Some(EventKind::Modify(ModifyKind::Name(RenameMode::From)))
    } else if action == FILE_ACTION_RENAMED_NEW_NAME {
        Some(EventKind::Modify(ModifyKind::Name(RenameMode::To)))
    } else if action == FILE_ACTION_ADDED {
        Some(EventKind::Create(CreateKind::Any))
    } else if action == FILE_ACTION_REMOVED {
        Some(EventKind::Remove(RemoveKind::Any))
    } else if action == FILE_ACTION_MODIFIED {
        Some(EventKind::Modify(ModifyKind::Any))
    } else {
        None
    }
}

/// Whether a record with `action` says that a path came or went.
pub open spec fn is_structural(action: u32) -> bool {
    action == FILE_ACTION_ADDED || action == FILE_ACTION_REMOVED || action == FILE_ACTION_RENAMED_OLD_NAME
        || action == FILE_ACTION_RENAMED_NEW_NAME
}

/// Whether a record with `action` says that a path went away.
pub open spec fn is_removal(action: u32) -> bool {
    action == FILE_ACTION_RENAMED_OLD_NAME || action == FILE_ACTION_REMOVED
}

/// Whether `p` is a user watch that tracks its path.
pub open spec fn is_tracked_watch(t: Seq<(Seq<char>, WatchMode)>, p: Seq<char>) -> bool {
    assoc_get(t, p) matches Some(m) && m.target_mode == TargetMode::TrackPath
}

/// The events that the records `rs` report, in order: each record on a covered path whose
/// action is known gives one.
pub open spec fn record_events(t: Seq<(Seq<char>, WatchMode)>, rs: Seq<(u32, Seq<char>)>) -> Seq<EventView>
    decreases rs.len(),
{
    if rs.len() == 0 {
        seq![]
    } else {
        let prev = record_events(t, rs.drop_last());
        let e = rs.last();
        match record_kind(e.0) {
            Some(k) => push_if(prev, covered(t, e.1), on(k, e.1)),
            None => prev,
        }
    }
}

/// The paths of the records `rs` that came or went and lead to tracked paths: tracked
/// watches, or ancestors of some (`anc`).
pub open spec fn changed_paths(t: Seq<(Seq<char>, WatchMode)>, anc: Seq<Seq<char>>, rs: Seq<(u32, Seq<char>)>) -> Seq<Seq<char>>
    decreases rs.len(),
{
    if rs.len() == 0 {
        seq![]
    } else {
        let e = rs.last();
        push_if(changed_paths(t, anc, rs.drop_last()), is_structural(e.0) && (anc.contains(e.1) || is_tracked_watch(t, e.1)), e.1)
    }
}

/// The covered paths of the records `rs` that went away.
pub open spec fn removed_paths(t: Seq<(Seq<char>, WatchMode)>, rs: Seq<(u32, Seq<char>)>) -> Seq<Seq<char>>
    decreases rs.len(),
{
    if rs.len() == 0 {
        seq![]
    } else {
        let e = rs.last();
        push_if(removed_paths(t, rs.drop_last()), is_removal(e.0) && covered(t, e.1), e.1)
    }
}

/// The user watches `t` without the untracked ones at a path of `removed`.
pub open spec fn drop_untracked_at(t: Seq<(Seq<char>, WatchMode)>, removed: Seq<Seq<char>>) -> Seq<(Seq<char>, WatchMode)>
    decreases t.len(),
{
    if t.len() == 0 {
        seq![]
    } else {
        let e = t.last();
        let prev = drop_untracked_at(t.drop_last(), removed);
        if e.1.target_mode == TargetMode::NoTrack && removed.contains(e.0) { prev } else { prev.push(e) }
    }
}

/// Records with their paths as characters.
pub open spec fn path_records_view(rs: Seq<(u32, String)>) -> Seq<(u32, Seq<char>)> {
    rs.map_values(|e: (u32, String)| (e.0, e.1@))
}

/// What a batch of records gives: the events to report, and the paths after whose coming or
/// going the tracked paths below them are resolved again.
#[derive(Clone, Debug)]
pub struct RecordsOutcome {
    pub events: Vec<Event>,
    pub changed: Vec<String>,
}

fn contains_path(paths: &Vec<String>, p: &String) -> (r: bool)
    ensures
        r == strs_view(paths@).contains(p@),
{
    let mut i: usize = 0;
    while i < paths.len()
        invariant
            i <= paths@.len(),
            forall|j: int| 0 <= j < i ==> strs_view(paths@)[j] != p@,
        decreases paths@.len() - i,
    {
        if same_path(&paths[i], p) {
            assert(strs_view(paths@)[i as int] == p@);
            return true;
        }
        i = i + 1;
    }
    false
}

fn record_kind_exec(action: u32) -> (r: Option<EventKind>)
    ensures
        r == record_kind(action),
{
    if action == FILE_ACTION_RENAMED_OLD_NAME {
        Some(EventKind::Modify(ModifyKind::Name(RenameMode::From)))
    } else if action == FILE_ACTION_RENAMED_NEW_NAME {
        Some(EventKind::Modify(ModifyKind::Name(RenameMode::To)))
    } else if action == FILE_ACTION_ADDED {
        Some(EventKind::Create(CreateKind::Any))
    } else if action == FILE_ACTION_REMOVED {
        Some(EventKind::Remove(RemoveKind::Any))
    } else if action == FILE_ACTION_MODIFIED {
        Some(EventKind::Modify(ModifyKind::Any))
    } else {
        None
    }
}

/// Removes the untracked user watches at the paths of `removed`.
fn drop_untracked_watches(watches: &mut Vec<(String, WatchMode)>, removed: &Vec<String>)
    ensures
        assoc_view(final(watches)@) == drop_untracked_at(assoc_view(old(watches)@), strs_view(removed@)),
{
    let ghost t = assoc_view(watches@);
    let mut kept: Vec<(String, WatchMode)> = Vec::new();
    let mut i: usize = 0;
    while i < watches.len()
        invariant
            i <= watches@.len(),
            t == assoc_view(watches@),
            t == assoc_view(old(watches)@),
            assoc_view(kept@) == drop_untracked_at(t.take(i as int), strs_view(removed@)),
        decreases watches@.len() - i,
    {
        assert(t.take(i + 1).drop_last() =~= t.take(i as int));
        let untracked = match watches[i].1.target_mode {
            TargetMode::NoTrack => true,
            TargetMode::TrackPath => false,
        };
        if !(untracked && contains_path(removed, &watches[i].0)) {
            let ghost before = assoc_view(kept@);
            kept.push((watches[i].0.clone(), watches[i].1));
            assert(assoc_view(kept@) =~= before.push(t[i as int]));
        }
        i = i + 1;
    }
    assert(t.take(i as int) =~= t);
    *watches = kept;
}

/// Handles the records of one completed read (`records`, each an action and the normalized
/// path it concerns): returns the events to report on covered paths and the paths that came
/// or went on the way to tracked paths (tracked watches, or ancestors of some in `ancestors`),
/// then drops the untracked user watches at the covered paths that went away.
pub fn handle_records(watches: &mut Vec<(String, WatchMode)>, ancestors: &Vec<String>, records: &Vec<(u32, String)>) -> (r: RecordsOutcome)
    ensures
        events_view(r.events@) == record_events(assoc_view(old(watches)@), path_records_view(records@)),
        strs_view(r.changed@) == changed_paths(assoc_view(old(watches)@), strs_view(ancestors@), path_records_view(records@)),
        assoc_view(final(watches)@) == drop_untracked_at(assoc_view(old(watches)@),
            removed_paths(assoc_view(old(watches)@), path_records_view(records@))),
{
    let ghost t = assoc_view(watches@);
    let ghost rs = path_records_view(records@);
    let mut events: Vec<Event> = Vec::new();
    let mut changed: Vec<String> = Vec::new();
    let mut removed: Vec<String> = Vec::new();
    let mut i: usize = 0;
    while i < records.len()
        invariant
            i <= records@.len(),
            t == assoc_view(watches@),
            t == assoc_view(old(watches)@),
            rs == path_records_view(records@),
            events_view(events@) == record_events(t, rs.take(i as int)),
            strs_view(changed@) == changed_paths(t, strs_view(ancestors@), rs.take(i as int)),
            strs_view(removed@) == removed_paths(t, rs.take(i as int)),
        decreases records@.len() - i,
    {
        assert(rs.take(i + 1).drop_last() =~= rs.take(i as int));
        assert(rs.take(i + 1).last() == rs[i as int]);
        let action = records[i].0;
        let path = &records[i].1;
        let structural = action == FILE_ACTION_ADDED || action == FILE_ACTION_REMOVED
            || action == FILE_ACTION_RENAMED_OLD_NAME || action == FILE_ACTION_RENAMED_NEW_NAME;
        if structural {
            let is_tracked = match assoc_index(watches, path) {
                Some(k) => match watches[k].1.target_mode {
                    TargetMode::TrackPath => true,
                    TargetMode::NoTrack => false,
                },
                None => false,
            };
            if contains_path(ancestors, path) || is_tracked {
                changed.push(path.clone());
            }
        }
        assert(strs_view(changed@) =~= changed_paths(t, strs_view(ancestors@), rs.take(i + 1)));
        let covered = is_event_covered(watches, path);
        if covered {
            if let Some(kind) = record_kind_exec(action) {
                events.push(event_on(kind, path));
            }
            if action == FILE_ACTION_RENAMED_OLD_NAME || action == FILE_ACTION_REMOVED {
                removed.push(path.clone());
            }
        }
        assert(events_view(events@) =~= record_events(t, rs.take(i + 1)));
        assert(strs_view(removed@) =~= removed_paths(t, rs.take(i + 1)));
        i = i + 1;
    }
    assert(rs.take(i as int) =~= rs);
    drop_untracked_watches(watches, &removed);
    RecordsOutcome { events, changed }
}


/// The user watches of the backend's server: each path's requested mode, and how it resolved.
#[derive(Clone, Debug)]
pub struct WindowsWatches {
    pub watches: Vec<(String, WatchMode)>,
    pub resolved: Vec<(String, ResolvedWatch)>,
}

/// The content of a [`WindowsWatches`].
pub ghost struct WindowsWatchesView {
    pub watches: Map<Seq<char>, WatchMode>,
    pub resolved: Map<Seq<char>, ResolvedView>,
}

impl View for WindowsWatches {
    type V = WindowsWatchesView;

    open spec fn view(&self) -> WindowsWatchesView {
        WindowsWatchesView {
            watches: assoc_map(assoc_view(self.watches@)),
            resolved: assoc_map(assoc_view(self.resolved@)).map_values(|w: ResolvedWatch| w@),
        }
    }
}

/// The mode that a watch of `path` with `mode` leaves: `mode`, upgraded with the mode the path
/// is already watched with, if any.
pub open spec fn merged_mode(b: WindowsWatchesView, path: Seq<char>, mode: WatchMode) -> WatchMode {
    if b.watches.contains_key(path) { watch_mode_join(b.watches[path], mode) } else { mode }
}

/// The watches after a watch of `path` with `mode`, given what reading its metadata gave, if
/// the merged watch resolves.
pub open spec fn added(b: WindowsWatchesView, path: Seq<char>, mode: WatchMode, metadata: Result<EntryKind, Error>) -> Option<WindowsWatchesView> {
    let m = merged_mode(b, path, mode);
    match resolution(path, m, metadata) {
        Some(v) => Some(WindowsWatchesView { watches: b.watches.insert(path, m), resolved: b.resolved.insert(path, v) }),
        None => None,
    }
}

/// The watches without the watch of `path`.
pub open spec fn removed(b: WindowsWatchesView, path: Seq<char>) -> WindowsWatchesView {
    WindowsWatchesView { watches: b.watches.remove(path), resolved: b.resolved.remove(path) }
}

/// A change of the watches, staged to be applied with others: a watch of a path with a mode,
/// with what reading the path's metadata gave, or the removal of a watch.
#[derive(Debug)]
pub enum StagedChange {
    Add(String, WatchMode, Result<EntryKind, Error>),
    Remove(String),
}

/// The watches after one staged change, and whether it applied.
pub open spec fn staged_step(b: WindowsWatchesView, c: StagedChange) -> (WindowsWatchesView, bool) {
    match c {
        StagedChange::Add(p, m, md) => match added(b, p@, m, md) {
            Some(b2) => (b2, true),
            None => (b, false),
        },
        StagedChange::Remove(p) => (removed(b, p@), true),
    }
}

/// The watches after the staged changes `cs`, in order; a change that does not apply leaves
/// them as they were.
pub open spec fn staged_result(b: WindowsWatchesView, cs: Seq<StagedChange>) -> WindowsWatchesView
    decreases cs.len(),
{
    if cs.len() == 0 {
        b
    } else {
        staged_step(staged_result(b, cs.drop_last()), cs.last()).0
    }
}

/// The index of the first staged change of `cs` that does not apply, if any.
pub open spec fn first_failure(b: WindowsWatchesView, cs: Seq<StagedChange>) -> Option<int>
    decreases cs.len(),
{
    if cs.len() == 0 {
        None
    } else {
        match first_failure(b, cs.drop_last()) {
            Some(k) => Some(k),
            None => if staged_step(staged_result(b, cs.drop_last()), cs.last()).1 { None } else { Some(cs.len() - 1) },
        }
    }
}

/// Whether the tracked path `root` resolved to a directory to read.
pub open spec fn present_in(b: WindowsWatchesView, root: Seq<char>) -> bool {
    b.resolved.contains_key(root) && b.resolved[root].primary is Some
}

/// The watches after the tracked path `root`, watched with `mode`, is resolved again once
/// `path` came or went, and the event to report: a root other than `path` whose presence
/// changed is reported created (as a folder when it is a directory) or removed. A root that
/// does not resolve is left as it was.
pub open spec fn reresolve_step(b: WindowsWatchesView, path: Seq<char>, root: Seq<char>, mode: WatchMode, md: Result<EntryKind, Error>) -> (WindowsWatchesView, Option<EventView>) {
    match resolution(root, mode, md) {
        None => (b, None),
        Some(v) => {
            let b2 = WindowsWatchesView { resolved: b.resolved.insert(root, v), ..b };
            let was = present_in(b, root);
            let is = v.primary is Some;
            if root == path || was == is {
                (b2, None)
            } else if is {
                (b2, Some(on(EventKind::Create(if md matches Ok(EntryKind::Dir) { CreateKind::Folder } else { CreateKind::File }), root)))
            } else {
                (b2, Some(on(EventKind::Remove(RemoveKind::Any), root)))
            }
        },
    }
}

/// The watches and the events after the tracked paths `roots` (each with its mode and what
/// reading its metadata gave) are resolved again, in order, once `path` came or went.
pub open spec fn reresolve_spec(b: WindowsWatchesView, path: Seq<char>, roots: Seq<(String, WatchMode, Result<EntryKind, Error>)>) -> (WindowsWatchesView, Seq<EventView>)
    decreases roots.len(),
{
    if roots.len() == 0 {
        (b, seq![])
    } else {
        let (b1, evs) = reresolve_spec(b, path, roots.drop_last());
        let r = roots.last();
        let (b2, ev) = reresolve_step(b1, path, r.0@, r.1, r.2);
        (b2, match ev { Some(e) => evs.push(e), None => evs })
    }
}

/// A tracked path that was absent and is found again, once `path` came, is reported created,
/// as a folder when it is a directory and as a file when it is a file, and is present after;
/// one that was present and is gone is reported removed and is absent after.
pub proof fn lemma_reresolved_root_reports_its_kind(
    b: WindowsWatchesView,
    path: Seq<char>,
    r: (String, WatchMode, Result<EntryKind, Error>),
)
    requires
        r.0@ != path,
    ensures
        ({
            let (b2, evs) = reresolve_spec(b, path, seq![r]);
            &&& !present_in(b, r.0@) && (r.2 matches Ok(EntryKind::Dir)) ==> present_in(b2, r.0@)
                && evs == seq![on(EventKind::Create(CreateKind::Folder), r.0@)]
            &&& !present_in(b, r.0@) && (r.2 matches Ok(EntryKind::File)) ==> present_in(b2, r.0@)
                && evs == seq![on(EventKind::Create(CreateKind::File), r.0@)]
            &&& present_in(b, r.0@) && r.1.target_mode == TargetMode::TrackPath && (r.2 matches Err(e) && e.kind is PathNotFound)
                ==> !present_in(b2, r.0@) && evs == seq![on(EventKind::Remove(RemoveKind::Any), r.0@)]
        }),
{
    let rs = seq![r];
    assert(rs.drop_last() =~= Seq::<(String, WatchMode, Result<EntryKind, Error>)>::empty());
    assert(rs.last() == r);
    assert(reresolve_spec(b, path, rs.drop_last()) == (b, Seq::<EventView>::empty()));
    assert(Seq::<EventView>::empty().push(on(EventKind::Create(CreateKind::Folder), r.0@)) =~= seq![on(EventKind::Create(CreateKind::Folder), r.0@)]);
    assert(Seq::<EventView>::empty().push(on(EventKind::Create(CreateKind::File), r.0@)) =~= seq![on(EventKind::Create(CreateKind::File), r.0@)]);
    assert(Seq::<EventView>::empty().push(on(EventKind::Remove(RemoveKind::Any), r.0@)) =~= seq![on(EventKind::Remove(RemoveKind::Any), r.0@)]);
}

/// The user watches of `t` that track their path and lie at or below `path`, in order.
pub open spec fn tracked_below(t: Seq<(Seq<char>, WatchMode)>, path: Seq<char>) -> Seq<(Seq<char>, WatchMode)>
    decreases t.len(),
{
    if t.len() == 0 {
        seq![]
    } else {
        let e = t.last();
        push_if(tracked_below(t.drop_last(), path), e.1.target_mode == TargetMode::TrackPath && path_starts_with(e.0, path), e)
    }
}

impl WindowsWatches {
    /// No watch.
    pub fn new() -> (r: WindowsWatches)
        ensures
            r@.watches == Map::<Seq<char>, WatchMode>::empty(),
            r@.resolved == Map::<Seq<char>, ResolvedView>::empty(),
    {
        let r = WindowsWatches { watches: Vec::new(), resolved: Vec::new() };
        assert(r@.watches =~= Map::<Seq<char>, WatchMode>::empty());
        assert(r@.resolved =~= Map::<Seq<char>, ResolvedView>::empty());
        r
    }

    /// Registers a watch of `path` with `mode`, given what reading its metadata gave: the mode
    /// is merged with the one the path is already watched with, so repeated watches only ever
    /// widen it, and the merged watch is resolved. A watch that does not resolve leaves the
    /// watches as they were and gives its error.
    pub fn add_watch_internal(&mut self, path: String, mode: WatchMode, metadata: Result<EntryKind, Error>) -> (r: Result<(), Error>)
        ensures
            match added(old(self)@, path@, mode, metadata) {
                Some(b) => r is Ok && final(self)@ == b,
                None => final(self)@ == old(self)@ && (r matches Err(e) && resolve_error(e, path@, metadata)),
            },
    {
        let merged = match assoc_index(&self.watches, &path) {
            Some(i) => {
                let mut m = self.watches[i].1;
                m.upgrade_with(mode);
                m
            },
            None => mode,
        };
        assert(merged == merged_mode(old(self)@, path@, mode));
        match resolve_user_watch(&path, merged, metadata) {
            Ok(res) => {
                let ghost v = res@;
                let ghost r0 = assoc_map(assoc_view(self.resolved@));
                assoc_insert(&mut self.watches, path.clone(), merged);
                assoc_insert(&mut self.resolved, path, res);
                assert(self@.resolved =~= old(self)@.resolved.insert(path@, v)) by {
                    assert(assoc_map(assoc_view(self.resolved@)) == r0.insert(path@, res));
                }
                Ok(())
            },
            Err(e) => Err(e),
        }
    }

    /// Removes the watch of `path`; returns whether there was one.
    pub fn remove_watch_internal(&mut self, path: &String) -> (r: bool)
        ensures
            r == old(self)@.watches.contains_key(path@),
            final(self)@ == removed(old(self)@, path@),
    {
        let ghost r0 = assoc_map(assoc_view(self.resolved@));
        let r = assoc_remove(&mut self.watches, path);
        assoc_remove(&mut self.resolved, path);
        assert(self@.resolved =~= old(self)@.resolved.remove(path@)) by {
            assert(assoc_map(assoc_view(self.resolved@)) == r0.remove(path@));
        }
        r
    }

    /// Applies the staged changes in order (see [`staged_result`]); returns the error of the
    /// first one that did not apply, if any, the others being applied all the same.
    pub fn apply_staged(&mut self, staged: Vec<StagedChange>) -> (r: Option<Error>)
        ensures
            final(self)@ == staged_result(old(self)@, staged@),
            match r {
                None => first_failure(old(self)@, staged@) is None,
                Some(e) => first_failure(old(self)@, staged@) matches Some(k) && 0 <= k < staged@.len()
                    && (staged@[k] matches StagedChange::Add(p, _, md) && resolve_error(e, p@, md)),
            },
    {
        let ghost cs = staged@;
        let mut rest = staged;
        let mut first_error: Option<Error> = None;
        let ghost mut done: int = 0;
        while rest.len() > 0
            invariant
                0 <= done <= cs.len(),
                rest@ == cs.subrange(done, cs.len() as int),
                self@ == staged_result(old(self)@, cs.take(done)),
                match first_error {
                    None => first_failure(old(self)@, cs.take(done)) is None,
                    Some(e) => first_failure(old(self)@, cs.take(done)) matches Some(k) && 0 <= k < done
                        && (cs[k] matches StagedChange::Add(p, _, md) && resolve_error(e, p@, md)),
                },
            decreases rest@.len(),
        {
            let change = rest.remove(0);
            assert(change == cs[done]);
            assert(cs.take(done + 1).drop_last() =~= cs.take(done));
            assert(cs.take(done + 1).last() == cs[done]);
            match change {
                StagedChange::Add(path, mode, metadata) => {
                    let res = self.add_watch_internal(path, mode, metadata);
                    if let Err(e) = res {
                        if first_error.is_none() {
                            first_error = Some(e);
                        }
                    }
                },
                StagedChange::Remove(path) => {
                    self.remove_watch_internal(&path);
                },
            }
            proof {
                done = done + 1;
                assert(rest@ =~= cs.subrange(done, cs.len() as int));
            }
        }
        assert(cs.take(done) =~= cs);
        first_error
    }

    /// The user watches that track their path and lie at or below `path`, with their modes.
    pub fn tracked_roots_below(&self, path: &String) -> (r: Vec<(String, WatchMode)>)
        ensures
            assoc_view(r@) == tracked_below(assoc_view(self.watches@), path@),
    {
        let ghost t = assoc_view(self.watches@);
        let mut out: Vec<(String, WatchMode)> = Vec::new();
        let mut i: usize = 0;
        while i < self.watches.len()
            invariant
                i <= self.watches@.len(),
                t == assoc_view(self.watches@),
                assoc_view(out@) == tracked_below(t.take(i as int), path@),
            decreases self.watches@.len() - i,
        {
            assert(t.take(i + 1).drop_last() =~= t.take(i as int));
            assert(t.take(i + 1).last() == t[i as int]);
            let (root, mode) = &self.watches[i];
            let is_track = match mode.target_mode {
                TargetMode::TrackPath => true,
                TargetMode::NoTrack => false,
            };
            if is_track && starts_with(root.as_str(), path.as_str()) {
                let ghost before = assoc_view(out@);
                out.push((root.clone(), *mode));
                assert(assoc_view(out@) =~= before.push(t[i as int]));
            }
            i = i + 1;
        }
        assert(t.take(i as int) =~= t);
        out
    }

    /// `path` came or went: resolves again the tracked paths `roots` (each with its mode and
    /// what reading its metadata gave, as [`Self::tracked_roots_below`] lists them) and
    /// returns the events on the ones whose presence changed (see [`reresolve_spec`]).
    pub fn reresolve_below(&mut self, path: &String, roots: Vec<(String, WatchMode, Result<EntryKind, Error>)>) -> (r: Vec<Event>)
        ensures
            (final(self)@, events_view(r@)) == reresolve_spec(old(self)@, path@, roots@),
    {
        let ghost rs = roots@;
        let mut rest = roots;
        let mut out: Vec<Event> = Vec::new();
        let ghost mut done: int = 0;
        while rest.len() > 0
            invariant
                0 <= done <= rs.len(),
                rest@ == rs.subrange(done, rs.len() as int),
                (self@, events_view(out@)) == reresolve_spec(old(self)@, path@, rs.take(done)),
            decreases rest@.len(),
        {
            let (root, mode, metadata) = rest.remove(0);
            assert(rs.take(done + 1).drop_last() =~= rs.take(done));
            assert(rs.take(done + 1).last() == rs[done]);
            let was_present = match assoc_index(&self.resolved, &root) {
                Some(i) => self.resolved[i].1.primary.is_some(),
                None => false,
            };
            let is_dir = match metadata {
                Ok(EntryKind::Dir) => true,
                _ => false,
            };
            match resolve_user_watch(&root, mode, metadata) {
                Ok(res) => {
                    let is_present = res.primary.is_some();
                    let ghost v = res@;
                    let ghost r0 = assoc_map(assoc_view(self.resolved@));
                    let same = same_path(&root, path);
                    assoc_insert(&mut self.resolved, root.clone(), res);
                    proof {
                        assert(assoc_map(assoc_view(self.resolved@)) == r0.insert(root@, res));
                        assert(self@.resolved =~= r0.map_values(|w: ResolvedWatch| w@).insert(root@, v));
                    }
                    if !(same || was_present == is_present) {
                        let kind = if is_present {
                            EventKind::Create(if is_dir { CreateKind::Folder } else { CreateKind::File })
                        } else {
                            EventKind::Remove(RemoveKind::Any)
                        };
                        let ghost before = events_view(out@);
                        out.push(event_on(kind, &root));
                        assert(events_view(out@) =~= before.push(on(kind, root@)));
                    }
                },
                Err(_) => {},
            }
            proof {
                done = done + 1;
                assert(rest@ =~= rs.subrange(done, rs.len() as int));
            }
        }
        assert(rs.take(done) =~= rs);
        out
    }
}


/// The parents of the resolved watches of `rs` that need their tracked parent read, in order
/// (a path without a parent has none to read).
pub open spec fn tracked_parents_spec(rs: Seq<(Seq<char>, ResolvedWatch)>) -> Seq<Seq<char>>
    decreases rs.len(),
{
    if rs.len() == 0 {
        seq![]
    } else {
        let prev = tracked_parents_spec(rs.drop_last());
        let e = rs.last();
        if e.1.needs_tracked_parent && path_parent(e.0) is Some { prev.push(path_parent(e.0)->0) } else { prev }
    }
}

/// Whether the directories to read `tg` hold `p`.
pub open spec fn target_has(tg: Seq<(Seq<char>, bool)>, p: Seq<char>) -> bool {
    exists|i: int| 0 <= i < tg.len() && (#[trigger] tg[i]).0 == p
}

/// The directories to read after the tracked parents `parents` (each with whether it is a
/// directory now, `dirs`) are added in order: a parent that is a directory and that is not
/// read yet is read, not recursively.
pub open spec fn parent_targets_spec(tg: Seq<(Seq<char>, bool)>, parents: Seq<Seq<char>>, dirs: Seq<bool>) -> Seq<(Seq<char>, bool)>
    decreases parents.len(),
{
    if parents.len() == 0 || dirs.len() != parents.len() {
        tg
    } else {
        let t1 = parent_targets_spec(tg, parents.drop_last(), dirs.drop_last());
        let p = parents.last();
        if !target_has(t1, p) && dirs.last() { t1.push((p, false)) } else { t1 }
    }
}

/// What a batch of staged changes answers: the error of the first change that did not apply,
/// else the error of the rebuild of the handles that follows it, if any.
pub open spec fn staged_answer(add_error: Option<Error>, rebuild: Result<(), Error>) -> Result<(), Error> {
    match add_error {
        Some(e) => Err(e),
        None => rebuild,
    }
}

/// The answer of a batch of staged changes, given the first error among its changes
/// ([`WindowsWatches::apply_staged`]) and the outcome of the one rebuild of the handles that
/// follows: the change's error comes first.
pub fn staged_outcome(add_error: Option<Error>, rebuild: Result<(), Error>) -> (r: Result<(), Error>)
    ensures
        r == staged_answer(add_error, rebuild),
{
    match add_error {
        Some(e) => Err(e),
        None => rebuild,
    }
}

/// The first error among the outcomes of opening the reads, in order, if any.
pub open spec fn first_error_spec(outcomes: Seq<Result<(), Error>>) -> Result<(), Error>
    decreases outcomes.len(),
{
    if outcomes.len() == 0 {
        Ok(())
    } else if outcomes[0] is Err {
        outcomes[0]
    } else {
        first_error_spec(outcomes.drop_first())
    }
}

/// The answer of opening the reads of a rebuild, given the outcome of each: the first error,
/// the others being dropped; `Ok` when every read opened.
pub fn first_open_error(outcomes: Vec<Result<(), Error>>) -> (r: Result<(), Error>)
    ensures
        r == first_error_spec(outcomes@),
        r is Ok <==> forall|i: int| 0 <= i < outcomes@.len() ==> (#[trigger] outcomes@[i]) is Ok,
{
    let ghost all = outcomes@;
    let mut rest = outcomes;
    let ghost mut done: int = 0;
    while rest.len() > 0
        invariant
            0 <= done <= all.len(),
            all == outcomes@,
            rest@ == all.subrange(done, all.len() as int),
            first_error_spec(all) == first_error_spec(rest@),
            forall|i: int| 0 <= i < done ==> (#[trigger] all[i]) is Ok,
        decreases rest@.len(),
    {
        let ghost before = rest@;
        let o = rest.remove(0);
        assert(o == all[done] && o == before[0]);
        assert(before.drop_first() =~= rest@);
        match o {
            Err(e) => {
                return Err(e);
            },
            Ok(()) => {},
        }
        proof {
            done = done + 1;
            assert(rest@ =~= all.subrange(done, all.len() as int));
        }
    }
    Ok(())
}

fn target_has_exec(target: &Vec<(String, bool)>, p: &String) -> (r: bool)
    ensures
        r == target_has(assoc_view(target@), p@),
{
    let ghost tg = assoc_view(target@);
    let mut i: usize = 0;
    while i < target.len()
        invariant
            i <= target@.len(),
            tg == assoc_view(target@),
            forall|j: int| 0 <= j < i ==> (#[trigger] tg[j]).0 != p@,
        decreases target@.len() - i,
    {
        assert(tg[i as int] == (target@[i as int].0@, target@[i as int].1));
        if same_path(&target[i].0, p) {
            return true;
        }
        i = i + 1;
    }
    false
}

/// Adds to the directories to read (`target`) the tracked parents `parents` that are
/// directories now (`is_dir`, one for each parent) and that are not read yet, each read not
/// recursively (see [`parent_targets_spec`]).
pub fn add_parent_targets(target: &mut Vec<(String, bool)>, parents: &Vec<String>, is_dir: &Vec<bool>)
    requires
        is_dir@.len() == parents@.len(),
    ensures
        assoc_view(final(target)@) == parent_targets_spec(assoc_view(old(target)@), strs_view(parents@), is_dir@),
{
    let ghost ps = strs_view(parents@);
    let mut i: usize = 0;
    while i < parents.len()
        invariant
            i <= parents@.len(),
            is_dir@.len() == parents@.len(),
            ps == strs_view(parents@),
            assoc_view(target@) == parent_targets_spec(assoc_view(old(target)@), ps.take(i as int), is_dir@.take(i as int)),
        decreases parents@.len() - i,
    {
        assert(ps.take(i + 1).drop_last() =~= ps.take(i as int));
        assert(is_dir@.take(i + 1).drop_last() =~= is_dir@.take(i as int));
        assert(ps.take(i + 1).last() == ps[i as int]);
        let p = &parents[i];
        if !target_has_exec(target, p) && is_dir[i] {
            let ghost t0 = assoc_view(target@);
            target.push((p.clone(), false));
            assert(assoc_view(target@) =~= t0.push((p@, false)));
        }
        i = i + 1;
    }
    assert(ps.take(i as int) =~= ps);
    assert(is_dir@.take(i as int) =~= is_dir@);
}

impl WindowsWatches {
    /// Forgets the resolutions of the paths that are no longer watched (a watch can be dropped
    /// while a read completes, without its resolution).
    pub fn retain_resolved(&mut self)
        ensures
            final(self)@.watches == old(self)@.watches,
            final(self)@.resolved == old(self)@.resolved.restrict(old(self)@.watches.dom()),
    {
        let ghost t = assoc_view(self.resolved@);
        let ghost w = self@.watches;
        let mut kept: Vec<(String, ResolvedWatch)> = Vec::new();
        let mut i: usize = 0;
        while i < self.resolved.len()
            invariant
                i <= self.resolved@.len(),
                t == assoc_view(self.resolved@),
                w == self@.watches,
                self.watches == old(self).watches,
                self.resolved == old(self).resolved,
                forall|q: Seq<char>| #[trigger] assoc_get(assoc_view(kept@), q)
                    == if w.contains_key(q) { assoc_get(t.take(i as int), q) } else { None },
            decreases self.resolved@.len() - i,
        {
            let ghost k0 = assoc_view(kept@);
            let ghost e = t[i as int];
            assert(e == (self.resolved@[i as int].0@, self.resolved@[i as int].1));
            assert(t.take(i + 1) =~= t.take(i as int).push(e));
            let keep = assoc_index(&self.watches, &self.resolved[i].0).is_some();
            assert(keep == w.contains_key(e.0));
            if keep {
                kept.push((self.resolved[i].0.clone(), self.resolved[i].1.clone_resolved()));
                assert(assoc_view(kept@) =~= k0.push(e));
                assert forall|q: Seq<char>| #[trigger] assoc_get(assoc_view(kept@), q)
                    == if w.contains_key(q) { assoc_get(t.take(i + 1), q) } else { None } by {
                    lemma_assoc_get_push(k0, e.0, e.1, q);
                    lemma_assoc_get_push(t.take(i as int), e.0, e.1, q);
                }
            } else {
                assert forall|q: Seq<char>| #[trigger] assoc_get(assoc_view(kept@), q)
                    == if w.contains_key(q) { assoc_get(t.take(i + 1), q) } else { None } by {
                    lemma_assoc_get_push(t.take(i as int), e.0, e.1, q);
                }
            }
            i = i + 1;
        }
        assert(t.take(i as int) =~= t);
        self.resolved = kept;
        assert(self@.resolved =~= old(self)@.resolved.restrict(old(self)@.watches.dom()));
    }

    /// The parents of the resolved watches that need their tracked parent read, in order: the
    /// directories to read so that a missing watched path is seen once it appears.
    pub fn tracked_parents(&self) -> (r: Vec<String>)
        ensures
            strs_view(r@) == tracked_parents_spec(assoc_view(self.resolved@)),
    {
        let ghost t = assoc_view(self.resolved@);
        let mut out: Vec<String> = Vec::new();
        let mut i: usize = 0;
        while i < self.resolved.len()
            invariant
                i <= self.resolved@.len(),
                t == assoc_view(self.resolved@),
                strs_view(out@) == tracked_parents_spec(t.take(i as int)),
            decreases self.resolved@.len() - i,
        {
            assert(t.take(i + 1).drop_last() =~= t.take(i as int));
            assert(t.take(i + 1).last() == t[i as int]);
            assert(t[i as int] == (self.resolved@[i as int].0@, self.resolved@[i as int].1));
            if self.resolved[i].1.needs_tracked_parent {
                if let Some(p) = parent(self.resolved[i].0.as_str()) {
                    let ghost o0 = strs_view(out@);
                    out.push(p);
                    assert(strs_view(out@) =~= o0.push(p@));
                }
            }
            i = i + 1;
        }
        assert(t.take(i as int) =~= t);
        out
    }
}

/// Whether `a` is a strict ancestor of a user watch of `t` that tracks its path.
pub open spec fn is_tracked_ancestor(t: Seq<(Seq<char>, WatchMode)>, a: Seq<char>) -> bool {
    exists|i: int| 0 <= i < t.len() && (#[trigger] t[i]).1.target_mode == TargetMode::TrackPath
        && ancestors_of(t[i].0).contains(a)
}

impl WindowsWatches {
    /// The strict ancestors of the user watches that track their path, each once: the
    /// directories to read so that a directory moved away or deleted above a tracked path is
    /// seen, and a missing one is seen once it appears.
    pub fn tracked_ancestors(&self) -> (r: Vec<String>)
        ensures
            strs_view(r@).no_duplicates(),
            forall|a: Seq<char>| strs_view(r@).contains(a) <==> is_tracked_ancestor(assoc_view(self.watches@), a),
    {
        let ghost t = assoc_view(self.watches@);
        let mut out: Vec<String> = Vec::new();
        let mut i: usize = 0;
        while i < self.watches.len()
            invariant
                i <= self.watches@.len(),
                t == assoc_view(self.watches@),
                strs_view(out@).no_duplicates(),
                forall|a: Seq<char>| strs_view(out@).contains(a) <==> is_tracked_ancestor(t.take(i as int), a),
            decreases self.watches@.len() - i,
        {
            let ghost t0 = t.take(i as int);
            let ghost t1 = t.take(i + 1);
            assert(t1[i as int] == t[i as int]);
            assert(t[i as int] == (self.watches@[i as int].0@, self.watches@[i as int].1));
            let is_track = match self.watches[i].1.target_mode {
                TargetMode::TrackPath => true,
                TargetMode::NoTrack => false,
            };
            if is_track {
                let anc = chain_ancestors(&self.watches[i].0);
                let ghost av = strs_view(anc@);
                let ghost start = strs_view(out@);
                assert(forall|a: Seq<char>| start.contains(a) <==> is_tracked_ancestor(t0, a));
                let mut k: usize = 0;
                while k < anc.len()
                    invariant
                        k <= anc@.len(),
                        av == strs_view(anc@),
                        strs_view(out@).no_duplicates(),
                        forall|a: Seq<char>| strs_view(out@).contains(a) <==> (start.contains(a) || av.take(k as int).contains(a)),
                    decreases anc@.len() - k,
                {
                    let ghost before = strs_view(out@);
                    assert(av.take(k + 1) =~= av.take(k as int).push(av[k as int]));
                    let present = contains_path(&out, &anc[k]);
                    assert(anc@[k as int]@ == av[k as int]);
                    if !present {
                        out.push(anc[k].clone());
                        assert(strs_view(out@) =~= before.push(av[k as int]));
                    }
                    proof {
                        let now = strs_view(out@);
                        let tk0 = av.take(k as int);
                        let tk1 = av.take(k + 1);
                        assert forall|a: Seq<char>| now.contains(a) <==> (start.contains(a) || tk1.contains(a)) by {
                            assert(before.contains(a) <==> (start.contains(a) || tk0.contains(a)));
                            if tk1.contains(a) {
                                let j = choose|j: int| 0 <= j < tk1.len() && tk1[j] == a;
                                if j < k {
                                    assert(tk0[j] == a);
                                }
                            }
                            if tk0.contains(a) {
                                let j = choose|j: int| 0 <= j < tk0.len() && tk0[j] == a;
                                assert(tk1[j] == a);
                            }
                            if now.contains(a) {
                                let j = choose|j: int| 0 <= j < now.len() && now[j] == a;
                                if j < before.len() {
                                    assert(before[j] == a);
                                }
                            }
                            if before.contains(a) {
                                let j = choose|j: int| 0 <= j < before.len() && before[j] == a;
                                assert(now[j] == a);
                            }
                            assert(tk1[k as int] == av[k as int]);
                            if !present {
                                assert(now[before.len() as int] == av[k as int]);
                            } else {
                                assert(now == before);
                            }
                        }
                    }
                    k = k + 1;
                }
                assert(av.take(k as int) =~= av);
                proof {
                    let ai = ancestors_of(t[i as int].0);
                    assert(av == ai.reverse());
                    assert forall|a: Seq<char>| strs_view(out@).contains(a) <==> is_tracked_ancestor(t1, a) by {
                        assert(strs_view(out@).contains(a) <==> (start.contains(a) || av.contains(a)));
                        assert(start.contains(a) <==> is_tracked_ancestor(t0, a));
                        if av.contains(a) {
                            let j = choose|j: int| 0 <= j < av.len() && av[j] == a;
                            assert(ai[av.len() - 1 - j] == a);
                            assert(t1[i as int] == t[i as int]);
                        }
                        if ai.contains(a) {
                            let j = choose|j: int| 0 <= j < ai.len() && ai[j] == a;
                            assert(av[av.len() - 1 - j] == a);
                        }
                        if is_tracked_ancestor(t1, a) {
                            let w = choose|w: int| 0 <= w < t1.len() && (#[trigger] t1[w]).1.target_mode == TargetMode::TrackPath
                                && ancestors_of(t1[w].0).contains(a);
                            if w < i {
                                assert(t0[w] == t1[w]);
                            }
                        }
                        if is_tracked_ancestor(t0, a) {
                            let w = choose|w: int| 0 <= w < t0.len() && (#[trigger] t0[w]).1.target_mode == TargetMode::TrackPath
                                && ancestors_of(t0[w].0).contains(a);
                            assert(t1[w] == t0[w]);
                        }
                    }
                }
            } else {
                proof {
                    assert forall|a: Seq<char>| is_tracked_ancestor(t1, a) <==> is_tracked_ancestor(t0, a) by {
                        if is_tracked_ancestor(t1, a) {
                            let w = choose|w: int| 0 <= w < t1.len() && (#[trigger] t1[w]).1.target_mode == TargetMode::TrackPath
                                && ancestors_of(t1[w].0).contains(a);
                            if w < i {
                                assert(t0[w] == t1[w]);
                            }
                        }
                        if is_tracked_ancestor(t0, a) {
                            let w = choose|w: int| 0 <= w < t0.len() && (#[trigger] t0[w]).1.target_mode == TargetMode::TrackPath
                                && ancestors_of(t0[w].0).contains(a);
                            assert(t1[w] == t0[w]);
                        }
                    }
                }
            }
            i = i + 1;
        }
        assert(t.take(i as int) =~= t);
        out
    }
}


/// Whether a directory read by `tg` (each with whether it is read recursively) sees `a` come
/// and go: `a` is read itself, or lies below a directory read recursively.
pub open spec fn target_covers(tg: Seq<(Seq<char>, bool)>, a: Seq<char>) -> bool {
    exists|i: int| 0 <= i < tg.len() && ((#[trigger] tg[i]).0 == a || (tg[i].1 && path_starts_with(a, tg[i].0)))
}

/// The directories to read and the ones read only for the chain of tracked paths, after the
/// ancestors `anc` (each with whether it is a directory now, `dirs`) are added in order: an
/// ancestor that is covered already, or is not a directory, is left out; any other is read,
/// not recursively, for the chain.
pub open spec fn chain_targets_spec(tg: Seq<(Seq<char>, bool)>, anc: Seq<Seq<char>>, dirs: Seq<bool>) -> (Seq<(Seq<char>, bool)>, Seq<Seq<char>>)
    decreases anc.len(),
{
    if anc.len() == 0 || dirs.len() != anc.len() {
        (tg, seq![])
    } else {
        let (t1, c1) = chain_targets_spec(tg, anc.drop_last(), dirs.drop_last());
        let a = anc.last();
        if target_covers(t1, a) || !dirs.last() { (t1, c1) } else { (t1.push((a, false)), c1.push(a)) }
    }
}

fn covers_exec(target: &Vec<(String, bool)>, a: &String) -> (r: bool)
    ensures
        r == target_covers(assoc_view(target@), a@),
{
    let ghost tg = assoc_view(target@);
    let mut i: usize = 0;
    while i < target.len()
        invariant
            i <= target@.len(),
            tg == assoc_view(target@),
            forall|j: int| 0 <= j < i ==> !((#[trigger] tg[j]).0 == a@ || (tg[j].1 && path_starts_with(a@, tg[j].0))),
        decreases target@.len() - i,
    {
        assert(tg[i as int] == (target@[i as int].0@, target@[i as int].1));
        let (dir, rec) = &target[i];
        if same_path(dir, a) || (*rec && starts_with(a.as_str(), dir.as_str())) {
            return true;
        }
        i = i + 1;
    }
    false
}

/// Adds to the directories to read (`target`) the ancestors of tracked paths that no read
/// covers and that are directories now (`is_dir`, one for each ancestor), and returns them:
/// the directories read only for the chain (see [`chain_targets_spec`]).
pub fn add_chain_targets(target: &mut Vec<(String, bool)>, ancestors: &Vec<String>, is_dir: &Vec<bool>) -> (r: Vec<String>)
    requires
        is_dir@.len() == ancestors@.len(),
    ensures
        (assoc_view(final(target)@), strs_view(r@)) == chain_targets_spec(assoc_view(old(target)@), strs_view(ancestors@), is_dir@),
{
    let ghost anc = strs_view(ancestors@);
    let mut chain: Vec<String> = Vec::new();
    let mut i: usize = 0;
    while i < ancestors.len()
        invariant
            i <= ancestors@.len(),
            is_dir@.len() == ancestors@.len(),
            anc == strs_view(ancestors@),
            (assoc_view(target@), strs_view(chain@)) == chain_targets_spec(assoc_view(old(target)@), anc.take(i as int), is_dir@.take(i as int)),
        decreases ancestors@.len() - i,
    {
        assert(anc.take(i + 1).drop_last() =~= anc.take(i as int));
        assert(is_dir@.take(i + 1).drop_last() =~= is_dir@.take(i as int));
        assert(anc.take(i + 1).last() == anc[i as int]);
        let a = &ancestors[i];
        if !(covers_exec(target, a) || !is_dir[i]) {
            let ghost t0 = assoc_view(target@);
            let ghost c0 = strs_view(chain@);
            target.push((a.clone(), false));
            chain.push(a.clone());
            assert(assoc_view(target@) =~= t0.push((a@, false)));
            assert(strs_view(chain@) =~= c0.push(a@));
        }
        i = i + 1;
    }
    assert(anc.take(i as int) =~= anc);
    assert(is_dir@.take(i as int) =~= is_dir@);
    chain
}

/// The handles of `cur` (each a directory with whether it is read recursively) to close: those
/// that the target `tg` does not read, or reads with the other flag; in order.
pub open spec fn handles_closing(cur: Seq<(Seq<char>, bool)>, tg: Seq<(Seq<char>, bool)>) -> Seq<Seq<char>>
    decreases cur.len(),
{
    if cur.len() == 0 {
        seq![]
    } else {
        let e = cur.last();
        push_if(handles_closing(cur.drop_last(), tg), assoc_get(tg, e.0) != Some(e.1), e.0)
    }
}

/// The reads of the target `tg` to open: those whose directory has no handle that stays open,
/// that is one with the flag the target gives it; in order.
pub open spec fn handles_opening(cur: Seq<(Seq<char>, bool)>, tg: Seq<(Seq<char>, bool)>, es: Seq<(Seq<char>, bool)>) -> Seq<(Seq<char>, bool)>
    decreases es.len(),
{
    if es.len() == 0 {
        seq![]
    } else {
        let e = es.last();
        let kept = assoc_get(cur, e.0) matches Some(c) && assoc_get(tg, e.0) == Some(c);
        push_if(handles_opening(cur, tg, es.drop_last()), !kept, e)
    }
}

fn assoc_flag(s: &Vec<(String, bool)>, p: &String) -> (r: Option<bool>)
    ensures
        r == assoc_get(assoc_view(s@), p@),
{
    match assoc_index(s, p) {
        Some(i) => Some(s[i].1),
        None => None,
    }
}

/// The open handles (`current`) to close so that they match the target reads (`target`):
/// those the target does not read, or reads with the other flag (see [`handles_closing`]).
pub fn handles_to_close(current: &Vec<(String, bool)>, target: &Vec<(String, bool)>) -> (r: Vec<String>)
    ensures
        strs_view(r@) == handles_closing(assoc_view(current@), assoc_view(target@)),
{
    let ghost cur = assoc_view(current@);
    let mut out: Vec<String> = Vec::new();
    let mut i: usize = 0;
    while i < current.len()
        invariant
            i <= current@.len(),
            cur == assoc_view(current@),
            strs_view(out@) == handles_closing(cur.take(i as int), assoc_view(target@)),
        decreases current@.len() - i,
    {
        assert(cur.take(i + 1).drop_last() =~= cur.take(i as int));
        assert(cur.take(i + 1).last() == cur[i as int]);
        assert(cur[i as int] == (current@[i as int].0@, current@[i as int].1));
        let (p, rec) = &current[i];
        if assoc_flag(target, p) != Some(*rec) {
            let ghost before = strs_view(out@);
            out.push(p.clone());
            assert(strs_view(out@) =~= before.push(p@));
        }
        i = i + 1;
    }
    assert(cur.take(i as int) =~= cur);
    out
}

/// The target reads (`target`) to open once the handles that do not match are closed: those
/// whose directory has no handle that stays open (see [`handles_opening`]).
pub fn handles_to_open(current: &Vec<(String, bool)>, target: &Vec<(String, bool)>) -> (r: Vec<(String, bool)>)
    ensures
        assoc_view(r@) == handles_opening(assoc_view(current@), assoc_view(target@), assoc_view(target@)),
{
    let ghost tg = assoc_view(target@);
    let mut out: Vec<(String, bool)> = Vec::new();
    let mut i: usize = 0;
    while i < target.len()
        invariant
            i <= target@.len(),
            tg == assoc_view(target@),
            assoc_view(out@) == handles_opening(assoc_view(current@), tg, tg.take(i as int)),
        decreases target@.len() - i,
    {
        assert(tg.take(i + 1).drop_last() =~= tg.take(i as int));
        assert(tg.take(i + 1).last() == tg[i as int]);
        assert(tg[i as int] == (target@[i as int].0@, target@[i as int].1));
        let (p, rec) = &target[i];
        let kept = match assoc_flag(current, p) {
            Some(c) => assoc_flag(target, p) == Some(c),
            None => false,
        };
        if !kept {
            let ghost before = assoc_view(out@);
            out.push((p.clone(), *rec));
            assert(assoc_view(out@) =~= before.push(tg[i as int]));
        }
        i = i + 1;
    }
    assert(tg.take(i as int) =~= tg);
    out
}


/// The open handles `m` after the ones of `close` are closed and the reads of `open` opened.
pub open spec fn after_rebuild(m: Map<Seq<char>, bool>, close: Seq<Seq<char>>, open: Seq<(Seq<char>, bool)>) -> Map<Seq<char>, bool> {
    Map::new(
        |p: Seq<char>| (m.contains_key(p) && !close.contains(p)) || assoc_get(open, p) is Some,
        |p: Seq<char>| match assoc_get(open, p) {
            Some(v) => v,
            None => m[p],
        },
    )
}

proof fn lemma_push_if_contains<A>(s: Seq<A>, c: bool, x: A, y: A)
    ensures
        push_if(s, c, x).contains(y) <==> (s.contains(y) || (c && x == y)),
{
    if c {
        let t = s.push(x);
        if t.contains(y) {
            let j = choose|j: int| 0 <= j < t.len() && t[j] == y;
            if j < s.len() {
                assert(s[j] == y);
            }
        }
        if s.contains(y) {
            let j = choose|j: int| 0 <= j < s.len() && s[j] == y;
            assert(t[j] == y);
        }
        if x == y {
            assert(t[s.len() as int] == y);
        }
    }
}

/// With distinct directories, a handle is closed exactly when the target does not read its
/// directory with the handle's flag.
proof fn lemma_closing_contains(cur: Seq<(Seq<char>, bool)>, tg: Seq<(Seq<char>, bool)>, p: Seq<char>)
    requires
        keys_distinct(cur),
    ensures
        handles_closing(cur, tg).contains(p) <==> (assoc_get(cur, p) matches Some(c) && assoc_get(tg, p) != Some(c)),
    decreases cur.len(),
{
    if cur.len() > 0 {
        let rest = cur.drop_last();
        let e = cur.last();
        assert(rest.push(e) =~= cur);
        assert forall|i: int, j: int| 0 <= i < rest.len() && 0 <= j < rest.len() && i != j implies
            (#[trigger] rest[i]).0 != (#[trigger] rest[j]).0 by {
            assert(rest[i] == cur[i] && rest[j] == cur[j]);
        }
        lemma_closing_contains(rest, tg, p);
        lemma_push_if_contains(handles_closing(rest, tg), assoc_get(tg, e.0) != Some(e.1), e.0, p);
        lemma_assoc_get_push(rest, e.0, e.1, p);
        assert forall|j: int| 0 <= j < rest.len() implies (#[trigger] rest[j]).0 != e.0 by {
            assert(cur[j] == rest[j]);
            assert(cur[cur.len() - 1] == e);
        }
        lemma_assoc_get_absent(rest, e.0);
    }
}

/// A read of the target is opened exactly when its directory has no handle that stays open,
/// with the flag the target gives it.
proof fn lemma_opening_get(cur: Seq<(Seq<char>, bool)>, tg: Seq<(Seq<char>, bool)>, es: Seq<(Seq<char>, bool)>, q: Seq<char>)
    ensures
        assoc_get(handles_opening(cur, tg, es), q) == if assoc_get(cur, q) matches Some(c) && assoc_get(tg, q) == Some(c) {
            None
        } else {
            assoc_get(es, q)
        },
    decreases es.len(),
{
    if es.len() > 0 {
        let rest = es.drop_last();
        let e = es.last();
        assert(rest.push(e) =~= es);
        lemma_opening_get(cur, tg, rest, q);
        lemma_assoc_get_push(rest, e.0, e.1, q);
        lemma_assoc_get_push(handles_opening(cur, tg, rest), e.0, e.1, q);
    }
}

/// Closing the handles of [`handles_to_close`] and opening the reads of [`handles_to_open`]
/// leaves exactly the target reads open, each with the target's flag: the handles converge
/// with the target. (The open handles have distinct directories, as a map of handles does.)
pub proof fn lemma_rebuild_converges(cur: Seq<(Seq<char>, bool)>, tg: Seq<(Seq<char>, bool)>)
    requires
        keys_distinct(cur),
    ensures
        after_rebuild(assoc_map(cur), handles_closing(cur, tg), handles_opening(cur, tg, tg)) == assoc_map(tg),
{
    let r = after_rebuild(assoc_map(cur), handles_closing(cur, tg), handles_opening(cur, tg, tg));
    assert forall|p: Seq<char>| #[trigger] r.contains_key(p) == assoc_map(tg).contains_key(p)
        && (r.contains_key(p) ==> r[p] == assoc_map(tg)[p]) by {
        lemma_closing_contains(cur, tg, p);
        lemma_opening_get(cur, tg, tg, p);
    }
    assert(r =~= assoc_map(tg));
}


/// Repeated watches of the same path only ever widen its coverage: once a watch is
/// registered, the path's mode covers the mode asked for and the mode it had before.
pub proof fn lemma_rewatch_only_widens(b: WindowsWatchesView, path: Seq<char>, mode: WatchMode, metadata: Result<EntryKind, Error>)
    requires
        added(b, path, mode, metadata) is Some,
    ensures
        added(b, path, mode, metadata)->0.watches.contains_key(path),
        watch_mode_covers(added(b, path, mode, metadata)->0.watches[path], mode),
        b.watches.contains_key(path) ==> watch_mode_covers(added(b, path, mode, metadata)->0.watches[path], b.watches[path]),
        forall|q: Seq<char>| q != path ==> #[trigger] added(b, path, mode, metadata)->0.watches.get(q) == b.watches.get(q),
{
    if b.watches.contains_key(path) {
        lemma_upgrade_is_least_upper_bound(b.watches[path], mode, mode);
    }
}


/// The records of a read report only covered paths: every path of every event they give is
/// covered by a user watch (see [`covered`]).
pub proof fn lemma_records_report_only_covered_paths(t: Seq<(Seq<char>, WatchMode)>, rs: Seq<(u32, Seq<char>)>)
    ensures
        forall|i: int, j: int| 0 <= i < record_events(t, rs).len() && 0 <= j < record_events(t, rs)[i].1.len()
            ==> covered(t, #[trigger] record_events(t, rs)[i].1[j]),
    decreases rs.len(),
{
    if rs.len() > 0 {
        lemma_records_report_only_covered_paths(t, rs.drop_last());
        let prev = record_events(t, rs.drop_last());
        let e = rs.last();
        let now = record_events(t, rs);
        assert forall|i: int, j: int| 0 <= i < now.len() && 0 <= j < now[i].1.len() implies covered(t, #[trigger] now[i].1[j]) by {
            if i < prev.len() {
                assert(now[i] == prev[i]);
            } else {
                assert(now[i].1 == seq![e.1]);
            }
        }
    }
}

} // verus!
