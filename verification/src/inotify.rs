//! The translation of Linux inotify notifications into file system events, and the watch
//! bookkeeping that each notification drives.

use crate::ancestors::{ancestors_of, counts_after_untrack, forgotten, AncestorCounts};
use crate::bits::{contains_bits, has_bits};
use crate::config::TargetMode;
use crate::error::{Error, ErrorKind};
use crate::fs_event::{
    head, paths_view, AccessKind, AccessMode, CreateKind, DataChange, Event, EventHead, EventKind,
    Flag, MetadataKind, ModifyKind, RemoveKind, RenameMode,
};
use crate::path_ops::same_path;
use crate::watch_table::{
    find_root, forgotten_watches_to_drop, keeps_watch, remove_root,
    add_watch_by_event, is_watched_path, lookup, note_gone, note_present, present_state,
    lemma_watched_after_set_state, set_state_spec, table_view, watch_to_add, watched, RootState, RootWatch,
};
use vstd::prelude::*;

verus! {

pub const IN_ACCESS: u32 = 0x0000_0001;
pub const IN_MODIFY: u32 = 0x0000_0002;
pub const IN_ATTRIB: u32 = 0x0000_0004;
pub const IN_CLOSE_WRITE: u32 = 0x0000_0008;
pub const IN_CLOSE_NOWRITE: u32 = 0x0000_0010;
pub const IN_OPEN: u32 = 0x0000_0020;
pub const IN_MOVED_FROM: u32 = 0x0000_0040;
pub const IN_MOVED_TO: u32 = 0x0000_0080;
pub const IN_CREATE: u32 = 0x0000_0100;
pub const IN_DELETE: u32 = 0x0000_0200;
pub const IN_DELETE_SELF: u32 = 0x0000_0400;
pub const IN_MOVE_SELF: u32 = 0x0000_0800;
pub const IN_UNMOUNT: u32 = 0x0000_2000;
pub const IN_Q_OVERFLOW: u32 = 0x0000_4000;
pub const IN_IGNORED: u32 = 0x0000_8000;
pub const IN_ISDIR: u32 = 0x4000_0000;

/// The watch changes that a batch of notifications asks for, applied once the batch is read.
#[derive(Clone, Debug)]
pub struct PendingChanges {
    /// Paths to watch, with whether recursively and whether each is a file without hard links.
    pub add_watches: Vec<(String, bool, bool)>,
    /// Paths whose watch descriptor is to be removed.
    pub remove_watches: Vec<String>,
    /// Paths whose watch descriptor the kernel dropped already.
    pub remove_watches_no_syscall: Vec<String>,
    /// Ancestors of tracked roots that went away.
    pub vanished: Vec<String>,
    /// Ancestors of tracked roots that came back as directories.
    pub appeared: Vec<String>,
}

/// What the inotify backend keeps between notifications.
#[derive(Clone, Debug)]
pub struct InotifyBook {
    /// The user watch roots.
    pub watches: Vec<(String, RootWatch)>,
    /// The paths that have tracked roots strictly below them, with how many.
    pub ancestors: AncestorCounts,
    /// The rename tracker and path of the last move away, awaiting the move that completes it.
    pub rename_from: Option<(usize, String)>,
    pub pending: PendingChanges,
}

/// The abstract content of an [`InotifyBook`].
pub ghost struct BookView {
    pub table: Seq<(Seq<char>, RootWatch)>,
    pub ancestors: Map<Seq<char>, nat>,
    pub rename_from: Option<(usize, Seq<char>)>,
    pub adds: Seq<(Seq<char>, bool, bool)>,
    pub removes: Seq<Seq<char>>,
    pub removes_no_syscall: Seq<Seq<char>>,
    pub vanished: Seq<Seq<char>>,
    pub appeared: Seq<Seq<char>>,
}

/// A list of paths, as characters.
pub open spec fn strs_view(s: Seq<String>) -> Seq<Seq<char>> {
    s.map_values(|p: String| p@)
}

impl View for InotifyBook {
    type V = BookView;

    open spec fn view(&self) -> BookView {
        BookView {
            table: table_view(self.watches@),
            ancestors: self.ancestors.counts(),
            rename_from: match self.rename_from {
                Some(r) => Some((r.0, r.1@)),
                None => None,
            },
            adds: self.pending.add_watches@.map_values(|e: (String, bool, bool)| (e.0@, e.1, e.2)),
            removes: strs_view(self.pending.remove_watches@),
            removes_no_syscall: strs_view(self.pending.remove_watches_no_syscall@),
            vanished: strs_view(self.pending.vanished@),
            appeared: strs_view(self.pending.appeared@),
        }
    }
}

/// An event with its paths, as characters.
pub type EventView = (EventHead, Seq<Seq<char>>);

/// The events of a list, as characters.
pub open spec fn events_view(s: Seq<Event>) -> Seq<EventView> {
    s.map_values(|e: Event| (e.head(), paths_view(e.paths@)))
}

/// An event of `kind` on `path`.
pub open spec fn on(kind: EventKind, path: Seq<char>) -> EventView {
    (head(kind), seq![path])
}

/// An event of `kind` on `path` with the rename tracker `tracker`.
pub open spec fn tracked_on(kind: EventKind, tracker: usize, path: Seq<char>) -> EventView {
    (EventHead { tracker: Some(tracker), ..head(kind) }, seq![path])
}

/// `s` with `e` appended when `c` holds.
pub open spec fn push_if<T>(s: Seq<T>, c: bool, e: T) -> Seq<T> {
    if c { s.push(e) } else { s }
}

/// Whether `path` has a watch descriptor.
pub open spec fn has_handle(handles: Seq<(Seq<char>, bool)>, path: Seq<char>) -> bool {
    exists|i: int| 0 <= i < handles.len() && (#[trigger] handles[i]).0 == path
}

/// Whether the first watch descriptor of `path` is on a directory, if it has one.
pub open spec fn handle_is_dir(handles: Seq<(Seq<char>, bool)>, path: Seq<char>) -> Option<bool>
    decreases handles.len(),
{
    if handles.len() == 0 {
        None
    } else if handles[0].0 == path {
        Some(handles[0].1)
    } else {
        handle_is_dir(handles.drop_first(), path)
    }
}

/// Whether tracked roots lie below `path`.
pub open spec fn is_ancestor(b: BookView, path: Seq<char>) -> bool {
    b.ancestors.contains_key(path)
}

/// The book after `path` is gone (see [`note_gone`]).
pub open spec fn gone(b: BookView, path: Seq<char>) -> BookView {
    BookView {
        table: set_state_spec(b.table, path, RootState::Missing),
        vanished: push_if(b.vanished, is_ancestor(b, path), path),
        ..b
    }
}

/// The book after `path` appeared (see [`note_present`]).
pub open spec fn present(b: BookView, path: Seq<char>, is_dir: bool) -> BookView {
    BookView {
        table: set_state_spec(b.table, path, present_state(is_dir)),
        appeared: push_if(b.appeared, is_dir && is_ancestor(b, path), path),
        ..b
    }
}

/// The book with a watch queued for `path`, which appeared (see [`watch_to_add`]).
pub open spec fn queue_add(b: BookView, path: Seq<char>, fwh: bool) -> BookView {
    BookView {
        adds: match watch_to_add(b.table, path) {
            Some(rec) => b.adds.push((path, rec, fwh)),
            None => b.adds,
        },
        ..b
    }
}

/// The book with the watch descriptor of `path`, if it has one, queued for removal.
pub open spec fn queue_remove(b: BookView, handles: Seq<(Seq<char>, bool)>, path: Seq<char>) -> BookView {
    BookView { removes: push_if(b.removes, has_handle(handles, path), path), ..b }
}

/// A notification as the step sees it.
pub ghost struct Notification {
    pub mask: u32,
    pub path: Seq<char>,
    pub cookie: u32,
    /// Whether the path is a file without other hard links (read when it appeared).
    pub file_without_hardlinks: bool,
}

/// The effect of a move away or a move in.
pub open spec fn moves_step(b: BookView, evs: Seq<EventView>, handles: Seq<(Seq<char>, bool)>, n: Notification) -> (BookView, Seq<EventView>) {
    let w = watched(b.table, n.path);
    let tracker = n.cookie as usize;
    if has_bits(n.mask, IN_MOVED_FROM) {
        let b1 = queue_remove(b, handles, n.path);
        let b2 = BookView { rename_from: Some((tracker, n.path)), ..b1 };
        (gone(b2, n.path), push_if(evs, w, tracked_on(EventKind::Modify(ModifyKind::Name(RenameMode::From)), tracker, n.path)))
    } else if has_bits(n.mask, IN_MOVED_TO) {
        let is_dir = has_bits(n.mask, IN_ISDIR);
        let (b1, evs1) = if w {
            let evs_to = evs.push(tracked_on(EventKind::Modify(ModifyKind::Name(RenameMode::To)), tracker, n.path));
            match b.rename_from {
                Some((t, from)) => if t == tracker {
                    (
                        BookView { rename_from: None, ..b },
                        push_if(evs_to, watched(b.table, from),
                            (EventHead { tracker: Some(tracker), ..head(EventKind::Modify(ModifyKind::Name(RenameMode::Both))) }, seq![from, n.path])),
                    )
                } else {
                    (b, evs_to)
                },
                None => (b, evs_to),
            }
        } else {
            (b, evs)
        };
        let b2 = queue_add(b1, n.path, !is_dir && n.file_without_hardlinks);
        (present(b2, n.path, is_dir), evs1)
    } else {
        (b, evs)
    }
}

/// The effect of the watched item moving itself.
pub open spec fn move_self_step(b: BookView, evs: Seq<EventView>, handles: Seq<(Seq<char>, bool)>, n: Notification) -> (BookView, Seq<EventView>) {
    if has_bits(n.mask, IN_MOVE_SELF) {
        let b1 = queue_remove(b, handles, n.path);
        (
            BookView { table: set_state_spec(b1.table, n.path, RootState::Missing), ..b1 },
            push_if(evs, watched(b.table, n.path), on(EventKind::Modify(ModifyKind::Name(RenameMode::From)), n.path)),
        )
    } else {
        (b, evs)
    }
}

/// The effect of an entry being created.
pub open spec fn create_step(b: BookView, evs: Seq<EventView>, n: Notification) -> (BookView, Seq<EventView>) {
    if has_bits(n.mask, IN_CREATE) {
        let is_dir = has_bits(n.mask, IN_ISDIR);
        let kind = EventKind::Create(if is_dir { CreateKind::Folder } else { CreateKind::File });
        let b1 = queue_add(b, n.path, !is_dir && n.file_without_hardlinks);
        (present(b1, n.path, is_dir), push_if(evs, watched(b.table, n.path), on(kind, n.path)))
    } else {
        (b, evs)
    }
}

/// The effect of an entry being deleted.
pub open spec fn delete_step(b: BookView, evs: Seq<EventView>, handles: Seq<(Seq<char>, bool)>, n: Notification) -> (BookView, Seq<EventView>) {
    if has_bits(n.mask, IN_DELETE) {
        let kind = EventKind::Remove(if has_bits(n.mask, IN_ISDIR) { RemoveKind::Folder } else { RemoveKind::File });
        (gone(queue_remove(b, handles, n.path), n.path), push_if(evs, watched(b.table, n.path), on(kind, n.path)))
    } else {
        (b, evs)
    }
}

/// The effect of the watched item being deleted.
pub open spec fn delete_self_step(b: BookView, evs: Seq<EventView>, handles: Seq<(Seq<char>, bool)>, n: Notification) -> (BookView, Seq<EventView>) {
    if has_bits(n.mask, IN_DELETE_SELF) {
        let kind = match handle_is_dir(handles, n.path) {
            Some(d) => if d { RemoveKind::Folder } else { RemoveKind::File },
            None => RemoveKind::Other,
        };
        let b1 = BookView { table: set_state_spec(b.table, n.path, RootState::Missing), ..b };
        (queue_remove(b1, handles, n.path), push_if(evs, watched(b.table, n.path), on(EventKind::Remove(kind), n.path)))
    } else {
        (b, evs)
    }
}

/// The effect of the file system of the item being unmounted.
pub open spec fn unmount_step(b: BookView, evs: Seq<EventView>, handles: Seq<(Seq<char>, bool)>, n: Notification) -> (BookView, Seq<EventView>) {
    if has_bits(n.mask, IN_UNMOUNT) {
        (
            BookView { removes_no_syscall: push_if(b.removes_no_syscall, has_handle(handles, n.path), n.path), ..b },
            push_if(evs, watched(b.table, n.path), on(EventKind::Remove(RemoveKind::Other), n.path)),
        )
    } else {
        (b, evs)
    }
}

/// The events of accesses and content or metadata changes.
pub open spec fn access_events(evs: Seq<EventView>, w: bool, n: Notification) -> Seq<EventView> {
    let e1 = push_if(evs, w && has_bits(n.mask, IN_MODIFY), on(EventKind::Modify(ModifyKind::Data(DataChange::Any)), n.path));
    let e2 = push_if(e1, w && has_bits(n.mask, IN_CLOSE_WRITE), on(EventKind::Access(AccessKind::Close(AccessMode::Write)), n.path));
    let e3 = push_if(e2, w && has_bits(n.mask, IN_CLOSE_NOWRITE), on(EventKind::Access(AccessKind::Close(AccessMode::Read)), n.path));
    let e4 = push_if(e3, w && has_bits(n.mask, IN_ATTRIB), on(EventKind::Modify(ModifyKind::Metadata(MetadataKind::Any)), n.path));
    push_if(e4, w && has_bits(n.mask, IN_OPEN), on(EventKind::Access(AccessKind::Open(AccessMode::Any)), n.path))
}

/// The book and the events, appended to `e0`, after one notification on a known path: the steps of each kind of
/// change that the mask holds, in a fixed order.
pub open spec fn notification_step(b: BookView, e0: Seq<EventView>, handles: Seq<(Seq<char>, bool)>, n: Notification) -> (BookView, Seq<EventView>) {
    let (b1, e1) = moves_step(b, e0, handles, n);
    let (b2, e2) = move_self_step(b1, e1, handles, n);
    let (b3, e3) = create_step(b2, e2, n);
    let (b4, e4) = delete_step(b3, e3, handles, n);
    let (b5, e5) = delete_self_step(b4, e4, handles, n);
    let (b6, e6) = unmount_step(b5, e5, handles, n);
    (b6, access_events(e6, watched(b.table, n.path), n))
}

/// The rescan event that a queue overflow gives.
pub open spec fn rescan_event() -> EventView {
    (EventHead { flag: Some(Flag::Rescan), ..head(EventKind::Other) }, seq![])
}

/// The book and the events after one notification: a queue overflow first asks for a rescan;
/// a notification whose watch descriptor is unknown (`path` is none) changes nothing else.
pub open spec fn handle_spec(
    b: BookView,
    handles: Seq<(Seq<char>, bool)>,
    mask: u32,
    path: Option<Seq<char>>,
    cookie: u32,
    file_without_hardlinks: bool,
) -> (BookView, Seq<EventView>) {
    let e0 = if has_bits(mask, IN_Q_OVERFLOW) { seq![rescan_event()] } else { seq![] };
    match path {
        None => (b, e0),
        Some(p) => notification_step(b, e0, handles, Notification { mask, path: p, cookie, file_without_hardlinks }),
    }
}

/// The handles of watch descriptors, as characters.
pub open spec fn handles_view(h: Seq<(String, bool)>) -> Seq<(Seq<char>, bool)> {
    h.map_values(|e: (String, bool)| (e.0@, e.1))
}

/// Whether `path` has a watch descriptor.
pub(crate) fn find_handle(handles: &Vec<(String, bool)>, path: &String) -> (r: Option<bool>)
    ensures
        r == handle_is_dir(handles_view(handles@), path@),
        r is Some <==> has_handle(handles_view(handles@), path@),
{
    let ghost h = handles_view(handles@);
    assert(h.skip(0) =~= h);
    let mut i: usize = 0;
    while i < handles.len()
        invariant
            i <= handles@.len(),
            h == handles_view(handles@),
            handle_is_dir(h, path@) == handle_is_dir(h.skip(i as int), path@),
            forall|j: int| 0 <= j < i ==> (#[trigger] h[j]).0 != path@,
        decreases handles@.len() - i,
    {
        let ghost rest = h.skip(i as int);
        assert(rest[0] == h[i as int]);
        assert(rest.drop_first() =~= h.skip(i + 1));
        if same_path(&handles[i].0, path) {
            assert(h[i as int].0 == path@);
            return Some(handles[i].1);
        }
        i = i + 1;
    }
    assert(h.skip(i as int) =~= Seq::<(Seq<char>, bool)>::empty());
    None
}

/// Appends `ev` to `out` when `c` holds.
pub(crate) fn push_event_if(out: &mut Vec<Event>, c: bool, ev: Event)
    ensures
        events_view(final(out)@) == push_if(events_view(old(out)@), c, (ev.head(), paths_view(ev.paths@))),
{
    if c {
        out.push(ev);
        assert(events_view(out@) =~= events_view(old(out)@).push((ev.head(), paths_view(ev.paths@))));
    }
}

/// An event of `kind` on `path`.
pub(crate) fn event_on(kind: EventKind, path: &String) -> (r: Event)
    ensures
        (r.head(), paths_view(r.paths@)) == on(kind, path@),
{
    let r = Event::new(kind).add_path(path.clone());
    assert(paths_view(r.paths@) =~= seq![path@]);
    r
}

/// An event of `kind` on `path` with the rename tracker `tracker`.
fn tracked_event_on(kind: EventKind, tracker: usize, path: &String) -> (r: Event)
    ensures
        (r.head(), paths_view(r.paths@)) == tracked_on(kind, tracker, path@),
{
    let r = Event::new(kind).set_tracker(tracker).add_path(path.clone());
    assert(paths_view(r.paths@) =~= seq![path@]);
    r
}

/// Queues the removal of the watch descriptor of `path`, if it has one.
fn queue_remove_exec(book: &mut InotifyBook, handles: &Vec<(String, bool)>, path: &String)
    requires
        old(book).ancestors.wf(),
    ensures
        final(book)@ == queue_remove(old(book)@, handles_view(handles@), path@),
        final(book).ancestors == old(book).ancestors,
{
    if find_handle(handles, path).is_some() {
        book.pending.remove_watches.push(path.clone());
        assert(strs_view(book.pending.remove_watches@) =~= strs_view(old(book).pending.remove_watches@).push(path@));
    }
}

/// Notes that `path` is gone.
fn gone_exec(book: &mut InotifyBook, path: &String)
    requires
        old(book).ancestors.wf(),
    ensures
        final(book)@ == gone(old(book)@, path@),
        final(book).ancestors == old(book).ancestors,
{
    let anc = book.ancestors.contains(path);
    note_gone(&mut book.watches, anc, path, &mut book.pending.vanished);
    assert(strs_view(book.pending.vanished@) =~= push_if(strs_view(old(book).pending.vanished@), anc, path@));
}

/// Notes that `path` appeared, as a directory when `is_dir`.
fn present_exec(book: &mut InotifyBook, path: &String, is_dir: bool)
    requires
        old(book).ancestors.wf(),
    ensures
        final(book)@ == present(old(book)@, path@, is_dir),
        final(book).ancestors == old(book).ancestors,
{
    let anc = book.ancestors.contains(path);
    note_present(&mut book.watches, anc, path, is_dir, &mut book.pending.appeared);
    assert(strs_view(book.pending.appeared@) =~= push_if(strs_view(old(book).pending.appeared@), is_dir && anc, path@));
}

/// Queues a watch on `path`, which appeared.
fn queue_add_exec(book: &mut InotifyBook, path: &String, fwh: bool)
    requires
        old(book).ancestors.wf(),
    ensures
        final(book)@ == queue_add(old(book)@, path@, fwh),
        final(book).ancestors == old(book).ancestors,
{
    add_watch_by_event(path, fwh, &book.watches, &mut book.pending.add_watches);
    assert(book@.adds =~= queue_add(old(book)@, path@, fwh).adds);
}

/// The notification as the step sees it.
pub open spec fn notification(mask: u32, path: Seq<char>, cookie: u32, file_without_hardlinks: bool) -> Notification {
    Notification { mask, path, cookie, file_without_hardlinks }
}

fn moves_exec(book: &mut InotifyBook, out: &mut Vec<Event>, handles: &Vec<(String, bool)>, mask: u32, path: &String, cookie: u32, fwh: bool)
    requires
        old(book).ancestors.wf(),
    ensures
        (final(book)@, events_view(final(out)@)) == moves_step(old(book)@, events_view(old(out)@), handles_view(handles@), notification(mask, path@, cookie, fwh)),
        final(book).ancestors == old(book).ancestors,
{
    let w = is_watched_path(&book.watches, path);
    let tracker = cookie as usize;
    if contains_bits(mask, IN_MOVED_FROM) {
        queue_remove_exec(book, handles, path);
        book.rename_from = Some((tracker, path.clone()));
        push_event_if(out, w, tracked_event_on(EventKind::Modify(ModifyKind::Name(RenameMode::From)), tracker, path));
        gone_exec(book, path);
    } else if contains_bits(mask, IN_MOVED_TO) {
        let is_dir = contains_bits(mask, IN_ISDIR);
        if w {
            out.push(tracked_event_on(EventKind::Modify(ModifyKind::Name(RenameMode::To)), tracker, path));
            let matches = match &book.rename_from {
                Some((t, _)) => *t == tracker,
                None => false,
            };
            if matches {
                let taken = book.rename_from.take();
                match taken {
                    Some((_, from)) => {
                        let from_watched = is_watched_path(&book.watches, &from);
                        let both = Event::new(EventKind::Modify(ModifyKind::Name(RenameMode::Both)))
                            .set_tracker(tracker)
                            .add_path(from.clone())
                            .add_path(path.clone());
                        assert(paths_view(both.paths@) =~= seq![from@, path@]);
                        push_event_if(out, from_watched, both);
                    },
                    None => {},
                }
            }
        }
        queue_add_exec(book, path, !is_dir && fwh);
        present_exec(book, path, is_dir);
    }
}

fn move_self_exec(book: &mut InotifyBook, out: &mut Vec<Event>, handles: &Vec<(String, bool)>, mask: u32, path: &String, cookie: u32, fwh: bool)
    requires
        old(book).ancestors.wf(),
    ensures
        (final(book)@, events_view(final(out)@)) == move_self_step(old(book)@, events_view(old(out)@), handles_view(handles@), notification(mask, path@, cookie, fwh)),
        final(book).ancestors == old(book).ancestors,
{
    if contains_bits(mask, IN_MOVE_SELF) {
        let w = is_watched_path(&book.watches, path);
        queue_remove_exec(book, handles, path);
        crate::watch_table::set_state(&mut book.watches, path, RootState::Missing);
        push_event_if(out, w, event_on(EventKind::Modify(ModifyKind::Name(RenameMode::From)), path));
    }
}

fn create_exec(book: &mut InotifyBook, out: &mut Vec<Event>, mask: u32, path: &String, cookie: u32, fwh: bool)
    requires
        old(book).ancestors.wf(),
    ensures
        (final(book)@, events_view(final(out)@)) == create_step(old(book)@, events_view(old(out)@), notification(mask, path@, cookie, fwh)),
        final(book).ancestors == old(book).ancestors,
{
    if contains_bits(mask, IN_CREATE) {
        let is_dir = contains_bits(mask, IN_ISDIR);
        let w = is_watched_path(&book.watches, path);
        let kind = EventKind::Create(if is_dir { CreateKind::Folder } else { CreateKind::File });
        push_event_if(out, w, event_on(kind, path));
        queue_add_exec(book, path, !is_dir && fwh);
        present_exec(book, path, is_dir);
    }
}

fn delete_exec(book: &mut InotifyBook, out: &mut Vec<Event>, handles: &Vec<(String, bool)>, mask: u32, path: &String, cookie: u32, fwh: bool)
    requires
        old(book).ancestors.wf(),
    ensures
        (final(book)@, events_view(final(out)@)) == delete_step(old(book)@, events_view(old(out)@), handles_view(handles@), notification(mask, path@, cookie, fwh)),
        final(book).ancestors == old(book).ancestors,
{
    if contains_bits(mask, IN_DELETE) {
        let kind = EventKind::Remove(if contains_bits(mask, IN_ISDIR) { RemoveKind::Folder } else { RemoveKind::File });
        let w = is_watched_path(&book.watches, path);
        push_event_if(out, w, event_on(kind, path));
        queue_remove_exec(book, handles, path);
        gone_exec(book, path);
    }
}

fn delete_self_exec(book: &mut InotifyBook, out: &mut Vec<Event>, handles: &Vec<(String, bool)>, mask: u32, path: &String, cookie: u32, fwh: bool)
    requires
        old(book).ancestors.wf(),
    ensures
        (final(book)@, events_view(final(out)@)) == delete_self_step(old(book)@, events_view(old(out)@), handles_view(handles@), notification(mask, path@, cookie, fwh)),
        final(book).ancestors == old(book).ancestors,
{
    if contains_bits(mask, IN_DELETE_SELF) {
        let kind = match find_handle(handles, path) {
            Some(d) => if d { RemoveKind::Folder } else { RemoveKind::File },
            None => RemoveKind::Other,
        };
        let w = is_watched_path(&book.watches, path);
        crate::watch_table::set_state(&mut book.watches, path, RootState::Missing);
        push_event_if(out, w, event_on(EventKind::Remove(kind), path));
        queue_remove_exec(book, handles, path);
    }
}

fn unmount_exec(book: &mut InotifyBook, out: &mut Vec<Event>, handles: &Vec<(String, bool)>, mask: u32, path: &String, cookie: u32, fwh: bool)
    requires
        old(book).ancestors.wf(),
    ensures
        (final(book)@, events_view(final(out)@)) == unmount_step(old(book)@, events_view(old(out)@), handles_view(handles@), notification(mask, path@, cookie, fwh)),
        final(book).ancestors == old(book).ancestors,
{
    if contains_bits(mask, IN_UNMOUNT) {
        let w = is_watched_path(&book.watches, path);
        push_event_if(out, w, event_on(EventKind::Remove(RemoveKind::Other), path));
        if find_handle(handles, path).is_some() {
            book.pending.remove_watches_no_syscall.push(path.clone());
            assert(strs_view(book.pending.remove_watches_no_syscall@)
                =~= strs_view(old(book).pending.remove_watches_no_syscall@).push(path@));
        }
    }
}

fn access_exec(out: &mut Vec<Event>, w: bool, mask: u32, path: &String, cookie: u32, fwh: bool)
    ensures
        events_view(final(out)@) == access_events(events_view(old(out)@), w, notification(mask, path@, cookie, fwh)),
{
    push_event_if(out, w && contains_bits(mask, IN_MODIFY), event_on(EventKind::Modify(ModifyKind::Data(DataChange::Any)), path));
    push_event_if(out, w && contains_bits(mask, IN_CLOSE_WRITE), event_on(EventKind::Access(AccessKind::Close(AccessMode::Write)), path));
    push_event_if(out, w && contains_bits(mask, IN_CLOSE_NOWRITE), event_on(EventKind::Access(AccessKind::Close(AccessMode::Read)), path));
    push_event_if(out, w && contains_bits(mask, IN_ATTRIB), event_on(EventKind::Modify(ModifyKind::Metadata(MetadataKind::Any)), path));
    push_event_if(out, w && contains_bits(mask, IN_OPEN), event_on(EventKind::Access(AccessKind::Open(AccessMode::Any)), path));
}

/// Handles one inotify notification: `mask` is its mask, `path` the watched path it concerns
/// (none when its watch descriptor is unknown), `cookie` the cookie that pairs the two sides
/// of a rename, `file_without_hardlinks` whether the path is a file with a single link (read
/// from the file system when it appeared), and `handles` the paths that have a watch
/// descriptor, with whether each is a directory. Returns the events to report, in order,
/// and updates the book as [`handle_spec`] says.
pub fn handle_notification(
    book: &mut InotifyBook,
    handles: &Vec<(String, bool)>,
    mask: u32,
    path: Option<String>,
    cookie: u32,
    file_without_hardlinks: bool,
) -> (r: Vec<Event>)
    requires
        old(book).ancestors.wf(),
    ensures
        (final(book)@, events_view(r@)) == handle_spec(old(book)@, handles_view(handles@), mask,
            match path { Some(p) => Some(p@), None => None }, cookie, file_without_hardlinks),
        final(book).ancestors == old(book).ancestors,
{
    let mut out: Vec<Event> = Vec::new();
    if contains_bits(mask, IN_Q_OVERFLOW) {
        let ev = Event::new(EventKind::Other).set_flag(Flag::Rescan);
        assert(paths_view(ev.paths@) =~= Seq::<Seq<char>>::empty());
        out.push(ev);
        assert(events_view(out@) =~= seq![rescan_event()]);
    } else {
        assert(events_view(out@) =~= Seq::<EventView>::empty());
    }
    let path = match path {
        Some(p) => p,
        None => {
            return out;
        },
    };
    let w = is_watched_path(&book.watches, &path);
    moves_exec(book, &mut out, handles, mask, &path, cookie, file_without_hardlinks);
    move_self_exec(book, &mut out, handles, mask, &path, cookie, file_without_hardlinks);
    create_exec(book, &mut out, mask, &path, cookie, file_without_hardlinks);
    delete_exec(book, &mut out, handles, mask, &path, cookie, file_without_hardlinks);
    delete_self_exec(book, &mut out, handles, mask, &path, cookie, file_without_hardlinks);
    unmount_exec(book, &mut out, handles, mask, &path, cookie, file_without_hardlinks);
    access_exec(&mut out, w, mask, &path, cookie, file_without_hardlinks);
    out
}

impl InotifyBook {
    /// No watch, no pending change.
    pub fn new() -> (r: InotifyBook)
        ensures
            r.ancestors.wf(),
            r@.table.len() == 0,
            r@.ancestors == Map::<Seq<char>, nat>::empty(),
            r@.rename_from is None,
            r@.adds.len() == 0 && r@.removes.len() == 0 && r@.removes_no_syscall.len() == 0,
            r@.vanished.len() == 0 && r@.appeared.len() == 0,
    {
        let r = InotifyBook {
            watches: Vec::new(),
            ancestors: AncestorCounts::new(),
            rename_from: None,
            pending: PendingChanges {
                add_watches: Vec::new(),
                remove_watches: Vec::new(),
                remove_watches_no_syscall: Vec::new(),
                vanished: Vec::new(),
                appeared: Vec::new(),
            },
        };
        
        r
    }
}

/// The error of a watch that the platform refused, from what the refusal says: the limit of
/// watches is reached (`no_space`: the system is out of watch entries), the path is not found
/// (`not_found`), or another I/O failure, described by `message`. It concerns `path`.
pub fn add_watch_error(no_space: bool, not_found: bool, message: String, path: String) -> (r: Error)
    ensures
        r.kind == (if no_space { ErrorKind::MaxFilesWatch } else if not_found { ErrorKind::PathNotFound } else { ErrorKind::Io(message) }),
        r.paths@ == seq![path],
{
    let kind = if no_space {
        ErrorKind::MaxFilesWatch
    } else if not_found {
        ErrorKind::PathNotFound
    } else {
        ErrorKind::Io(message)
    };
    let r = Error::new(kind).add_path(path);
    assert(r.paths@ =~= seq![path]);
    r
}

/// What a batch of watch additions does after one of them.
#[derive(Copy, Clone, PartialEq, Eq, Debug, Structural)]
pub enum BatchStep {
    /// Go on with the next addition.
    Continue,
    /// Report the error, and go on.
    Report,
    /// Report the error, and stop: every later addition would meet it again.
    ReportAndStop,
}

/// What a batch of watch additions does after the outcome of one: the limit of watches is
/// reported and stops the batch; another error is reported, and the batch goes on, only where
/// `report_errors` (roots armed again), and is dropped otherwise (watches queued by
/// notifications).
pub fn batch_step(outcome: &Result<(), Error>, report_errors: bool) -> (r: BatchStep)
    ensures
        r == (match outcome {
            Ok(()) => BatchStep::Continue,
            Err(e) => if e.kind is MaxFilesWatch {
                BatchStep::ReportAndStop
            } else if report_errors {
                BatchStep::Report
            } else {
                BatchStep::Continue
            },
        }),
{
    match outcome {
        Ok(()) => BatchStep::Continue,
        Err(e) => match e.kind {
            ErrorKind::MaxFilesWatch => BatchStep::ReportAndStop,
            _ => if report_errors { BatchStep::Report } else { BatchStep::Continue },
        },
    }
}

/// A watch change that a batch of notifications asks for, in the order they are applied.
#[derive(Clone, Debug)]
pub enum PendingAction {
    /// Drop the root at the path if it does not track it, and remove the watches at and below
    /// the path; without a system call where the kernel dropped them already.
    RemoveWatch(String, bool),
    /// The roots below the path are out of reach (see `vanish_below`); the watches below it go.
    Vanish(String),
    /// Watch the path, recursively or not, with whether it is a file without hard links.
    AddWatch(String, bool, bool),
    /// Watch again the roots below the path, which is a directory again (see `roots_to_rearm`).
    Rearm(String),
}

/// A pending action, as plain values.
pub ghost enum ActionView {
    RemoveWatch(Seq<char>, bool),
    Vanish(Seq<char>),
    AddWatch(Seq<char>, bool, bool),
    Rearm(Seq<char>),
}

/// The actions of a list, as plain values.
pub open spec fn actions_view(s: Seq<PendingAction>) -> Seq<ActionView> {
    s.map_values(|a: PendingAction| match a {
        PendingAction::RemoveWatch(p, n) => ActionView::RemoveWatch(p@, n),
        PendingAction::Vanish(p) => ActionView::Vanish(p@),
        PendingAction::AddWatch(p, r, f) => ActionView::AddWatch(p@, r, f),
        PendingAction::Rearm(p) => ActionView::Rearm(p@),
    })
}

/// The order in which the pending changes of `b` are applied: the watches that the kernel
/// dropped, then the other removals, the ancestors that went away, the watches to add, and the
/// ancestors that came back.
pub open spec fn pending_plan(b: BookView) -> Seq<ActionView> {
    b.removes_no_syscall.map_values(|p: Seq<char>| ActionView::RemoveWatch(p, true))
        + b.removes.map_values(|p: Seq<char>| ActionView::RemoveWatch(p, false))
        + b.vanished.map_values(|p: Seq<char>| ActionView::Vanish(p))
        + b.adds.map_values(|a: (Seq<char>, bool, bool)| ActionView::AddWatch(a.0, a.1, a.2))
        + b.appeared.map_values(|p: Seq<char>| ActionView::Rearm(p))
}

/// The book with no pending change.
pub open spec fn settled(b: BookView) -> BookView {
    BookView { adds: seq![], removes: seq![], removes_no_syscall: seq![], vanished: seq![], appeared: seq![], ..b }
}

/// The book without the root `path`.
pub open spec fn without_root(b: BookView, path: Seq<char>) -> BookView {
    BookView { table: b.table.filter(|e: (Seq<char>, RootWatch)| e.0 != path), ..b }
}

/// The ancestors whose watches an unwatch of the tracked root `path` drops: those that no
/// tracked root needs any more and that keep no watch of their own, nearest first.
pub open spec fn dropped_on_unwatch(b: BookView, path: Seq<char>) -> Seq<Seq<char>> {
    forgotten(b.ancestors, ancestors_of(path)).filter(|a: Seq<char>| !keeps_watch(b.table, a))
}

impl InotifyBook {
    /// Takes the pending changes that a batch of notifications asked for, as the actions to
    /// apply in order (see [`pending_plan`]), leaving none pending.
    pub fn take_pending(&mut self) -> (r: Vec<PendingAction>)
        requires
            old(self).ancestors.wf(),
        ensures
            final(self).ancestors == old(self).ancestors,
            final(self)@ == settled(old(self)@),
            actions_view(r@) == pending_plan(old(self)@),
    {
        let ghost b = self@;
        let mut out: Vec<PendingAction> = Vec::new();
        let mut i: usize = 0;
        while i < self.pending.remove_watches_no_syscall.len()
            invariant
                i <= self.pending.remove_watches_no_syscall@.len(),
                b == self@,
                actions_view(out@) == b.removes_no_syscall.take(i as int).map_values(|p: Seq<char>| ActionView::RemoveWatch(p, true)),
            decreases self.pending.remove_watches_no_syscall@.len() - i,
        {
            let ghost before = actions_view(out@);
            out.push(PendingAction::RemoveWatch(self.pending.remove_watches_no_syscall[i].clone(), true));
            assert(actions_view(out@) =~= before.push(ActionView::RemoveWatch(b.removes_no_syscall[i as int], true)));
            assert(b.removes_no_syscall.take(i + 1).map_values(|p: Seq<char>| ActionView::RemoveWatch(p, true))
                =~= b.removes_no_syscall.take(i as int).map_values(|p: Seq<char>| ActionView::RemoveWatch(p, true))
                    .push(ActionView::RemoveWatch(b.removes_no_syscall[i as int], true)));
            i = i + 1;
        }
        assert(b.removes_no_syscall.take(i as int) =~= b.removes_no_syscall);
        let ghost s1 = actions_view(out@);
        let mut i: usize = 0;
        while i < self.pending.remove_watches.len()
            invariant
                i <= self.pending.remove_watches@.len(),
                b == self@,
                actions_view(out@) == s1 + b.removes.take(i as int).map_values(|p: Seq<char>| ActionView::RemoveWatch(p, false)),
            decreases self.pending.remove_watches@.len() - i,
        {
            let ghost before = actions_view(out@);
            out.push(PendingAction::RemoveWatch(self.pending.remove_watches[i].clone(), false));
            assert(actions_view(out@) =~= before.push(ActionView::RemoveWatch(b.removes[i as int], false)));
            assert(b.removes.take(i + 1).map_values(|p: Seq<char>| ActionView::RemoveWatch(p, false))
                =~= b.removes.take(i as int).map_values(|p: Seq<char>| ActionView::RemoveWatch(p, false))
                    .push(ActionView::RemoveWatch(b.removes[i as int], false)));
            i = i + 1;
        }
        assert(b.removes.take(i as int) =~= b.removes);
        let ghost s2 = actions_view(out@);
        let mut i: usize = 0;
        while i < self.pending.vanished.len()
            invariant
                i <= self.pending.vanished@.len(),
                b == self@,
                actions_view(out@) == s2 + b.vanished.take(i as int).map_values(|p: Seq<char>| ActionView::Vanish(p)),
            decreases self.pending.vanished@.len() - i,
        {
            let ghost before = actions_view(out@);
            out.push(PendingAction::Vanish(self.pending.vanished[i].clone()));
            assert(actions_view(out@) =~= before.push(ActionView::Vanish(b.vanished[i as int])));
            assert(b.vanished.take(i + 1).map_values(|p: Seq<char>| ActionView::Vanish(p))
                =~= b.vanished.take(i as int).map_values(|p: Seq<char>| ActionView::Vanish(p))
                    .push(ActionView::Vanish(b.vanished[i as int])));
            i = i + 1;
        }
        assert(b.vanished.take(i as int) =~= b.vanished);
        let ghost s3 = actions_view(out@);
        let mut i: usize = 0;
        while i < self.pending.add_watches.len()
            invariant
                i <= self.pending.add_watches@.len(),
                b == self@,
                actions_view(out@) == s3 + b.adds.take(i as int).map_values(|a: (Seq<char>, bool, bool)| ActionView::AddWatch(a.0, a.1, a.2)),
            decreases self.pending.add_watches@.len() - i,
        {
            let ghost before = actions_view(out@);
            let (p, r, f) = &self.pending.add_watches[i];
            out.push(PendingAction::AddWatch(p.clone(), *r, *f));
            let ghost a = b.adds[i as int];
            assert(actions_view(out@) =~= before.push(ActionView::AddWatch(a.0, a.1, a.2)));
            assert(b.adds.take(i + 1).map_values(|a: (Seq<char>, bool, bool)| ActionView::AddWatch(a.0, a.1, a.2))
                =~= b.adds.take(i as int).map_values(|a: (Seq<char>, bool, bool)| ActionView::AddWatch(a.0, a.1, a.2))
                    .push(ActionView::AddWatch(a.0, a.1, a.2)));
            i = i + 1;
        }
        assert(b.adds.take(i as int) =~= b.adds);
        let ghost s4 = actions_view(out@);
        let mut i: usize = 0;
        while i < self.pending.appeared.len()
            invariant
                i <= self.pending.appeared@.len(),
                b == self@,
                actions_view(out@) == s4 + b.appeared.take(i as int).map_values(|p: Seq<char>| ActionView::Rearm(p)),
            decreases self.pending.appeared@.len() - i,
        {
            let ghost before = actions_view(out@);
            out.push(PendingAction::Rearm(self.pending.appeared[i].clone()));
            assert(actions_view(out@) =~= before.push(ActionView::Rearm(b.appeared[i as int])));
            assert(b.appeared.take(i + 1).map_values(|p: Seq<char>| ActionView::Rearm(p))
                =~= b.appeared.take(i as int).map_values(|p: Seq<char>| ActionView::Rearm(p))
                    .push(ActionView::Rearm(b.appeared[i as int])));
            i = i + 1;
        }
        assert(b.appeared.take(i as int) =~= b.appeared);
        self.pending = PendingChanges {
            add_watches: Vec::new(),
            remove_watches: Vec::new(),
            remove_watches_no_syscall: Vec::new(),
            vanished: Vec::new(),
            appeared: Vec::new(),
        };
        assert(self@.adds =~= Seq::<(Seq<char>, bool, bool)>::empty());
        assert(self@.removes =~= Seq::<Seq<char>>::empty());
        assert(self@.removes_no_syscall =~= Seq::<Seq<char>>::empty());
        assert(self@.vanished =~= Seq::<Seq<char>>::empty());
        assert(self@.appeared =~= Seq::<Seq<char>>::empty());
        assert(self@ == settled(b));
        assert(actions_view(out@) =~= pending_plan(b));
        out
    }

    /// The first step of an unwatch of `path`: forgets the root and gives what was recorded of
    /// it, whose watches are to be removed next. A path that is not a root is refused as a
    /// watch that does not exist, naming the path, and nothing changes.
    pub fn begin_unwatch(&mut self, path: &String) -> (r: Result<RootWatch, Error>)
        requires
            old(self).ancestors.wf(),
        ensures
            final(self).ancestors == old(self).ancestors,
            match lookup(old(self)@.table, path@) {
                None => final(self)@ == old(self)@
                    && (r matches Err(e) && e.kind is WatchNotFound && e.paths@ == seq![*path]),
                Some(root) => r == Ok::<RootWatch, Error>(root) && final(self)@ == without_root(old(self)@, path@),
            },
    {
        match find_root(&self.watches, path) {
            None => {
                let e = Error::watch_not_found().add_path(path.clone());
                assert(e.paths@ =~= seq![*path]);
                Err(e)
            },
            Some(root) => {
                remove_root(&mut self.watches, path);
                Ok(root)
            },
        }
    }

    /// The last step of an unwatch of the root `path`, recorded as `root`, once its watches are
    /// removed: a root that tracked its path counts no more below its ancestors, and the
    /// ancestors that no tracked root needs any more and that keep no watch of their own are
    /// returned, nearest first, for their watches to be dropped. Nothing else changes.
    pub fn finish_unwatch(&mut self, path: &String, root: RootWatch) -> (r: Vec<String>)
        requires
            old(self).ancestors.wf(),
        ensures
            final(self).ancestors.wf(),
            final(self)@ == (BookView { ancestors: final(self)@.ancestors, ..old(self)@ }),
            root.mode.target_mode == TargetMode::TrackPath ==> final(self)@.ancestors
                == counts_after_untrack(old(self)@.ancestors, ancestors_of(path@)),
            root.mode.target_mode == TargetMode::TrackPath ==> strs_view(r@)
                == dropped_on_unwatch(old(self)@, path@),
            root.mode.target_mode == TargetMode::NoTrack ==> final(self).ancestors == old(self).ancestors && r@.len() == 0,
    {
        match root.mode.target_mode {
            TargetMode::TrackPath => {
                let forgotten_ancestors = self.ancestors.untrack(path);
                assert(strs_view(forgotten_ancestors@) =~= forgotten_ancestors@.map_values(|p: String| p@));
                forgotten_watches_to_drop(&self.watches, &forgotten_ancestors)
            },
            TargetMode::NoTrack => Vec::new(),
        }
    }
}

/// What the ancestors of a tracked path are watched for: only their entries coming and going.
pub const ENTRY_MASK: u32 = 0x0000_03c0;
/// What a watched path is watched for: its entries, attributes, opening, writing and closing.
pub const FULL_MASK: u32 = 0x0000_03ee;
/// What a watched root is watched for in addition: its own removal and move.
pub const SELF_MASK: u32 = 0x0000_0c00;

/// The mask of a single watch: the root itself is watched for its own removal and move too.
pub fn single_watch_mask(watch_self: bool) -> (r: u32)
    ensures
        r == (if watch_self { FULL_MASK | SELF_MASK } else { FULL_MASK }),
{
    if watch_self { FULL_MASK | SELF_MASK } else { FULL_MASK }
}

/// Whether a watch with `mask` is on an ancestor for its entries only.
pub fn entries_only(mask: u32) -> (r: bool)
    ensures
        r == !has_bits(mask, IN_MODIFY),
{
    !contains_bits(mask, IN_MODIFY)
}

/// What to do about a watch request with `mask` on a path.
#[derive(Copy, Clone, PartialEq, Eq, Debug, Structural)]
pub enum MaskDecision {
    /// The path is watched for all of it already.
    Covered,
    /// The path is a file without other hard links whose directory is fully watched, which
    /// reports it.
    CoveredByParent,
    /// Install a watch with this mask, which keeps what the path was watched for (inotify
    /// replaces the mask of a path that is watched already).
    Install(u32),
}

/// What to do about a watch request with `mask` on a path watched with `existing`, whose
/// parent is watched with `parent_mask`.
pub open spec fn mask_decision(existing: Option<u32>, mask: u32, is_file_without_hardlinks: bool, parent_mask: Option<u32>) -> MaskDecision {
    if existing matches Some(e) && has_bits(e, mask) {
        MaskDecision::Covered
    } else if is_file_without_hardlinks && (parent_mask matches Some(p) && has_bits(p, FULL_MASK)) {
        MaskDecision::CoveredByParent
    } else {
        MaskDecision::Install(match existing {
            Some(e) => e | mask,
            None => mask,
        })
    }
}

/// What to do about a watch request with `mask` (see [`mask_decision`]).
pub fn decide_watch_mask(existing: Option<u32>, mask: u32, is_file_without_hardlinks: bool, parent_mask: Option<u32>) -> (r: MaskDecision)
    ensures
        r == mask_decision(existing, mask, is_file_without_hardlinks, parent_mask),
{
    if let Some(e) = existing {
        if contains_bits(e, mask) {
            return MaskDecision::Covered;
        }
    }
    if is_file_without_hardlinks {
        if let Some(p) = parent_mask {
            if contains_bits(p, FULL_MASK) {
                return MaskDecision::CoveredByParent;
            }
        }
    }
    MaskDecision::Install(match existing {
        Some(e) => e | mask,
        None => mask,
    })
}


/// Whether every path of every event of `evs` is watched in `t`.
pub open spec fn all_watched(t: Seq<(Seq<char>, RootWatch)>, evs: Seq<EventView>) -> bool {
    forall|i: int, j: int| 0 <= i < evs.len() && 0 <= j < evs[i].1.len() ==> watched(t, #[trigger] evs[i].1[j])
}

proof fn lemma_all_watched_push_if(t: Seq<(Seq<char>, RootWatch)>, evs: Seq<EventView>, c: bool, e: EventView)
    requires
        all_watched(t, evs),
        c ==> forall|j: int| 0 <= j < e.1.len() ==> watched(t, #[trigger] e.1[j]),
    ensures
        all_watched(t, push_if(evs, c, e)),
{
    if c {
        let n = evs.push(e);
        assert forall|i: int, j: int| 0 <= i < n.len() && 0 <= j < n[i].1.len() implies watched(t, #[trigger] n[i].1[j]) by {
            if i < evs.len() {
                assert(n[i] == evs[i]);
            } else {
                assert(n[i] == e);
            }
        }
    }
}

/// The states of the roots change what is watched in no step.
proof fn lemma_steps_keep_watched(b: BookView, e0: Seq<EventView>, handles: Seq<(Seq<char>, bool)>, n: Notification, q: Seq<char>)
    ensures
        watched(moves_step(b, e0, handles, n).0.table, q) == watched(b.table, q),
        watched(move_self_step(b, e0, handles, n).0.table, q) == watched(b.table, q),
        watched(create_step(b, e0, n).0.table, q) == watched(b.table, q),
        watched(delete_step(b, e0, handles, n).0.table, q) == watched(b.table, q),
        watched(delete_self_step(b, e0, handles, n).0.table, q) == watched(b.table, q),
        watched(unmount_step(b, e0, handles, n).0.table, q) == watched(b.table, q),
{
    let p = n.path;
    lemma_watched_after_set_state(b.table, p, RootState::Missing, q);
    lemma_watched_after_set_state(b.table, p, present_state(has_bits(n.mask, IN_ISDIR)), q);
    lemma_watched_after_set_state(b.table, p, present_state(false), q);
}

/// The events of a move step concern watched paths only.
proof fn lemma_moves_watched(b: BookView, e0: Seq<EventView>, handles: Seq<(Seq<char>, bool)>, n: Notification)
    requires
        all_watched(b.table, e0),
    ensures
        all_watched(b.table, moves_step(b, e0, handles, n).1),
{
    let t = b.table;
    let p = n.path;
    let w = watched(t, p);
    let tracker = n.cookie as usize;
    if has_bits(n.mask, IN_MOVED_FROM) {
        lemma_all_watched_push_if(t, e0, w, tracked_on(EventKind::Modify(ModifyKind::Name(RenameMode::From)), tracker, p));
    } else if has_bits(n.mask, IN_MOVED_TO) && w {
        let to = tracked_on(EventKind::Modify(ModifyKind::Name(RenameMode::To)), tracker, p);
        lemma_all_watched_push_if(t, e0, true, to);
        if let Some((tr, from)) = b.rename_from {
            let both = (EventHead { tracker: Some(tracker), ..head(EventKind::Modify(ModifyKind::Name(RenameMode::Both))) }, seq![from, p]);
            lemma_all_watched_push_if(t, e0.push(to), tr == tracker && watched(t, from), both);
        }
    }
}

/// The events of the other steps concern watched paths only.
proof fn lemma_other_steps_watched(t: Seq<(Seq<char>, RootWatch)>, b: BookView, e0: Seq<EventView>, handles: Seq<(Seq<char>, bool)>, n: Notification)
    requires
        all_watched(t, e0),
        watched(b.table, n.path) == watched(t, n.path),
    ensures
        all_watched(t, move_self_step(b, e0, handles, n).1),
        all_watched(t, create_step(b, e0, n).1),
        all_watched(t, delete_step(b, e0, handles, n).1),
        all_watched(t, delete_self_step(b, e0, handles, n).1),
        all_watched(t, unmount_step(b, e0, handles, n).1),
{
    let p = n.path;
    let w = watched(b.table, p);
    lemma_all_watched_push_if(t, e0, w, on(EventKind::Modify(ModifyKind::Name(RenameMode::From)), p));
    lemma_all_watched_push_if(t, e0, w, on(EventKind::Create(if has_bits(n.mask, IN_ISDIR) { CreateKind::Folder } else { CreateKind::File }), p));
    lemma_all_watched_push_if(t, e0, w, on(EventKind::Remove(if has_bits(n.mask, IN_ISDIR) { RemoveKind::Folder } else { RemoveKind::File }), p));
    let sk = match handle_is_dir(handles, p) {
        Some(d) => if d { RemoveKind::Folder } else { RemoveKind::File },
        None => RemoveKind::Other,
    };
    lemma_all_watched_push_if(t, e0, w, on(EventKind::Remove(sk), p));
    lemma_all_watched_push_if(t, e0, w, on(EventKind::Remove(RemoveKind::Other), p));
}

/// The access and change events concern watched paths only.
proof fn lemma_access_watched(t: Seq<(Seq<char>, RootWatch)>, e0: Seq<EventView>, n: Notification)
    requires
        all_watched(t, e0),
    ensures
        all_watched(t, access_events(e0, watched(t, n.path), n)),
{
    let p = n.path;
    let w = watched(t, p);
    let m = n.mask;
    let a1 = push_if(e0, w && has_bits(m, IN_MODIFY), on(EventKind::Modify(ModifyKind::Data(DataChange::Any)), p));
    lemma_all_watched_push_if(t, e0, w && has_bits(m, IN_MODIFY), on(EventKind::Modify(ModifyKind::Data(DataChange::Any)), p));
    let a2 = push_if(a1, w && has_bits(m, IN_CLOSE_WRITE), on(EventKind::Access(AccessKind::Close(AccessMode::Write)), p));
    lemma_all_watched_push_if(t, a1, w && has_bits(m, IN_CLOSE_WRITE), on(EventKind::Access(AccessKind::Close(AccessMode::Write)), p));
    let a3 = push_if(a2, w && has_bits(m, IN_CLOSE_NOWRITE), on(EventKind::Access(AccessKind::Close(AccessMode::Read)), p));
    lemma_all_watched_push_if(t, a2, w && has_bits(m, IN_CLOSE_NOWRITE), on(EventKind::Access(AccessKind::Close(AccessMode::Read)), p));
    let a4 = push_if(a3, w && has_bits(m, IN_ATTRIB), on(EventKind::Modify(ModifyKind::Metadata(MetadataKind::Any)), p));
    lemma_all_watched_push_if(t, a3, w && has_bits(m, IN_ATTRIB), on(EventKind::Modify(ModifyKind::Metadata(MetadataKind::Any)), p));
    lemma_all_watched_push_if(t, a4, w && has_bits(m, IN_OPEN), on(EventKind::Access(AccessKind::Open(AccessMode::Any)), p));
}

/// A notification reports only watched paths: every path of every event it gives is watched
/// in the table as it was when the notification came; the rescan after a queue overflow
/// concerns no path.
pub proof fn lemma_reports_only_watched_paths(
    b: BookView,
    handles: Seq<(Seq<char>, bool)>,
    mask: u32,
    path: Option<Seq<char>>,
    cookie: u32,
    file_without_hardlinks: bool,
)
    ensures
        all_watched(b.table, handle_spec(b, handles, mask, path, cookie, file_without_hardlinks).1),
{
    let e0 = if has_bits(mask, IN_Q_OVERFLOW) { seq![rescan_event()] } else { seq![] };
    assert(all_watched(b.table, e0)) by {
        if has_bits(mask, IN_Q_OVERFLOW) {
            assert forall|i: int, j: int| 0 <= i < e0.len() && 0 <= j < e0[i].1.len() implies watched(b.table, #[trigger] e0[i].1[j]) by {
                assert(e0[i] == rescan_event());
            }
        }
    }
    if let Some(p) = path {
        let n = Notification { mask, path: p, cookie, file_without_hardlinks };
        let t = b.table;
        let (b1, e1) = moves_step(b, e0, handles, n);
        lemma_moves_watched(b, e0, handles, n);
        lemma_steps_keep_watched(b, e0, handles, n, p);
        let (b2, e2) = move_self_step(b1, e1, handles, n);
        lemma_other_steps_watched(t, b1, e1, handles, n);
        lemma_steps_keep_watched(b1, e1, handles, n, p);
        let (b3, e3) = create_step(b2, e2, n);
        lemma_other_steps_watched(t, b2, e2, handles, n);
        lemma_steps_keep_watched(b2, e2, handles, n, p);
        let (b4, e4) = delete_step(b3, e3, handles, n);
        lemma_other_steps_watched(t, b3, e3, handles, n);
        lemma_steps_keep_watched(b3, e3, handles, n, p);
        let (b5, e5) = delete_self_step(b4, e4, handles, n);
        lemma_other_steps_watched(t, b4, e4, handles, n);
        lemma_steps_keep_watched(b4, e4, handles, n, p);
        let (b6, e6) = unmount_step(b5, e5, handles, n);
        lemma_other_steps_watched(t, b5, e5, handles, n);
        lemma_access_watched(t, e6, n);
    }
}

/// Whether `evs` is `e0` followed by events that each carry a path.
pub open spec fn extends_with_paths(e0: Seq<EventView>, evs: Seq<EventView>) -> bool {
    &&& e0.len() <= evs.len()
    &&& evs.subrange(0, e0.len() as int) == e0
    &&& forall|i: int| e0.len() <= i < evs.len() ==> (#[trigger] evs[i]).1.len() > 0
}

proof fn lemma_paths_push_if(e0: Seq<EventView>, evs: Seq<EventView>, c: bool, e: EventView)
    requires
        extends_with_paths(e0, evs),
        e.1.len() > 0,
    ensures
        extends_with_paths(e0, push_if(evs, c, e)),
{
    if c {
        let n = evs.push(e);
        assert(n.subrange(0, e0.len() as int) =~= evs.subrange(0, e0.len() as int));
        assert forall|i: int| e0.len() <= i < n.len() implies (#[trigger] n[i]).1.len() > 0 by {
            if i < evs.len() {
                assert(n[i] == evs[i]);
            }
        }
    }
}

/// Each step appends only events that carry a path.
proof fn lemma_steps_carry_paths(b: BookView, e0: Seq<EventView>, evs: Seq<EventView>, handles: Seq<(Seq<char>, bool)>, n: Notification, w: bool)
    requires
        extends_with_paths(e0, evs),
    ensures
        extends_with_paths(e0, moves_step(b, evs, handles, n).1),
        extends_with_paths(e0, move_self_step(b, evs, handles, n).1),
        extends_with_paths(e0, create_step(b, evs, n).1),
        extends_with_paths(e0, delete_step(b, evs, handles, n).1),
        extends_with_paths(e0, delete_self_step(b, evs, handles, n).1),
        extends_with_paths(e0, unmount_step(b, evs, handles, n).1),
        extends_with_paths(e0, access_events(evs, w, n)),
{
    let p = n.path;
    let t = b.table;
    let wp = watched(t, p);
    let tracker = n.cookie as usize;
    let m = n.mask;
    if has_bits(m, IN_MOVED_FROM) {
        lemma_paths_push_if(e0, evs, wp, tracked_on(EventKind::Modify(ModifyKind::Name(RenameMode::From)), tracker, p));
    } else if has_bits(m, IN_MOVED_TO) && wp {
        let to = tracked_on(EventKind::Modify(ModifyKind::Name(RenameMode::To)), tracker, p);
        lemma_paths_push_if(e0, evs, true, to);
        if let Some((tr, from)) = b.rename_from {
            let both = (EventHead { tracker: Some(tracker), ..head(EventKind::Modify(ModifyKind::Name(RenameMode::Both))) }, seq![from, p]);
            lemma_paths_push_if(e0, evs.push(to), tr == tracker && watched(t, from), both);
        }
    }
    lemma_paths_push_if(e0, evs, wp, on(EventKind::Modify(ModifyKind::Name(RenameMode::From)), p));
    lemma_paths_push_if(e0, evs, wp, on(EventKind::Create(if has_bits(m, IN_ISDIR) { CreateKind::Folder } else { CreateKind::File }), p));
    lemma_paths_push_if(e0, evs, wp, on(EventKind::Remove(if has_bits(m, IN_ISDIR) { RemoveKind::Folder } else { RemoveKind::File }), p));
    let sk = match handle_is_dir(handles, p) {
        Some(d) => if d { RemoveKind::Folder } else { RemoveKind::File },
        None => RemoveKind::Other,
    };
    lemma_paths_push_if(e0, evs, wp, on(EventKind::Remove(sk), p));
    lemma_paths_push_if(e0, evs, wp, on(EventKind::Remove(RemoveKind::Other), p));
    let a1 = push_if(evs, w && has_bits(m, IN_MODIFY), on(EventKind::Modify(ModifyKind::Data(DataChange::Any)), p));
    lemma_paths_push_if(e0, evs, w && has_bits(m, IN_MODIFY), on(EventKind::Modify(ModifyKind::Data(DataChange::Any)), p));
    let a2 = push_if(a1, w && has_bits(m, IN_CLOSE_WRITE), on(EventKind::Access(AccessKind::Close(AccessMode::Write)), p));
    lemma_paths_push_if(e0, a1, w && has_bits(m, IN_CLOSE_WRITE), on(EventKind::Access(AccessKind::Close(AccessMode::Write)), p));
    let a3 = push_if(a2, w && has_bits(m, IN_CLOSE_NOWRITE), on(EventKind::Access(AccessKind::Close(AccessMode::Read)), p));
    lemma_paths_push_if(e0, a2, w && has_bits(m, IN_CLOSE_NOWRITE), on(EventKind::Access(AccessKind::Close(AccessMode::Read)), p));
    let a4 = push_if(a3, w && has_bits(m, IN_ATTRIB), on(EventKind::Modify(ModifyKind::Metadata(MetadataKind::Any)), p));
    lemma_paths_push_if(e0, a3, w && has_bits(m, IN_ATTRIB), on(EventKind::Modify(ModifyKind::Metadata(MetadataKind::Any)), p));
    lemma_paths_push_if(e0, a4, w && has_bits(m, IN_OPEN), on(EventKind::Access(AccessKind::Open(AccessMode::Any)), p));
}

/// Every event that a notification gives carries a path, but the rescan that a queue overflow
/// asks for: it comes first, once, and only on an overflow. A notification whose watch
/// descriptor is unknown gives nothing but that rescan.
pub proof fn lemma_events_carry_paths(
    b: BookView,
    handles: Seq<(Seq<char>, bool)>,
    mask: u32,
    path: Option<Seq<char>>,
    cookie: u32,
    file_without_hardlinks: bool,
)
    ensures
        ({
            let evs = handle_spec(b, handles, mask, path, cookie, file_without_hardlinks).1;
            let e0 = if has_bits(mask, IN_Q_OVERFLOW) { seq![rescan_event()] } else { Seq::<EventView>::empty() };
            &&& extends_with_paths(e0, evs)
            &&& path is None ==> evs == e0
        }),
{
    let e0 = if has_bits(mask, IN_Q_OVERFLOW) { seq![rescan_event()] } else { Seq::<EventView>::empty() };
    assert(extends_with_paths(e0, e0)) by {
        assert(e0.subrange(0, e0.len() as int) =~= e0);
    }
    if let Some(p) = path {
        let n = Notification { mask, path: p, cookie, file_without_hardlinks };
        let (b1, e1) = moves_step(b, e0, handles, n);
        lemma_steps_carry_paths(b, e0, e0, handles, n, true);
        let (b2, e2) = move_self_step(b1, e1, handles, n);
        lemma_steps_carry_paths(b1, e0, e1, handles, n, true);
        let (b3, e3) = create_step(b2, e2, n);
        lemma_steps_carry_paths(b2, e0, e2, handles, n, true);
        let (b4, e4) = delete_step(b3, e3, handles, n);
        lemma_steps_carry_paths(b3, e0, e3, handles, n, true);
        let (b5, e5) = delete_self_step(b4, e4, handles, n);
        lemma_steps_carry_paths(b4, e0, e4, handles, n, true);
        let (b6, e6) = unmount_step(b5, e5, handles, n);
        lemma_steps_carry_paths(b5, e0, e5, handles, n, true);
        lemma_steps_carry_paths(b6, e0, e6, handles, n, watched(b.table, p));
    }
}

proof fn lemma_extension_keeps(x: Seq<EventView>, y: Seq<EventView>, i: int)
    requires
        extends_with_paths(x, y),
        0 <= i < x.len(),
    ensures
        y[i] == x[i],
{
    assert(y.subrange(0, x.len() as int)[i] == y[i]);
}

proof fn lemma_extends_self(x: Seq<EventView>)
    ensures
        extends_with_paths(x, x),
{
    assert(x.subrange(0, x.len() as int) =~= x);
}

/// A watched path that a notification says was deleted is reported removed, as a folder
/// when the notification says it was a directory, and as a file otherwise.
pub proof fn lemma_deletion_reports_the_item_kind(
    b: BookView,
    handles: Seq<(Seq<char>, bool)>,
    mask: u32,
    p: Seq<char>,
    cookie: u32,
    file_without_hardlinks: bool,
)
    requires
        has_bits(mask, IN_DELETE),
        watched(b.table, p),
    ensures
        ({
            let evs = handle_spec(b, handles, mask, Some(p), cookie, file_without_hardlinks).1;
            &&& has_bits(mask, IN_ISDIR) ==> evs.contains(on(EventKind::Remove(RemoveKind::Folder), p))
            &&& !has_bits(mask, IN_ISDIR) ==> evs.contains(on(EventKind::Remove(RemoveKind::File), p))
        }),
{
    let e0 = if has_bits(mask, IN_Q_OVERFLOW) { seq![rescan_event()] } else { Seq::<EventView>::empty() };
    let n = Notification { mask, path: p, cookie, file_without_hardlinks };
    let (b1, e1) = moves_step(b, e0, handles, n);
    let (b2, e2) = move_self_step(b1, e1, handles, n);
    let (b3, e3) = create_step(b2, e2, n);
    let (b4, e4) = delete_step(b3, e3, handles, n);
    let (b5, e5) = delete_self_step(b4, e4, handles, n);
    let (b6, e6) = unmount_step(b5, e5, handles, n);
    let e7 = access_events(e6, watched(b.table, p), n);
    lemma_steps_keep_watched(b, e0, handles, n, p);
    lemma_steps_keep_watched(b1, e1, handles, n, p);
    lemma_steps_keep_watched(b2, e2, handles, n, p);
    assert(watched(b3.table, p));
    let kind = EventKind::Remove(if has_bits(mask, IN_ISDIR) { RemoveKind::Folder } else { RemoveKind::File });
    assert(e4 == e3.push(on(kind, p)));
    let k = e3.len() as int;
    assert(e4[k] == on(kind, p));
    lemma_extends_self(e4);
    lemma_steps_carry_paths(b4, e4, e4, handles, n, true);
    lemma_extends_self(e5);
    lemma_steps_carry_paths(b5, e5, e5, handles, n, true);
    lemma_extends_self(e6);
    lemma_steps_carry_paths(b6, e6, e6, handles, n, watched(b.table, p));
    lemma_extension_keeps(e4, e5, k);
    lemma_extension_keeps(e5, e6, k);
    lemma_extension_keeps(e6, e7, k);
    assert(e7[k] == on(kind, p));
    assert(handle_spec(b, handles, mask, Some(p), cookie, file_without_hardlinks).1 == e7);
}

/// A watched path that a notification says was created is reported created, as a folder when
/// the notification says it is a directory, and as a file otherwise.
pub proof fn lemma_creation_reports_the_item_kind(
    b: BookView,
    handles: Seq<(Seq<char>, bool)>,
    mask: u32,
    p: Seq<char>,
    cookie: u32,
    file_without_hardlinks: bool,
)
    requires
        has_bits(mask, IN_CREATE),
        watched(b.table, p),
    ensures
        ({
            let evs = handle_spec(b, handles, mask, Some(p), cookie, file_without_hardlinks).1;
            &&& has_bits(mask, IN_ISDIR) ==> evs.contains(on(EventKind::Create(CreateKind::Folder), p))
            &&& !has_bits(mask, IN_ISDIR) ==> evs.contains(on(EventKind::Create(CreateKind::File), p))
        }),
{
    let e0 = if has_bits(mask, IN_Q_OVERFLOW) { seq![rescan_event()] } else { Seq::<EventView>::empty() };
    let n = Notification { mask, path: p, cookie, file_without_hardlinks };
    let (b1, e1) = moves_step(b, e0, handles, n);
    let (b2, e2) = move_self_step(b1, e1, handles, n);
    let (b3, e3) = create_step(b2, e2, n);
    let (b4, e4) = delete_step(b3, e3, handles, n);
    let (b5, e5) = delete_self_step(b4, e4, handles, n);
    let (b6, e6) = unmount_step(b5, e5, handles, n);
    let e7 = access_events(e6, watched(b.table, p), n);
    lemma_steps_keep_watched(b, e0, handles, n, p);
    lemma_steps_keep_watched(b1, e1, handles, n, p);
    assert(watched(b2.table, p));
    let kind = EventKind::Create(if has_bits(mask, IN_ISDIR) { CreateKind::Folder } else { CreateKind::File });
    assert(e3 == e2.push(on(kind, p)));
    let k = e2.len() as int;
    assert(e3[k] == on(kind, p));
    lemma_extends_self(e3);
    lemma_steps_carry_paths(b3, e3, e3, handles, n, true);
    lemma_extends_self(e4);
    lemma_steps_carry_paths(b4, e4, e4, handles, n, true);
    lemma_extends_self(e5);
    lemma_steps_carry_paths(b5, e5, e5, handles, n, true);
    lemma_extends_self(e6);
    lemma_steps_carry_paths(b6, e6, e6, handles, n, watched(b.table, p));
    lemma_extension_keeps(e3, e4, k);
    lemma_extension_keeps(e4, e5, k);
    lemma_extension_keeps(e5, e6, k);
    lemma_extension_keeps(e6, e7, k);
    assert(e7[k] == on(kind, p));
    assert(handle_spec(b, handles, mask, Some(p), cookie, file_without_hardlinks).1 == e7);
}

} // verus!
