//! The translation of kqueue vnode notifications into file system events, and the watch
//! bookkeeping that each notification drives.

use crate::ancestors::AncestorCounts;
use crate::error::{Error, ErrorKind};
use crate::fs_event::{head, paths_view, CreateKind, DataChange, Event, EventHead, EventKind, MetadataKind, ModifyKind, RemoveKind, RenameMode};
use crate::inotify::{
    all_watched, event_on, events_view, find_handle, handles_view, has_handle, on, push_event_if, push_if, strs_view,
    EventView,
};
use crate::path_ops::same_path;
use crate::paths::EntryKind;
use crate::watch_table::{
    is_recursive_at, is_watched_path, lemma_watched_after_set_state, note_gone, present_state, set_state, set_state_spec,
    table_view, watched, RootState, RootWatch,
};
use vstd::prelude::*;

verus! {

/// What a vnode notification reports.
#[derive(Copy, Clone, PartialEq, Eq, Debug, Structural)]
pub enum Vnode {
    Delete,
    Write,
    Extend,
    Truncate,
    Attrib,
    Link,
    Rename,
    Revoke,
    /// A notification that some platforms add.
    Other,
}

/// An entry of a directory, with what it is if its metadata could be read.
#[derive(Clone, Debug)]
pub struct ChildEntry {
    pub path: String,
    pub kind: Option<EntryKind>,
}

/// The watch changes that a batch of notifications asks for, applied once the batch is read.
#[derive(Clone, Debug)]
pub struct KqueuePending {
    /// Paths to watch, with whether recursively and whether each is a directory.
    pub add_watches: Vec<(String, bool, bool)>,
    /// Paths whose watches are to be removed (recursively).
    pub remove_watches: Vec<String>,
    /// Ancestors of tracked roots that went away.
    pub vanished: Vec<String>,
    /// Ancestors of tracked roots whose entries changed.
    pub changed_dirs: Vec<String>,
}

/// What the kqueue backend keeps between notifications.
#[derive(Clone, Debug)]
pub struct KqueueBook {
    pub watches: Vec<(String, RootWatch)>,
    pub ancestors: AncestorCounts,
    pub pending: KqueuePending,
}

/// The abstract content of a [`KqueueBook`].
pub ghost struct KqueueView {
    pub table: Seq<(Seq<char>, RootWatch)>,
    pub ancestors: Map<Seq<char>, nat>,
    pub adds: Seq<(Seq<char>, bool, bool)>,
    pub removes: Seq<Seq<char>>,
    pub vanished: Seq<Seq<char>>,
    pub changed_dirs: Seq<Seq<char>>,
}

impl View for KqueueBook {
    type V = KqueueView;

    open spec fn view(&self) -> KqueueView {
        KqueueView {
            table: table_view(self.watches@),
            ancestors: self.ancestors.counts(),
            adds: self.pending.add_watches@.map_values(|e: (String, bool, bool)| (e.0@, e.1, e.2)),
            removes: strs_view(self.pending.remove_watches@),
            vanished: strs_view(self.pending.vanished@),
            changed_dirs: strs_view(self.pending.changed_dirs@),
        }
    }
}

impl KqueueBook {
    /// No watch, no pending change.
    pub fn new() -> (r: KqueueBook)
        ensures
            r.ancestors.wf(),
            r@.table.len() == 0,
            r@.ancestors == Map::<Seq<char>, nat>::empty(),
            r@.adds.len() == 0 && r@.removes.len() == 0,
            r@.vanished.len() == 0 && r@.changed_dirs.len() == 0,
    {
        let r = KqueueBook {
            watches: Vec::new(),
            ancestors: AncestorCounts::new(),
            pending: KqueuePending {
                add_watches: Vec::new(),
                remove_watches: Vec::new(),
                vanished: Vec::new(),
                changed_dirs: Vec::new(),
            },
        };
        
        r
    }
}

/// Whether `path` is a recursive root or lies below one.
pub open spec fn recursive_at(t: Seq<(Seq<char>, RootWatch)>, p: Seq<char>) -> bool {
    exists|i: int| 0 <= i < t.len() && {
        let e = #[trigger] t[i];
        e.1.mode.recursive_mode == crate::config::RecursiveMode::Recursive
            && crate::path_ops::path_starts_with(p, e.0)
    }
}

/// The book after `path` is gone: its watches are dropped, a root there is missing, and the
/// tracked roots below it are cut off.
pub open spec fn kq_gone(b: KqueueView, path: Seq<char>) -> KqueueView {
    KqueueView {
        removes: b.removes.push(path),
        table: set_state_spec(b.table, path, RootState::Missing),
        vanished: push_if(b.vanished, b.ancestors.contains_key(path), path),
        ..b
    }
}

/// The book after the path `path`, which is there as `kind` (a directory when `is_dir`), is
/// to be watched, recursively when it lies at or below a recursive root.
pub open spec fn kq_found(b: KqueueView, path: Seq<char>, is_dir: bool) -> KqueueView {
    let t = set_state_spec(b.table, path, present_state(is_dir));
    KqueueView { table: t, adds: b.adds.push((path, recursive_at(t, path), is_dir)), ..b }
}

/// Whether the entry `c` has no watch among `handles`.
pub open spec fn is_new_child(handles: Seq<(Seq<char>, bool)>, c: (Seq<char>, Option<EntryKind>)) -> bool {
    !has_handle(handles, c.0)
}

/// The entries of a directory, as characters.
pub open spec fn listing_view(cs: Seq<ChildEntry>) -> Seq<(Seq<char>, Option<EntryKind>)> {
    cs.map_values(|c: ChildEntry| (c.path@, c.kind))
}

/// The first entry of `cs` that has no watch and is watched, if any.
pub open spec fn first_new_watched(
    t: Seq<(Seq<char>, RootWatch)>,
    handles: Seq<(Seq<char>, bool)>,
    cs: Seq<(Seq<char>, Option<EntryKind>)>,
) -> Option<(Seq<char>, Option<EntryKind>)>
    decreases cs.len(),
{
    if cs.len() == 0 {
        None
    } else if is_new_child(handles, cs[0]) && watched(t, cs[0].0) {
        Some(cs[0])
    } else {
        first_new_watched(t, handles, cs.drop_first())
    }
}

/// The creation reported for an entry that is there as `kind`, if its metadata was read.
pub open spec fn child_create_kind(kind: Option<EntryKind>) -> CreateKind {
    match kind {
        Some(EntryKind::Dir) => CreateKind::Folder,
        Some(EntryKind::File) => CreateKind::File,
        _ => CreateKind::Other,
    }
}

/// What a write to the directory `path` with the entries `cs` reveals: the first entry without
/// a watch that is watched is reported created and watched in turn; when every entry has a
/// watch, the write is reported as a change of the directory's data.
pub open spec fn dir_write(
    b: KqueueView,
    handles: Seq<(Seq<char>, bool)>,
    path: Seq<char>,
    cs: Seq<(Seq<char>, Option<EntryKind>)>,
) -> (KqueueView, Seq<EventView>) {
    let b0 = KqueueView { changed_dirs: push_if(b.changed_dirs, b.ancestors.contains_key(path), path), ..b };
    match first_new_watched(b.table, handles, cs) {
        Some(c) => (
            kq_found(b0, c.0, c.1 == Some(EntryKind::Dir)),
            seq![on(EventKind::Create(child_create_kind(c.1)), c.0)],
        ),
        None => {
            let any_new = exists|i: int| 0 <= i < cs.len() && is_new_child(handles, #[trigger] cs[i]);
            (b0, push_if(seq![], !any_new && watched(b.table, path), on(EventKind::Modify(ModifyKind::Data(DataChange::Any)), path)))
        },
    }
}

/// The book and the outcome of one vnode notification on `path`: the events to report, or
/// the error that reading a written directory gave. `now` is what is at the path after a
/// deletion (the deletion of a file that a rename overwrote), and `listing` the entries of a
/// written directory.
pub open spec fn vnode_spec(
    b: KqueueView,
    handles: Seq<(Seq<char>, bool)>,
    vnode: Vnode,
    path: Seq<char>,
    is_dir: bool,
    now: Option<EntryKind>,
    listing: Result<Seq<(Seq<char>, Option<EntryKind>)>, Seq<char>>,
) -> (KqueueView, Result<Seq<EventView>, Seq<char>>) {
    let w = watched(b.table, path);
    match vnode {
        Vnode::Delete => {
            let b1 = kq_gone(b, path);
            if !w {
                (b1, Ok(seq![]))
            } else {
                let e1 = seq![on(EventKind::Remove(RemoveKind::Any), path)];
                match now {
                    Some(k) => (
                        kq_found(b1, path, k == EntryKind::Dir),
                        Ok(e1.push(on(EventKind::Create(child_create_kind(Some(k))), path))),
                    ),
                    None => (b1, Ok(e1)),
                }
            }
        },
        Vnode::Write => if is_dir {
            match listing {
                Ok(cs) => {
                    let (b1, e1) = dir_write(b, handles, path, cs);
                    (b1, Ok(e1))
                },
                Err(msg) => (
                    KqueueView { changed_dirs: push_if(b.changed_dirs, b.ancestors.contains_key(path), path), ..b },
                    Err(msg),
                ),
            }
        } else {
            (b, Ok(push_if(seq![], w, on(EventKind::Modify(ModifyKind::Data(DataChange::Any)), path))))
        },
        Vnode::Extend | Vnode::Truncate => (b, Ok(push_if(seq![], w, on(EventKind::Modify(ModifyKind::Data(DataChange::Size)), path)))),
        Vnode::Attrib => (b, Ok(push_if(seq![], w, on(EventKind::Modify(ModifyKind::Metadata(MetadataKind::Any)), path)))),
        Vnode::Link => {
            let b1 = if recursive_at(b.table, path) {
                KqueueView { removes: b.removes.push(path), adds: b.adds.push((path, true, true)), ..b }
            } else {
                b
            };
            (b1, Ok(push_if(seq![], w, on(EventKind::Modify(ModifyKind::Any), path))))
        },
        Vnode::Rename => (kq_gone(b, path), Ok(push_if(seq![], w, on(EventKind::Modify(ModifyKind::Name(RenameMode::Any)), path)))),
        Vnode::Revoke => (kq_gone(b, path), Ok(push_if(seq![], w, on(EventKind::Remove(RemoveKind::Any), path)))),
        Vnode::Other => (b, Ok(seq![(head(EventKind::Other), seq![])])),
    }
}


/// Notes that `path` is gone (see [`kq_gone`]).
fn kq_gone_exec(book: &mut KqueueBook, path: &String)
    requires
        old(book).ancestors.wf(),
    ensures
        final(book)@ == kq_gone(old(book)@, path@),
        final(book).ancestors == old(book).ancestors,
{
    book.pending.remove_watches.push(path.clone());
    let anc = book.ancestors.contains(path);
    note_gone(&mut book.watches, anc, path, &mut book.pending.vanished);
    assert(strs_view(book.pending.remove_watches@) =~= strs_view(old(book).pending.remove_watches@).push(path@));
    assert(strs_view(book.pending.vanished@) =~= push_if(strs_view(old(book).pending.vanished@), anc, path@));
}

/// Notes that `path` is there, as a directory when `is_dir`, and queues a watch on it (see
/// [`kq_found`]).
fn kq_found_exec(book: &mut KqueueBook, path: &String, is_dir: bool)
    requires
        old(book).ancestors.wf(),
    ensures
        final(book)@ == kq_found(old(book)@, path@, is_dir),
        final(book).ancestors == old(book).ancestors,
{
    let state = if is_dir { RootState::Directory } else { RootState::File };
    set_state(&mut book.watches, path, state);
    let rec = is_recursive_at(&book.watches, path);
    book.pending.add_watches.push((path.clone(), rec, is_dir));
    assert(book@.adds =~= old(book)@.adds.push((path@, rec, is_dir)));
}

/// The index of the first entry of `children` that has no watch and is watched, if any.
fn first_new_watched_exec(
    watches: &Vec<(String, RootWatch)>,
    handles: &Vec<(String, bool)>,
    children: &Vec<ChildEntry>,
) -> (r: Option<usize>)
    ensures
        match r {
            Some(k) => k < children@.len() && first_new_watched(table_view(watches@), handles_view(handles@), listing_view(children@))
                == Some(listing_view(children@)[k as int]),
            None => first_new_watched(table_view(watches@), handles_view(handles@), listing_view(children@)) is None,
        },
{
    let ghost t = table_view(watches@);
    let ghost h = handles_view(handles@);
    let ghost cs = listing_view(children@);
    assert(cs.skip(0) =~= cs);
    let mut i: usize = 0;
    while i < children.len()
        invariant
            i <= children@.len(),
            cs == listing_view(children@),
            t == table_view(watches@),
            h == handles_view(handles@),
            first_new_watched(t, h, cs) == first_new_watched(t, h, cs.skip(i as int)),
        decreases children@.len() - i,
    {
        let ghost rest = cs.skip(i as int);
        assert(rest[0] == cs[i as int]);
        assert(rest.drop_first() =~= cs.skip(i + 1));
        let c = &children[i];
        if find_handle(handles, &c.path).is_none() && is_watched_path(watches, &c.path) {
            return Some(i);
        }
        i = i + 1;
    }
    assert(cs.skip(i as int) =~= Seq::<(Seq<char>, Option<EntryKind>)>::empty());
    None
}

/// Whether some entry of `children` has no watch.
fn any_new_child(handles: &Vec<(String, bool)>, children: &Vec<ChildEntry>) -> (r: bool)
    ensures
        r == exists|i: int| 0 <= i < children@.len() && is_new_child(handles_view(handles@), #[trigger] listing_view(children@)[i]),
{
    let ghost cs = listing_view(children@);
    let mut i: usize = 0;
    while i < children.len()
        invariant
            i <= children@.len(),
            cs == listing_view(children@),
            forall|j: int| 0 <= j < i ==> !is_new_child(handles_view(handles@), #[trigger] cs[j]),
        decreases children@.len() - i,
    {
        if find_handle(handles, &children[i].path).is_none() {
            assert(is_new_child(handles_view(handles@), cs[i as int]));
            return true;
        }
        i = i + 1;
    }
    false
}

/// The creation kind of an entry that is there as `kind`, if its metadata was read.
fn child_create_kind_exec(kind: Option<EntryKind>) -> (r: CreateKind)
    ensures
        r == child_create_kind(kind),
{
    match kind {
        Some(EntryKind::Dir) => CreateKind::Folder,
        Some(EntryKind::File) => CreateKind::File,
        _ => CreateKind::Other,
    }
}

/// A write to the directory `path`, whose entries are `children` (see [`dir_write`]).
fn dir_write_exec(book: &mut KqueueBook, handles: &Vec<(String, bool)>, path: &String, children: &Vec<ChildEntry>) -> (r: Vec<Event>)
    requires
        old(book).ancestors.wf(),
    ensures
        (final(book)@, events_view(r@)) == dir_write(old(book)@, handles_view(handles@), path@, listing_view(children@)),
        final(book).ancestors == old(book).ancestors,
{
    if book.ancestors.contains(path) {
        book.pending.changed_dirs.push(path.clone());
        assert(strs_view(book.pending.changed_dirs@) =~= strs_view(old(book).pending.changed_dirs@).push(path@));
    }
    let mut out: Vec<Event> = Vec::new();
    assert(events_view(out@) =~= Seq::<EventView>::empty());
    match first_new_watched_exec(&book.watches, handles, children) {
        Some(k) => {
            let c = &children[k];
            let is_dir = match c.kind {
                Some(EntryKind::Dir) => true,
                _ => false,
            };
            kq_found_exec(book, &c.path, is_dir);
            out.push(event_on(EventKind::Create(child_create_kind_exec(c.kind)), &c.path));
            assert(events_view(out@) =~= seq![on(EventKind::Create(child_create_kind(c.kind)), c.path@)]);
        },
        None => {
            let any_new = any_new_child(handles, children);
            let w = is_watched_path(&book.watches, path);
            push_event_if(&mut out, !any_new && w, event_on(EventKind::Modify(ModifyKind::Data(DataChange::Any)), path));
        },
    }
    out
}

/// Handles one vnode notification on `path`, as [`vnode_spec`] says: `handles` are the paths
/// that have a watch, with whether each is a directory; `is_dir` whether `path` is a
/// directory now; `now` what is at `path` after a deletion, if anything; `listing` the entries
/// of `path` after a write to it as a directory, or the message of the error that reading them
/// gave. Returns the events to report, in order, or the error to report.
pub fn handle_vnode(
    book: &mut KqueueBook,
    handles: &Vec<(String, bool)>,
    vnode: Vnode,
    path: &String,
    is_dir: bool,
    now: Option<EntryKind>,
    listing: Result<Vec<ChildEntry>, String>,
) -> (r: Result<Vec<Event>, Error>)
    requires
        old(book).ancestors.wf(),
    ensures
        ({
            let (b, res) = vnode_spec(old(book)@, handles_view(handles@), vnode, path@, is_dir, now,
                match listing { Ok(cs) => Ok(listing_view(cs@)), Err(m) => Err(m@) });
            &&& final(book)@ == b
            &&& match (r, res) {
                (Ok(evs), Ok(s)) => events_view(evs@) == s,
                (Err(e), Err(m)) => e.kind matches ErrorKind::Io(msg) && msg@ == m && e.paths@.len() == 0,
                _ => false,
            }
        }),
        final(book).ancestors == old(book).ancestors,
{
    let mut out: Vec<Event> = Vec::new();
    assert(events_view(out@) =~= Seq::<EventView>::empty());
    match vnode {
        Vnode::Delete => {
            kq_gone_exec(book, path);
            proof {
                lemma_watched_after_set_state(old(book)@.table, path@, RootState::Missing, path@);
            }
            if is_watched_path(&book.watches, path) {
                out.push(event_on(EventKind::Remove(RemoveKind::Any), path));
                assert(events_view(out@) =~= seq![on(EventKind::Remove(RemoveKind::Any), path@)]);
                if let Some(k) = now {
                    let now_dir = match k {
                        EntryKind::Dir => true,
                        _ => false,
                    };
                    kq_found_exec(book, path, now_dir);
                    let ghost before = events_view(out@);
                    out.push(event_on(EventKind::Create(child_create_kind_exec(Some(k))), path));
                    assert(events_view(out@) =~= before.push(on(EventKind::Create(child_create_kind(Some(k))), path@)));
                }
            }
            Ok(out)
        },
        Vnode::Write => {
            if is_dir {
                match listing {
                    Ok(children) => {
                        let evs = dir_write_exec(book, handles, path, &children);
                        Ok(evs)
                    },
                    Err(msg) => {
                        if book.ancestors.contains(path) {
                            book.pending.changed_dirs.push(path.clone());
                            assert(strs_view(book.pending.changed_dirs@) =~= strs_view(old(book).pending.changed_dirs@).push(path@));
                        }
                        Err(Error::new(ErrorKind::Io(msg)))
                    },
                }
            } else {
                let w = is_watched_path(&book.watches, path);
                push_event_if(&mut out, w, event_on(EventKind::Modify(ModifyKind::Data(DataChange::Any)), path));
                Ok(out)
            }
        },
        Vnode::Extend | Vnode::Truncate => {
            let w = is_watched_path(&book.watches, path);
            push_event_if(&mut out, w, event_on(EventKind::Modify(ModifyKind::Data(DataChange::Size)), path));
            Ok(out)
        },
        Vnode::Attrib => {
            let w = is_watched_path(&book.watches, path);
            push_event_if(&mut out, w, event_on(EventKind::Modify(ModifyKind::Metadata(MetadataKind::Any)), path));
            Ok(out)
        },
        Vnode::Link => {
            if is_recursive_at(&book.watches, path) {
                book.pending.remove_watches.push(path.clone());
                book.pending.add_watches.push((path.clone(), true, true));
                assert(strs_view(book.pending.remove_watches@) =~= strs_view(old(book).pending.remove_watches@).push(path@));
                assert(book@.adds =~= old(book)@.adds.push((path@, true, true)));
            }
            let w = is_watched_path(&book.watches, path);
            push_event_if(&mut out, w, event_on(EventKind::Modify(ModifyKind::Any), path));
            Ok(out)
        },
        Vnode::Rename => {
            kq_gone_exec(book, path);
            proof {
                lemma_watched_after_set_state(old(book)@.table, path@, RootState::Missing, path@);
            }
            let w = is_watched_path(&book.watches, path);
            push_event_if(&mut out, w, event_on(EventKind::Modify(ModifyKind::Name(RenameMode::Any)), path));
            Ok(out)
        },
        Vnode::Revoke => {
            kq_gone_exec(book, path);
            proof {
                lemma_watched_after_set_state(old(book)@.table, path@, RootState::Missing, path@);
            }
            let w = is_watched_path(&book.watches, path);
            push_event_if(&mut out, w, event_on(EventKind::Remove(RemoveKind::Any), path));
            Ok(out)
        },
        Vnode::Other => {
            let ev = Event::new(EventKind::Other);
            assert(paths_view(ev.paths@) =~= Seq::<Seq<char>>::empty());
            out.push(ev);
            assert(events_view(out@) =~= seq![(head(EventKind::Other), Seq::<Seq<char>>::empty())]);
            Ok(out)
        },
    }
}


/// The entry that [`first_new_watched`] finds is watched.
proof fn lemma_first_new_watched_is_watched(
    t: Seq<(Seq<char>, RootWatch)>,
    handles: Seq<(Seq<char>, bool)>,
    cs: Seq<(Seq<char>, Option<EntryKind>)>,
)
    ensures
        first_new_watched(t, handles, cs) matches Some(c) ==> watched(t, c.0),
    decreases cs.len(),
{
    if cs.len() > 0 {
        lemma_first_new_watched_is_watched(t, handles, cs.drop_first());
    }
}

proof fn lemma_single_watched(t: Seq<(Seq<char>, RootWatch)>, c: bool, e: EventView)
    requires
        c ==> forall|j: int| 0 <= j < e.1.len() ==> watched(t, #[trigger] e.1[j]),
    ensures
        all_watched(t, push_if(seq![], c, e)),
{
    let s = push_if(Seq::<EventView>::empty(), c, e);
    assert forall|i: int, j: int| 0 <= i < s.len() && 0 <= j < s[i].1.len() implies watched(t, #[trigger] s[i].1[j]) by {
        assert(s[i] == e);
    }
}

/// What a changed ancestor of tracked roots asks for one of its children on the way to them:
/// the roots below a child that is a directory again can be reached and are watched again; the
/// ones below a child that is gone, or is no directory, are cut off.
#[derive(Clone, Debug)]
pub enum ChainAction {
    Rearm(String),
    Vanish(String),
}

/// Whether `c` is the action for the child `e`: rearm below a directory, vanish below
/// anything else, or below a child whose metadata could not be read.
pub open spec fn is_chain_action(e: ChildEntry, c: ChainAction) -> bool {
    match e.kind {
        Some(EntryKind::Dir) => c matches ChainAction::Rearm(p) && p@ == e.path@,
        _ => c matches ChainAction::Vanish(p) && p@ == e.path@,
    }
}

/// The actions for the children of a changed ancestor (see [`AncestorCounts::children_of`]),
/// each with what it is now, in order.
pub fn chain_actions(children: &Vec<ChildEntry>) -> (r: Vec<ChainAction>)
    ensures
        r@.len() == children@.len(),
        forall|i: int| 0 <= i < children@.len() ==> is_chain_action(#[trigger] children@[i], r@[i]),
{
    let mut out: Vec<ChainAction> = Vec::new();
    let mut i: usize = 0;
    while i < children.len()
        invariant
            i <= children@.len(),
            out@.len() == i,
            forall|j: int| 0 <= j < i ==> is_chain_action(#[trigger] children@[j], out@[j]),
        decreases children@.len() - i,
    {
        let c = &children[i];
        let action = match c.kind {
            Some(EntryKind::Dir) => ChainAction::Rearm(c.path.clone()),
            _ => ChainAction::Vanish(c.path.clone()),
        };
        out.push(action);
        i = i + 1;
    }
    out
}

/// Whether a watch of `path`, queued by a notification, failed because the path was gone
/// before the watch could be added: the error says the path is not found, and names it.
pub open spec fn lost_before_watch(path: Seq<char>, outcome: Result<(), Error>) -> bool {
    outcome matches Err(e) && e.kind is PathNotFound && strs_view(e.paths@).contains(path)
}

/// The event that the outcome of a queued watch of `path` gives: a path that was gone before
/// its watch could be added is reported removed; any other outcome gives none.
pub fn queued_watch_event(path: &String, outcome: &Result<(), Error>) -> (r: Option<Event>)
    ensures
        lost_before_watch(path@, *outcome) ==> (r matches Some(ev)
            && (ev.head(), paths_view(ev.paths@)) == on(EventKind::Remove(RemoveKind::Any), path@)),
        !lost_before_watch(path@, *outcome) ==> r is None,
{
    match outcome {
        Ok(()) => None,
        Err(e) => {
            let not_found = match e.kind {
                ErrorKind::PathNotFound => true,
                _ => false,
            };
            if !not_found {
                return None;
            }
            let ghost ps = strs_view(e.paths@);
            let mut i: usize = 0;
            while i < e.paths.len()
                invariant
                    i <= e.paths@.len(),
                    ps == strs_view(e.paths@),
                    *outcome == Err::<(), Error>(*e),
                    e.kind is PathNotFound,
                    forall|j: int| 0 <= j < i ==> ps[j] != path@,
                decreases e.paths@.len() - i,
            {
                if same_path(&e.paths[i], path) {
                    assert(ps[i as int] == path@);
                    assert(ps.contains(path@));
                    return Some(event_on(EventKind::Remove(RemoveKind::Any), path));
                }
                i = i + 1;
            }
            assert(!ps.contains(path@));
            None
        },
    }
}

proof fn lemma_first_new_watched_at(
    t: Seq<(Seq<char>, RootWatch)>,
    handles: Seq<(Seq<char>, bool)>,
    cs: Seq<(Seq<char>, Option<EntryKind>)>,
    i: int,
)
    requires
        0 <= i < cs.len(),
        !has_handle(handles, cs[i].0) && watched(t, cs[i].0),
        forall|j: int| 0 <= j < i ==> !(!has_handle(handles, #[trigger] cs[j].0) && watched(t, cs[j].0)),
    ensures
        first_new_watched(t, handles, cs) == Some(cs[i]),
    decreases cs.len(),
{
    if i > 0 {
        let rest = cs.drop_first();
        assert(!(!has_handle(handles, cs[0].0) && watched(t, cs[0].0)));
        assert forall|j: int| 0 <= j < i - 1 implies !(!has_handle(handles, #[trigger] rest[j].0) && watched(t, rest[j].0)) by {
            assert(rest[j] == cs[j + 1]);
        }
        assert(rest[i - 1] == cs[i]);
        lemma_first_new_watched_at(t, handles, rest, i - 1);
    }
}

/// A write to a watched directory that reveals an entry reports that entry created with the
/// kind it is: a folder for a directory, a file for a file, anything else as another kind. The
/// entry reported is the first of the listing that has no watch yet and is watched. Likewise,
/// a deleted path that is found again (a rename over it) is reported removed, then created
/// with the kind it is now.
pub proof fn lemma_created_entries_have_their_kind(
    b: KqueueView,
    handles: Seq<(Seq<char>, bool)>,
    path: Seq<char>,
    cs: Seq<(Seq<char>, Option<EntryKind>)>,
    i: int,
    now: Option<EntryKind>,
)
    requires
        0 <= i < cs.len(),
        !has_handle(handles, cs[i].0) && watched(b.table, cs[i].0),
        forall|j: int| 0 <= j < i ==> !(!has_handle(handles, #[trigger] cs[j].0) && watched(b.table, cs[j].0)),
    ensures
        ({
            let evs = vnode_spec(b, handles, Vnode::Write, path, true, now, Ok(cs)).1;
            &&& cs[i].1 == Some(EntryKind::Dir) ==> evs == Ok::<Seq<EventView>, Seq<char>>(seq![on(EventKind::Create(CreateKind::Folder), cs[i].0)])
            &&& cs[i].1 == Some(EntryKind::File) ==> evs == Ok::<Seq<EventView>, Seq<char>>(seq![on(EventKind::Create(CreateKind::File), cs[i].0)])
            &&& cs[i].1 != Some(EntryKind::Dir) && cs[i].1 != Some(EntryKind::File)
                ==> evs == Ok::<Seq<EventView>, Seq<char>>(seq![on(EventKind::Create(CreateKind::Other), cs[i].0)])
        }),
        ({
            let evs = vnode_spec(b, handles, Vnode::Delete, path, true, now, Ok(cs)).1;
            &&& watched(b.table, path) && now == Some(EntryKind::Dir) ==> evs == Ok::<Seq<EventView>, Seq<char>>(
                seq![on(EventKind::Remove(RemoveKind::Any), path), on(EventKind::Create(CreateKind::Folder), path)])
            &&& watched(b.table, path) && now == Some(EntryKind::File) ==> evs == Ok::<Seq<EventView>, Seq<char>>(
                seq![on(EventKind::Remove(RemoveKind::Any), path), on(EventKind::Create(CreateKind::File), path)])
        }),
{
    lemma_first_new_watched_at(b.table, handles, cs, i);
    assert(seq![on(EventKind::Remove(RemoveKind::Any), path)].push(on(EventKind::Create(CreateKind::Folder), path))
        =~= seq![on(EventKind::Remove(RemoveKind::Any), path), on(EventKind::Create(CreateKind::Folder), path)]);
    assert(seq![on(EventKind::Remove(RemoveKind::Any), path)].push(on(EventKind::Create(CreateKind::File), path))
        =~= seq![on(EventKind::Remove(RemoveKind::Any), path), on(EventKind::Create(CreateKind::File), path)]);
}

/// A vnode notification reports only watched paths, but for the notifications some platforms
/// add, which concern no path: every path of every event it gives is watched in the table as
/// it was when the notification came.
pub proof fn lemma_vnode_reports_only_watched_paths(
    b: KqueueView,
    handles: Seq<(Seq<char>, bool)>,
    vnode: Vnode,
    path: Seq<char>,
    is_dir: bool,
    now: Option<EntryKind>,
    listing: Result<Seq<(Seq<char>, Option<EntryKind>)>, Seq<char>>,
)
    ensures
        vnode_spec(b, handles, vnode, path, is_dir, now, listing).1 matches Ok(evs) ==> all_watched(b.table, evs),
{
    let t = b.table;
    let w = watched(t, path);
    match vnode {
        Vnode::Delete => {
            if w {
                let e1 = seq![on(EventKind::Remove(RemoveKind::Any), path)];
                lemma_single_watched(t, true, on(EventKind::Remove(RemoveKind::Any), path));
                assert(push_if(Seq::<EventView>::empty(), true, on(EventKind::Remove(RemoveKind::Any), path)) == e1);
                if let Some(k) = now {
                    let e2 = e1.push(on(EventKind::Create(child_create_kind(Some(k))), path));
                    assert forall|i: int, j: int| 0 <= i < e2.len() && 0 <= j < e2[i].1.len() implies watched(t, #[trigger] e2[i].1[j]) by {
                        assert(e2[i].1 == seq![path]);
                    }
                }
            }
        },
        Vnode::Write => if is_dir {
            if let Ok(cs) = listing {
                lemma_first_new_watched_is_watched(t, handles, cs);
                match first_new_watched(t, handles, cs) {
                    Some(c) => {
                        lemma_single_watched(t, true, on(EventKind::Create(child_create_kind(c.1)), c.0));
                        assert(push_if(Seq::<EventView>::empty(), true, on(EventKind::Create(child_create_kind(c.1)), c.0))
                            == seq![on(EventKind::Create(child_create_kind(c.1)), c.0)]);
                    },
                    None => {
                        let any_new = exists|i: int| 0 <= i < cs.len() && is_new_child(handles, #[trigger] cs[i]);
                        lemma_single_watched(t, !any_new && w, on(EventKind::Modify(ModifyKind::Data(DataChange::Any)), path));
                    },
                }
            }
        } else {
            lemma_single_watched(t, w, on(EventKind::Modify(ModifyKind::Data(DataChange::Any)), path));
        },
        Vnode::Extend | Vnode::Truncate => lemma_single_watched(t, w, on(EventKind::Modify(ModifyKind::Data(DataChange::Size)), path)),
        Vnode::Attrib => lemma_single_watched(t, w, on(EventKind::Modify(ModifyKind::Metadata(MetadataKind::Any)), path)),
        Vnode::Link => lemma_single_watched(t, w, on(EventKind::Modify(ModifyKind::Any), path)),
        Vnode::Rename => lemma_single_watched(t, w, on(EventKind::Modify(ModifyKind::Name(RenameMode::Any)), path)),
        Vnode::Revoke => lemma_single_watched(t, w, on(EventKind::Remove(RemoveKind::Any), path)),
        Vnode::Other => {
            let s = seq![(head(EventKind::Other), Seq::<Seq<char>>::empty())];
            assert forall|i: int, j: int| 0 <= i < s.len() && 0 <= j < s[i].1.len() implies watched(t, #[trigger] s[i].1[j]) by {
                assert(s[i].1.len() == 0);
            }
        },
    }
}

} // verus!
