//! The translation of Darwin's FSEvents notifications into file system events, and the
//! bookkeeping of the paths that the FSEvents streams of a process carry.

use crate::fs_event::{
    head, with_info, CreateKind, DataChange, Event, EventHead, EventKind, Flag, Info, MetadataKind,
    ModifyKind, RemoveKind, RenameMode,
};

use crate::bits::has_bits;
use crate::fsevent_flags::{
    StreamFlags, FINDER_INFO_MOD, HISTORY_DONE, INODE_META_MOD, IS_DIR, IS_FILE,
    IS_HARDLINK, IS_SYMLINK, ITEM_CHANGE_OWNER, ITEM_CLONED, ITEM_CREATED, ITEM_MODIFIED,
    ITEM_REMOVED, ITEM_RENAMED, ITEM_XATTR_MOD, KERNEL_DROPPED, MOUNT, MUST_SCAN_SUBDIRS,
    OWN_EVENT, ROOT_CHANGED, UNMOUNT, USER_DROPPED,
};
use vstd::prelude::*;

verus! {

/// `h` when `c` holds, nothing otherwise.
#[verifier::opaque]
pub open spec fn emitted_if(c: bool, h: EventHead) -> Seq<EventHead> {
    if c {
        seq![h]
    } else {
        seq![]
    }
}

/// `h` as it is delivered: a clone-related notification annotates the events that carry no
/// note yet, and a notification caused by this process carries its id.
pub open spec fn decorate(h: EventHead, clone_related: bool, own: Option<u32>) -> EventHead {
    let h1 = if clone_related && h.info is None {
        with_info(h, Info::IsClone)
    } else {
        h
    };
    match own {
        Some(pid) => EventHead { process_id: Some(pid), ..h1 },
        None => h1,
    }
}

/// The rescan event of a notification that asks to rescan the subdirectories.
pub open spec fn rescan_head(f: u32) -> EventHead {
    let e = EventHead { flag: Some(Flag::Rescan), ..head(EventKind::Other) };
    if has_bits(f, USER_DROPPED) {
        with_info(e, Info::RescanUserDropped)
    } else if has_bits(f, KERNEL_DROPPED) {
        with_info(e, Info::RescanKernelDropped)
    } else {
        e
    }
}

/// The event that reports a changed root: a root that is there is reported created, unless
/// the flags carry its own creation; a root that is gone is reported removed, or renamed when
/// the flags say so.
pub open spec fn root_changed_heads(f: u32, root_path: Option<bool>) -> Seq<EventHead> {
    if !has_bits(f, ROOT_CHANGED) {
        seq![]
    } else {
        match root_path {
            Some(is_dir) => if has_bits(f, ITEM_CREATED) {
                seq![]
            } else {
                seq![with_info(
                    head(EventKind::Create(if is_dir { CreateKind::Folder } else { CreateKind::File })),
                    Info::RootChanged,
                )]
            },
            None => {
                let kind = if has_bits(f, ITEM_REMOVED) {
                    if has_bits(f, IS_DIR) {
                        EventKind::Remove(RemoveKind::Folder)
                    } else if has_bits(f, IS_FILE) {
                        EventKind::Remove(RemoveKind::File)
                    } else {
                        EventKind::Remove(RemoveKind::Any)
                    }
                } else if has_bits(f, ITEM_RENAMED) {
                    EventKind::Modify(ModifyKind::Name(RenameMode::From))
                } else {
                    EventKind::Remove(RemoveKind::Any)
                };
                seq![with_info(head(kind), Info::RootChanged)]
            },
        }
    }
}

/// The event of a created item, by the type of the item.
pub open spec fn created_head(f: u32) -> EventHead {
    if has_bits(f, IS_DIR) {
        head(EventKind::Create(CreateKind::Folder))
    } else if has_bits(f, IS_FILE) {
        head(EventKind::Create(CreateKind::File))
    } else if has_bits(f, IS_SYMLINK) {
        with_info(head(EventKind::Create(CreateKind::Other)), Info::IsSymlink)
    } else if has_bits(f, IS_HARDLINK) {
        with_info(head(EventKind::Create(CreateKind::Other)), Info::IsHardlink)
    } else if has_bits(f, ITEM_CLONED) {
        with_info(head(EventKind::Create(CreateKind::Other)), Info::IsClone)
    } else {
        head(EventKind::Create(CreateKind::Any))
    }
}

/// The event of a removed item, by the type of the item.
pub open spec fn removed_head(f: u32) -> EventHead {
    if has_bits(f, IS_DIR) {
        head(EventKind::Remove(RemoveKind::Folder))
    } else if has_bits(f, IS_FILE) {
        head(EventKind::Remove(RemoveKind::File))
    } else if has_bits(f, IS_SYMLINK) {
        with_info(head(EventKind::Remove(RemoveKind::Other)), Info::IsSymlink)
    } else if has_bits(f, IS_HARDLINK) {
        with_info(head(EventKind::Remove(RemoveKind::Other)), Info::IsHardlink)
    } else if has_bits(f, ITEM_CLONED) {
        with_info(head(EventKind::Remove(RemoveKind::Other)), Info::IsClone)
    } else {
        head(EventKind::Remove(RemoveKind::Any))
    }
}

/// The decorated root, mount and unmount events of a precise notification.
pub open spec fn root_mount_heads(f: u32, root_path: Option<bool>, c: bool, o: Option<u32>) -> Seq<EventHead> {
    root_changed_heads(f, root_path).map_values(|h: EventHead| decorate(h, c, o))
        + emitted_if(has_bits(f, MOUNT), decorate(with_info(head(EventKind::Create(CreateKind::Other)), Info::Mount), c, o))
        + emitted_if(has_bits(f, UNMOUNT), decorate(with_info(head(EventKind::Remove(RemoveKind::Other)), Info::Mount), c, o))
}

/// The decorated creation, rename and metadata events of a precise notification.
pub open spec fn item_heads(f: u32, c: bool, o: Option<u32>) -> Seq<EventHead> {
    let root_changed = has_bits(f, ROOT_CHANGED);
    emitted_if(has_bits(f, ITEM_CREATED), decorate(created_head(f), c, o))
        + emitted_if(has_bits(f, ITEM_RENAMED) && !root_changed, decorate(head(EventKind::Modify(ModifyKind::Name(RenameMode::Any))), c, o))
        + emitted_if(has_bits(f, INODE_META_MOD), decorate(head(EventKind::Modify(ModifyKind::Metadata(MetadataKind::Any))), c, o))
        + emitted_if(has_bits(f, FINDER_INFO_MOD), decorate(with_info(head(EventKind::Modify(ModifyKind::Metadata(MetadataKind::Other))), Info::FinderInfo), c, o))
}

/// The decorated ownership, attribute, data and removal events of a precise notification.
pub open spec fn change_heads(f: u32, c: bool, o: Option<u32>) -> Seq<EventHead> {
    let root_changed = has_bits(f, ROOT_CHANGED);
    emitted_if(has_bits(f, ITEM_CHANGE_OWNER), decorate(head(EventKind::Modify(ModifyKind::Metadata(MetadataKind::Ownership))), c, o))
        + emitted_if(has_bits(f, ITEM_XATTR_MOD), decorate(head(EventKind::Modify(ModifyKind::Metadata(MetadataKind::Extended))), c, o))
        + emitted_if(has_bits(f, ITEM_MODIFIED), decorate(head(EventKind::Modify(ModifyKind::Data(DataChange::Content))), c, o))
        + emitted_if(has_bits(f, ITEM_REMOVED) && !root_changed, decorate(removed_head(f), c, o))
}

/// The decorated events of a precise notification that follow its rescan event, in order.
pub open spec fn precise_heads(f: u32, root_path: Option<bool>, c: bool, o: Option<u32>) -> Seq<EventHead> {
    root_mount_heads(f, root_path, c, o) + item_heads(f, c, o) + change_heads(f, c, o)
}

/// The events that one notification with flags `f` is translated into, in order. `precise`
/// asks for the kind of each change; `root_path` says, for a changed root, whether it exists
/// now and is a directory; `process_id` is the id of this process.
pub open spec fn translated_heads(f: u32, precise: bool, root_path: Option<bool>, process_id: u32) -> Seq<EventHead> {
    if has_bits(f, HISTORY_DONE) {
        seq![]
    } else {
        let c = precise && has_bits(f, ITEM_CLONED);
        let o = if precise && has_bits(f, OWN_EVENT) { Some(process_id) } else { None };
        let scan = emitted_if(has_bits(f, MUST_SCAN_SUBDIRS), decorate(rescan_head(f), c, o));
        if !precise {
            scan + seq![head(EventKind::Any)]
        } else {
            scan + precise_heads(f, root_path, c, o)
        }
    }
}

/// 1 when `c` holds, 0 otherwise.
#[verifier::opaque]
pub open spec fn ind(c: bool) -> nat {
    if c { 1 } else { 0 }
}

/// How many events the root, mount and unmount flags of `f` give at most.
pub open spec fn root_mount_count(f: u32) -> nat {
    ind(has_bits(f, ROOT_CHANGED)) + ind(has_bits(f, MOUNT)) + ind(has_bits(f, UNMOUNT))
}

/// How many events the creation, rename and metadata flags of `f` give.
pub open spec fn item_count(f: u32) -> nat {
    let rc = has_bits(f, ROOT_CHANGED);
    ind(has_bits(f, ITEM_CREATED)) + ind(has_bits(f, ITEM_RENAMED) && !rc)
        + ind(has_bits(f, INODE_META_MOD)) + ind(has_bits(f, FINDER_INFO_MOD))
}

/// How many events the ownership, attribute, data and removal flags of `f` give.
pub open spec fn change_count(f: u32) -> nat {
    let rc = has_bits(f, ROOT_CHANGED);
    ind(has_bits(f, ITEM_CHANGE_OWNER)) + ind(has_bits(f, ITEM_XATTR_MOD))
        + ind(has_bits(f, ITEM_MODIFIED)) + ind(has_bits(f, ITEM_REMOVED) && !rc)
}

/// How many events a notification with flags `f` is translated into at most.
pub open spec fn event_count(f: u32, precise: bool) -> nat {
    if has_bits(f, HISTORY_DONE) {
        0
    } else if !precise {
        ind(has_bits(f, MUST_SCAN_SUBDIRS)) + 1
    } else {
        ind(has_bits(f, MUST_SCAN_SUBDIRS)) + root_mount_count(f) + item_count(f) + change_count(f)
    }
}

/// The attributes, without paths, of a sequence of events.
pub open spec fn heads(s: Seq<Event>) -> Seq<EventHead> {
    s.map_values(|e: Event| e.head())
}

/// How many events [`translate_flags`] gives for `flags`, at most; the count is exact for a
/// notification that is not precise, and zero exactly when no event is given.
pub fn translated_event_count(flags: &StreamFlags, precise: bool) -> (r: usize)
    ensures
        r == event_count(flags.spec_bits(), precise),
{
    if flags.contains(HISTORY_DONE) {
        return 0;
    }
    let scan = indicator(flags.contains(MUST_SCAN_SUBDIRS));
    if !precise {
        return scan + 1;
    }
    scan + count_root_mount(flags) + count_items(flags) + count_changes(flags)
}

fn count_root_mount(flags: &StreamFlags) -> (r: usize)
    ensures
        r == root_mount_count(flags.spec_bits()),
        r <= 3,
{
    indicator(flags.contains(ROOT_CHANGED)) + indicator(flags.contains(MOUNT)) + indicator(flags.contains(UNMOUNT))
}

fn count_items(flags: &StreamFlags) -> (r: usize)
    ensures
        r == item_count(flags.spec_bits()),
        r <= 4,
{
    let rc = flags.contains(ROOT_CHANGED);
    let renamed = flags.contains(ITEM_RENAMED) && !rc;
    indicator(flags.contains(ITEM_CREATED)) + indicator(renamed) + indicator(flags.contains(INODE_META_MOD))
        + indicator(flags.contains(FINDER_INFO_MOD))
}

fn count_changes(flags: &StreamFlags) -> (r: usize)
    ensures
        r == change_count(flags.spec_bits()),
        r <= 4,
{
    let rc = flags.contains(ROOT_CHANGED);
    let removed = flags.contains(ITEM_REMOVED) && !rc;
    indicator(flags.contains(ITEM_CHANGE_OWNER)) + indicator(flags.contains(ITEM_XATTR_MOD))
        + indicator(flags.contains(ITEM_MODIFIED)) + indicator(removed)
}

/// 1 when `c` holds, 0 otherwise.
fn indicator(c: bool) -> (r: usize)
    ensures
        r == ind(c),
        r <= 1,
{
    proof {
        reveal(ind);
    }
    if c { 1 } else { 0 }
}

/// Appends `ev` to `out` as it is delivered (see [`decorate`]).
fn emit(out: &mut Vec<Event>, ev: Event, clone_related: bool, own: Option<u32>)
    requires
        ev.paths@.len() == 0,
    ensures
        heads(final(out)@) == heads(old(out)@).push(decorate(ev.head(), clone_related, own)),
        forall|i: int| 0 <= i < old(out)@.len() ==> #[trigger] final(out)@[i] == old(out)@[i],
        final(out)@.len() == old(out)@.len() + 1,
        final(out)@.last().paths@.len() == 0,
{
    let mut e = ev;
    if clone_related && e.info.is_none() {
        e = e.set_info(Info::IsClone);
    }
    match own {
        Some(pid) => {
            e.process_id = Some(pid);
        },
        None => {},
    }
    out.push(e);
    proof {
        assert(heads(final(out)@) =~= heads(old(out)@).push(decorate(ev.head(), clone_related, own)));
    }
}

/// Appends `ev` to `out` as it is delivered when `c` holds; leaves `out` as it is otherwise.
fn emit_when(out: &mut Vec<Event>, c: bool, ev: Event, clone_related: bool, own: Option<u32>)
    requires
        ev.paths@.len() == 0,
    ensures
        heads(final(out)@) == heads(old(out)@) + emitted_if(c, decorate(ev.head(), clone_related, own)),
        forall|i: int| 0 <= i < old(out)@.len() ==> #[trigger] final(out)@[i] == old(out)@[i],
        forall|i: int| old(out)@.len() <= i < final(out)@.len() ==> (#[trigger] final(out)@[i]).paths@.len() == 0,
{
    reveal(emitted_if);
    if c {
        emit(out, ev, clone_related, own);
        assert(heads(old(out)@).push(decorate(ev.head(), clone_related, own))
            =~= heads(old(out)@) + emitted_if(c, decorate(ev.head(), clone_related, own)));
    } else {
        assert(heads(old(out)@) =~= heads(old(out)@) + emitted_if(c, decorate(ev.head(), clone_related, own)));
    }
}

/// The rescan event of `flags`.
fn rescan_event(flags: &StreamFlags) -> (r: Event)
    ensures
        r.head() == rescan_head(flags.spec_bits()),
        r.paths@.len() == 0,
{
    let e = Event::new(EventKind::Other).set_flag(Flag::Rescan);
    if flags.contains(USER_DROPPED) {
        e.set_info(Info::RescanUserDropped)
    } else if flags.contains(KERNEL_DROPPED) {
        e.set_info(Info::RescanKernelDropped)
    } else {
        e
    }
}

/// The event of a created item of `flags`.
fn created_event(flags: &StreamFlags) -> (r: Event)
    ensures
        r.head() == created_head(flags.spec_bits()),
        r.paths@.len() == 0,
{
    if flags.contains(IS_DIR) {
        Event::new(EventKind::Create(CreateKind::Folder))
    } else if flags.contains(IS_FILE) {
        Event::new(EventKind::Create(CreateKind::File))
    } else if flags.contains(IS_SYMLINK) {
        Event::new(EventKind::Create(CreateKind::Other)).set_info(Info::IsSymlink)
    } else if flags.contains(IS_HARDLINK) {
        Event::new(EventKind::Create(CreateKind::Other)).set_info(Info::IsHardlink)
    } else if flags.contains(ITEM_CLONED) {
        Event::new(EventKind::Create(CreateKind::Other)).set_info(Info::IsClone)
    } else {
        Event::new(EventKind::Create(CreateKind::Any))
    }
}

/// The event of a removed item of `flags`.
fn removed_event(flags: &StreamFlags) -> (r: Event)
    ensures
        r.head() == removed_head(flags.spec_bits()),
        r.paths@.len() == 0,
{
    if flags.contains(IS_DIR) {
        Event::new(EventKind::Remove(RemoveKind::Folder))
    } else if flags.contains(IS_FILE) {
        Event::new(EventKind::Remove(RemoveKind::File))
    } else if flags.contains(IS_SYMLINK) {
        Event::new(EventKind::Remove(RemoveKind::Other)).set_info(Info::IsSymlink)
    } else if flags.contains(IS_HARDLINK) {
        Event::new(EventKind::Remove(RemoveKind::Other)).set_info(Info::IsHardlink)
    } else if flags.contains(ITEM_CLONED) {
        Event::new(EventKind::Remove(RemoveKind::Other)).set_info(Info::IsClone)
    } else {
        Event::new(EventKind::Remove(RemoveKind::Any))
    }
}

/// The event of a changed root, if one is reported (see [`root_changed_heads`]).
fn root_changed_event(flags: &StreamFlags, root_path: Option<bool>) -> (r: Option<Event>)
    requires
        has_bits(flags.spec_bits(), ROOT_CHANGED),
    ensures
        r is Some <==> root_changed_heads(flags.spec_bits(), root_path).len() == 1,
        root_changed_heads(flags.spec_bits(), root_path).len() <= 1,
        r is Some ==> r->0.head() == root_changed_heads(flags.spec_bits(), root_path)[0]
            && r->0.paths@.len() == 0,
{
    match root_path {
        Some(is_dir) => {
            if !flags.contains(ITEM_CREATED) {
                let kind = if is_dir { CreateKind::Folder } else { CreateKind::File };
                Some(Event::new(EventKind::Create(kind)).set_info(Info::RootChanged))
            } else {
                None
            }
        },
        None => {
            let kind = if flags.contains(ITEM_REMOVED) {
                if flags.contains(IS_DIR) {
                    EventKind::Remove(RemoveKind::Folder)
                } else if flags.contains(IS_FILE) {
                    EventKind::Remove(RemoveKind::File)
                } else {
                    EventKind::Remove(RemoveKind::Any)
                }
            } else if flags.contains(ITEM_RENAMED) {
                EventKind::Modify(ModifyKind::Name(RenameMode::From))
            } else {
                EventKind::Remove(RemoveKind::Any)
            };
            Some(Event::new(kind).set_info(Info::RootChanged))
        },
    }
}

/// Appends the decorated root, mount and unmount events of a precise notification.
fn emit_root_mount(out: &mut Vec<Event>, flags: &StreamFlags, root_path: Option<bool>, c: bool, o: Option<u32>)
    ensures
        heads(final(out)@) == heads(old(out)@) + root_mount_heads(flags.spec_bits(), root_path, c, o),
        forall|i: int| 0 <= i < old(out)@.len() ==> #[trigger] final(out)@[i] == old(out)@[i],
        forall|i: int| old(out)@.len() <= i < final(out)@.len() ==> (#[trigger] final(out)@[i]).paths@.len() == 0,
{
    let ghost f = flags.spec_bits();
    let ghost h0 = heads(out@);
    let ghost mapped = root_changed_heads(f, root_path).map_values(|h: EventHead| decorate(h, c, o));
    if flags.contains(ROOT_CHANGED) {
        match root_changed_event(flags, root_path) {
            Some(ev) => {
                emit(out, ev, c, o);
                assert(mapped =~= seq![decorate(ev.head(), c, o)]);
                assert(heads(out@) =~= h0 + mapped);
            },
            None => {
                assert(mapped =~= Seq::<EventHead>::empty());
                assert(heads(out@) =~= h0 + mapped);
            },
        }
    } else {
        assert(mapped =~= Seq::<EventHead>::empty());
        assert(heads(out@) =~= h0 + mapped);
    }
    emit_when(out, flags.contains(MOUNT), Event::new(EventKind::Create(CreateKind::Other)).set_info(Info::Mount), c, o);
    emit_when(out, flags.contains(UNMOUNT), Event::new(EventKind::Remove(RemoveKind::Other)).set_info(Info::Mount), c, o);
    assert(heads(out@) =~= h0 + root_mount_heads(f, root_path, c, o));
}

/// Appends the decorated creation, rename and metadata events of a precise notification.
fn emit_items(out: &mut Vec<Event>, flags: &StreamFlags, c: bool, o: Option<u32>)
    ensures
        heads(final(out)@) == heads(old(out)@) + item_heads(flags.spec_bits(), c, o),
        forall|i: int| 0 <= i < old(out)@.len() ==> #[trigger] final(out)@[i] == old(out)@[i],
        forall|i: int| old(out)@.len() <= i < final(out)@.len() ==> (#[trigger] final(out)@[i]).paths@.len() == 0,
{
    let ghost f = flags.spec_bits();
    let ghost h0 = heads(out@);
    let rc = flags.contains(ROOT_CHANGED);
    emit_when(out, flags.contains(ITEM_CREATED), created_event(flags), c, o);
    emit_when(out, flags.contains(ITEM_RENAMED) && !rc, Event::new(EventKind::Modify(ModifyKind::Name(RenameMode::Any))), c, o);
    emit_when(out, flags.contains(INODE_META_MOD), Event::new(EventKind::Modify(ModifyKind::Metadata(MetadataKind::Any))), c, o);
    emit_when(
        out,
        flags.contains(FINDER_INFO_MOD),
        Event::new(EventKind::Modify(ModifyKind::Metadata(MetadataKind::Other))).set_info(Info::FinderInfo),
        c,
        o,
    );
    assert(heads(out@) =~= h0 + item_heads(f, c, o));
}

/// Appends the decorated ownership, attribute, data and removal events of a precise
/// notification.
fn emit_changes(out: &mut Vec<Event>, flags: &StreamFlags, c: bool, o: Option<u32>)
    ensures
        heads(final(out)@) == heads(old(out)@) + change_heads(flags.spec_bits(), c, o),
        forall|i: int| 0 <= i < old(out)@.len() ==> #[trigger] final(out)@[i] == old(out)@[i],
        forall|i: int| old(out)@.len() <= i < final(out)@.len() ==> (#[trigger] final(out)@[i]).paths@.len() == 0,
{
    let ghost f = flags.spec_bits();
    let ghost h0 = heads(out@);
    let rc = flags.contains(ROOT_CHANGED);
    emit_when(out, flags.contains(ITEM_CHANGE_OWNER), Event::new(EventKind::Modify(ModifyKind::Metadata(MetadataKind::Ownership))), c, o);
    emit_when(out, flags.contains(ITEM_XATTR_MOD), Event::new(EventKind::Modify(ModifyKind::Metadata(MetadataKind::Extended))), c, o);
    emit_when(out, flags.contains(ITEM_MODIFIED), Event::new(EventKind::Modify(ModifyKind::Data(DataChange::Content))), c, o);
    emit_when(out, flags.contains(ITEM_REMOVED) && !rc, removed_event(flags), c, o);
    assert(heads(out@) =~= h0 + change_heads(f, c, o));
}

/// Appends to `out` the events that one notification with `flags` is translated into (see
/// [`translated_heads`]), none of them with a path yet: `precise` asks for the kind of each
/// change; `root_path` says, for a changed root, whether it exists now and is a directory;
/// `process_id` is the id of this process, which marks the changes it caused itself.
pub fn translate_flags_with(flags: &StreamFlags, precise: bool, root_path: Option<bool>, process_id: u32, out: &mut Vec<Event>)
    ensures
        heads(final(out)@) == heads(old(out)@) + translated_heads(flags.spec_bits(), precise, root_path, process_id),
        forall|i: int| 0 <= i < old(out)@.len() ==> #[trigger] final(out)@[i] == old(out)@[i],
        forall|i: int| old(out)@.len() <= i < final(out)@.len() ==> (#[trigger] final(out)@[i]).paths@.len() == 0,
{
    let ghost f = flags.spec_bits();
    let ghost h0 = heads(out@);
    if flags.contains(HISTORY_DONE) {
        assert(heads(out@) =~= h0 + translated_heads(f, precise, root_path, process_id));
        return;
    }
    let c = precise && flags.contains(ITEM_CLONED);
    let o = if precise && flags.contains(OWN_EVENT) { Some(process_id) } else { None };
    emit_when(out, flags.contains(MUST_SCAN_SUBDIRS), rescan_event(flags), c, o);
    let ghost h1 = heads(out@);
    if !precise {
        out.push(Event::new(EventKind::Any));
        assert(heads(out@) =~= h1.push(head(EventKind::Any)));
        assert(heads(out@) =~= h0 + translated_heads(f, precise, root_path, process_id));
        return;
    }
    emit_root_mount(out, flags, root_path, c, o);
    emit_items(out, flags, c, o);
    emit_changes(out, flags, c, o);
    assert(heads(out@) =~= h0 + translated_heads(f, precise, root_path, process_id));
}

/// The events that one notification with `flags` is translated into (see
/// [`translate_flags_with`]).
pub fn translate_flags(flags: &StreamFlags, precise: bool, root_path: Option<bool>, process_id: u32) -> (r: Vec<Event>)
    ensures
        heads(r@) == translated_heads(flags.spec_bits(), precise, root_path, process_id),
        forall|i: int| 0 <= i < r@.len() ==> (#[trigger] r@[i]).paths@.len() == 0,
{
    let mut evs: Vec<Event> = Vec::new();
    assert(heads(evs@) =~= Seq::<EventHead>::empty());
    translate_flags_with(flags, precise, root_path, process_id, &mut evs);
    assert(heads(evs@) =~= translated_heads(flags.spec_bits(), precise, root_path, process_id));
    evs
}

/// `emitted_if(c, h)` holds one element when `c` holds, none otherwise.
proof fn lemma_when_len(c: bool)
    ensures
        forall|h: EventHead| #[trigger] emitted_if(c, h).len() == ind(c),
        ind(c) <= 1,
        ind(c) == 0 <==> !c,
{
    reveal(ind);
    reveal(emitted_if);
}

/// The count that [`translated_event_count`] gives bounds the events that [`translate_flags`]
/// gives for the same flags: it is exact for a notification that is not precise, and it is
/// zero exactly when no event is given, so a notification can be skipped on the count alone.
/// It is exact too when the root's metadata could not be read (`root_path` is none).
pub proof fn lemma_event_count_bounds_translation(
    flags: StreamFlags,
    precise: bool,
    root_path: Option<bool>,
    process_id: u32,
)
    ensures
        translated_heads(flags.spec_bits(), precise, root_path, process_id).len() <= event_count(flags.spec_bits(), precise),
        translated_heads(flags.spec_bits(), precise, root_path, process_id).len() == 0
            <==> event_count(flags.spec_bits(), precise) == 0,
        !precise ==> translated_heads(flags.spec_bits(), precise, root_path, process_id).len()
            == event_count(flags.spec_bits(), precise),
        root_path is None ==> translated_heads(flags.spec_bits(), precise, root_path, process_id).len()
            == event_count(flags.spec_bits(), precise),
{
    let f = flags.spec_bits();
    if has_bits(f, HISTORY_DONE) {
        return;
    }
    let c = precise && has_bits(f, ITEM_CLONED);
    let o = if precise && has_bits(f, OWN_EVENT) { Some(process_id) } else { None };
    let rc = has_bits(f, ROOT_CHANGED);
    lemma_when_len(has_bits(f, MUST_SCAN_SUBDIRS));
    if !precise {
        return;
    }
    lemma_when_len(rc);
    lemma_when_len(has_bits(f, ITEM_CREATED));
    lemma_root_mount_len(f, root_path, c, o);
    lemma_item_len(f, c, o);
    lemma_change_len(f, c, o);
    assert(precise_heads(f, root_path, c, o).len()
        == root_mount_heads(f, root_path, c, o).len() + item_heads(f, c, o).len() + change_heads(f, c, o).len());
    assert(has_bits(f, ROOT_CHANGED) && root_mount_heads(f, root_path, c, o).len() == 0 ==> item_count(f) > 0);
}

proof fn lemma_root_mount_len(f: u32, root_path: Option<bool>, c: bool, o: Option<u32>)
    ensures
        root_mount_heads(f, root_path, c, o).len() <= root_mount_count(f),
        root_mount_count(f) > 0 && root_mount_heads(f, root_path, c, o).len() == 0
            ==> has_bits(f, ROOT_CHANGED) && has_bits(f, ITEM_CREATED),
        root_path is None ==> root_mount_heads(f, root_path, c, o).len() == root_mount_count(f),
{
    reveal(ind);
    lemma_when_len(has_bits(f, MOUNT));
    lemma_when_len(has_bits(f, UNMOUNT));
    let rch = root_changed_heads(f, root_path);
    assert(rch.map_values(|h: EventHead| decorate(h, c, o)).len() == rch.len());
}

proof fn lemma_item_len(f: u32, c: bool, o: Option<u32>)
    ensures
        item_heads(f, c, o).len() == item_count(f),
{
    let rc = has_bits(f, ROOT_CHANGED);
    lemma_when_len(has_bits(f, ITEM_CREATED));
    lemma_when_len(has_bits(f, ITEM_RENAMED) && !rc);
    lemma_when_len(has_bits(f, INODE_META_MOD));
    lemma_when_len(has_bits(f, FINDER_INFO_MOD));
}

proof fn lemma_change_len(f: u32, c: bool, o: Option<u32>)
    ensures
        change_heads(f, c, o).len() == change_count(f),
{
    let rc = has_bits(f, ROOT_CHANGED);
    lemma_when_len(has_bits(f, ITEM_CHANGE_OWNER));
    lemma_when_len(has_bits(f, ITEM_XATTR_MOD));
    lemma_when_len(has_bits(f, ITEM_MODIFIED));
    lemma_when_len(has_bits(f, ITEM_REMOVED) && !rc);
}

/// Whether some event of `s` is of kind `k`.
pub open spec fn has_kind(s: Seq<EventHead>, k: EventKind) -> bool {
    exists|i: int| 0 <= i < s.len() && (#[trigger] s[i]).kind == k
}

proof fn lemma_kind_add(a: Seq<EventHead>, b: Seq<EventHead>, k: EventKind)
    ensures
        has_kind(a + b, k) == (has_kind(a, k) || has_kind(b, k)),
{
    let s = a + b;
    if has_kind(a, k) {
        let i = choose|i: int| 0 <= i < a.len() && (#[trigger] a[i]).kind == k;
        assert(s[i] == a[i]);
    }
    if has_kind(b, k) {
        let i = choose|i: int| 0 <= i < b.len() && (#[trigger] b[i]).kind == k;
        assert(s[a.len() + i] == b[i]);
    }
    if has_kind(s, k) {
        let i = choose|i: int| 0 <= i < s.len() && (#[trigger] s[i]).kind == k;
        if i < a.len() {
            assert(s[i] == a[i]);
        } else {
            assert(s[i] == b[i - a.len()]);
        }
    }
}

proof fn lemma_kind_emitted(c: bool, h: EventHead, k: EventKind)
    ensures
        has_kind(emitted_if(c, h), k) == (c && h.kind == k),
{
    reveal(emitted_if);
    if c {
        assert(emitted_if(c, h)[0] == h);
    }
}

/// A precise notification of a removed item, not of its root, reports the removal with the
/// kind of the item: a folder for a directory, a file for a file that is no directory. It
/// reports no removal of the other of these two kinds.
pub proof fn lemma_removal_has_the_item_kind(flags: StreamFlags, root_path: Option<bool>, process_id: u32)
    requires
        has_bits(flags.spec_bits(), ITEM_REMOVED),
        !has_bits(flags.spec_bits(), ROOT_CHANGED),
        !has_bits(flags.spec_bits(), HISTORY_DONE),
    ensures
        ({
            let hs = translated_heads(flags.spec_bits(), true, root_path, process_id);
            let folder = EventKind::Remove(RemoveKind::Folder);
            let file = EventKind::Remove(RemoveKind::File);
            &&& has_bits(flags.spec_bits(), IS_DIR) ==> has_kind(hs, folder) && !has_kind(hs, file)
            &&& !has_bits(flags.spec_bits(), IS_DIR) && has_bits(flags.spec_bits(), IS_FILE)
                ==> has_kind(hs, file) && !has_kind(hs, folder)
        }),
{
    let f = flags.spec_bits();
    let c = has_bits(f, ITEM_CLONED);
    let o = if has_bits(f, OWN_EVENT) { Some(process_id) } else { None };
    let folder = EventKind::Remove(RemoveKind::Folder);
    let file = EventKind::Remove(RemoveKind::File);
    let scan = emitted_if(has_bits(f, MUST_SCAN_SUBDIRS), decorate(rescan_head(f), c, o));
    let rch = root_changed_heads(f, root_path).map_values(|h: EventHead| decorate(h, c, o));
    assert(rch =~= Seq::<EventHead>::empty());
    let m1 = emitted_if(has_bits(f, MOUNT), decorate(with_info(head(EventKind::Create(CreateKind::Other)), Info::Mount), c, o));
    let m2 = emitted_if(has_bits(f, UNMOUNT), decorate(with_info(head(EventKind::Remove(RemoveKind::Other)), Info::Mount), c, o));
    let i1 = emitted_if(has_bits(f, ITEM_CREATED), decorate(created_head(f), c, o));
    let i2 = emitted_if(has_bits(f, ITEM_RENAMED), decorate(head(EventKind::Modify(ModifyKind::Name(RenameMode::Any))), c, o));
    let i3 = emitted_if(has_bits(f, INODE_META_MOD), decorate(head(EventKind::Modify(ModifyKind::Metadata(MetadataKind::Any))), c, o));
    let i4 = emitted_if(has_bits(f, FINDER_INFO_MOD), decorate(with_info(head(EventKind::Modify(ModifyKind::Metadata(MetadataKind::Other))), Info::FinderInfo), c, o));
    let c1 = emitted_if(has_bits(f, ITEM_CHANGE_OWNER), decorate(head(EventKind::Modify(ModifyKind::Metadata(MetadataKind::Ownership))), c, o));
    let c2 = emitted_if(has_bits(f, ITEM_XATTR_MOD), decorate(head(EventKind::Modify(ModifyKind::Metadata(MetadataKind::Extended))), c, o));
    let c3 = emitted_if(has_bits(f, ITEM_MODIFIED), decorate(head(EventKind::Modify(ModifyKind::Data(DataChange::Content))), c, o));
    let c4 = emitted_if(true, decorate(removed_head(f), c, o));
    let hs = translated_heads(f, true, root_path, process_id);
    assert(hs == scan + (((rch + m1) + m2) + (((i1 + i2) + i3) + i4) + (((c1 + c2) + c3) + c4)));
    assert forall|k: EventKind| k == folder || k == file implies has_kind(hs, k) == (decorate(removed_head(f), c, o).kind == k) by {
        lemma_kind_emitted(has_bits(f, MUST_SCAN_SUBDIRS), decorate(rescan_head(f), c, o), k);
        lemma_kind_emitted(has_bits(f, MOUNT), decorate(with_info(head(EventKind::Create(CreateKind::Other)), Info::Mount), c, o), k);
        lemma_kind_emitted(has_bits(f, UNMOUNT), decorate(with_info(head(EventKind::Remove(RemoveKind::Other)), Info::Mount), c, o), k);
        lemma_kind_emitted(has_bits(f, ITEM_CREATED), decorate(created_head(f), c, o), k);
        lemma_kind_emitted(has_bits(f, ITEM_RENAMED), decorate(head(EventKind::Modify(ModifyKind::Name(RenameMode::Any))), c, o), k);
        lemma_kind_emitted(has_bits(f, INODE_META_MOD), decorate(head(EventKind::Modify(ModifyKind::Metadata(MetadataKind::Any))), c, o), k);
        lemma_kind_emitted(has_bits(f, FINDER_INFO_MOD), decorate(with_info(head(EventKind::Modify(ModifyKind::Metadata(MetadataKind::Other))), Info::FinderInfo), c, o), k);
        lemma_kind_emitted(has_bits(f, ITEM_CHANGE_OWNER), decorate(head(EventKind::Modify(ModifyKind::Metadata(MetadataKind::Ownership))), c, o), k);
        lemma_kind_emitted(has_bits(f, ITEM_XATTR_MOD), decorate(head(EventKind::Modify(ModifyKind::Metadata(MetadataKind::Extended))), c, o), k);
        lemma_kind_emitted(has_bits(f, ITEM_MODIFIED), decorate(head(EventKind::Modify(ModifyKind::Data(DataChange::Content))), c, o), k);
        lemma_kind_emitted(true, decorate(removed_head(f), c, o), k);
        assert(!has_kind(rch, k));
        lemma_kind_add(rch, m1, k);
        lemma_kind_add(rch + m1, m2, k);
        lemma_kind_add(i1, i2, k);
        lemma_kind_add(i1 + i2, i3, k);
        lemma_kind_add((i1 + i2) + i3, i4, k);
        lemma_kind_add(c1, c2, k);
        lemma_kind_add(c1 + c2, c3, k);
        lemma_kind_add((c1 + c2) + c3, c4, k);
        lemma_kind_add((rch + m1) + m2, (((i1 + i2) + i3) + i4), k);
        lemma_kind_add(((rch + m1) + m2) + (((i1 + i2) + i3) + i4), (((c1 + c2) + c3) + c4), k);
        lemma_kind_add(scan, ((rch + m1) + m2) + (((i1 + i2) + i3) + i4) + (((c1 + c2) + c3) + c4), k);
    }
    assert(has_kind(hs, folder) == (decorate(removed_head(f), c, o).kind == folder));
    assert(has_kind(hs, file) == (decorate(removed_head(f), c, o).kind == file));
}

/// A precise notification of a created item, not of its root, reports the creation with the
/// kind of the item: a folder for a directory, a file for a file that is no directory. It
/// reports no creation of the other of these two kinds.
pub proof fn lemma_creation_has_the_item_kind(flags: StreamFlags, root_path: Option<bool>, process_id: u32)
    requires
        has_bits(flags.spec_bits(), ITEM_CREATED),
        !has_bits(flags.spec_bits(), ROOT_CHANGED),
        !has_bits(flags.spec_bits(), HISTORY_DONE),
    ensures
        ({
            let hs = translated_heads(flags.spec_bits(), true, root_path, process_id);
            let folder = EventKind::Create(CreateKind::Folder);
            let file = EventKind::Create(CreateKind::File);
            &&& has_bits(flags.spec_bits(), IS_DIR) ==> has_kind(hs, folder) && !has_kind(hs, file)
            &&& !has_bits(flags.spec_bits(), IS_DIR) && has_bits(flags.spec_bits(), IS_FILE)
                ==> has_kind(hs, file) && !has_kind(hs, folder)
        }),
{
    let f = flags.spec_bits();
    let c = has_bits(f, ITEM_CLONED);
    let o = if has_bits(f, OWN_EVENT) { Some(process_id) } else { None };
    let folder = EventKind::Create(CreateKind::Folder);
    let file = EventKind::Create(CreateKind::File);
    let scan = emitted_if(has_bits(f, MUST_SCAN_SUBDIRS), decorate(rescan_head(f), c, o));
    let rch = root_changed_heads(f, root_path).map_values(|h: EventHead| decorate(h, c, o));
    assert(rch =~= Seq::<EventHead>::empty());
    let m1 = emitted_if(has_bits(f, MOUNT), decorate(with_info(head(EventKind::Create(CreateKind::Other)), Info::Mount), c, o));
    let m2 = emitted_if(has_bits(f, UNMOUNT), decorate(with_info(head(EventKind::Remove(RemoveKind::Other)), Info::Mount), c, o));
    let i1 = emitted_if(true, decorate(created_head(f), c, o));
    let i2 = emitted_if(has_bits(f, ITEM_RENAMED), decorate(head(EventKind::Modify(ModifyKind::Name(RenameMode::Any))), c, o));
    let i3 = emitted_if(has_bits(f, INODE_META_MOD), decorate(head(EventKind::Modify(ModifyKind::Metadata(MetadataKind::Any))), c, o));
    let i4 = emitted_if(has_bits(f, FINDER_INFO_MOD), decorate(with_info(head(EventKind::Modify(ModifyKind::Metadata(MetadataKind::Other))), Info::FinderInfo), c, o));
    let c1 = emitted_if(has_bits(f, ITEM_CHANGE_OWNER), decorate(head(EventKind::Modify(ModifyKind::Metadata(MetadataKind::Ownership))), c, o));
    let c2 = emitted_if(has_bits(f, ITEM_XATTR_MOD), decorate(head(EventKind::Modify(ModifyKind::Metadata(MetadataKind::Extended))), c, o));
    let c3 = emitted_if(has_bits(f, ITEM_MODIFIED), decorate(head(EventKind::Modify(ModifyKind::Data(DataChange::Content))), c, o));
    let c4 = emitted_if(has_bits(f, ITEM_REMOVED), decorate(removed_head(f), c, o));
    let hs = translated_heads(f, true, root_path, process_id);
    assert(hs == scan + (((rch + m1) + m2) + (((i1 + i2) + i3) + i4) + (((c1 + c2) + c3) + c4)));
    assert forall|k: EventKind| k == folder || k == file implies has_kind(hs, k) == (decorate(created_head(f), c, o).kind == k) by {
        lemma_kind_emitted(has_bits(f, MUST_SCAN_SUBDIRS), decorate(rescan_head(f), c, o), k);
        lemma_kind_emitted(has_bits(f, MOUNT), decorate(with_info(head(EventKind::Create(CreateKind::Other)), Info::Mount), c, o), k);
        lemma_kind_emitted(has_bits(f, UNMOUNT), decorate(with_info(head(EventKind::Remove(RemoveKind::Other)), Info::Mount), c, o), k);
        lemma_kind_emitted(true, decorate(created_head(f), c, o), k);
        lemma_kind_emitted(has_bits(f, ITEM_RENAMED), decorate(head(EventKind::Modify(ModifyKind::Name(RenameMode::Any))), c, o), k);
        lemma_kind_emitted(has_bits(f, INODE_META_MOD), decorate(head(EventKind::Modify(ModifyKind::Metadata(MetadataKind::Any))), c, o), k);
        lemma_kind_emitted(has_bits(f, FINDER_INFO_MOD), decorate(with_info(head(EventKind::Modify(ModifyKind::Metadata(MetadataKind::Other))), Info::FinderInfo), c, o), k);
        lemma_kind_emitted(has_bits(f, ITEM_CHANGE_OWNER), decorate(head(EventKind::Modify(ModifyKind::Metadata(MetadataKind::Ownership))), c, o), k);
        lemma_kind_emitted(has_bits(f, ITEM_XATTR_MOD), decorate(head(EventKind::Modify(ModifyKind::Metadata(MetadataKind::Extended))), c, o), k);
        lemma_kind_emitted(has_bits(f, ITEM_MODIFIED), decorate(head(EventKind::Modify(ModifyKind::Data(DataChange::Content))), c, o), k);
        lemma_kind_emitted(has_bits(f, ITEM_REMOVED), decorate(removed_head(f), c, o), k);
        assert(!has_kind(rch, k));
        lemma_kind_add(rch, m1, k);
        lemma_kind_add(rch + m1, m2, k);
        lemma_kind_add(i1, i2, k);
        lemma_kind_add(i1 + i2, i3, k);
        lemma_kind_add((i1 + i2) + i3, i4, k);
        lemma_kind_add(c1, c2, k);
        lemma_kind_add(c1 + c2, c3, k);
        lemma_kind_add((c1 + c2) + c3, c4, k);
        lemma_kind_add((rch + m1) + m2, (((i1 + i2) + i3) + i4), k);
        lemma_kind_add(((rch + m1) + m2) + (((i1 + i2) + i3) + i4), (((c1 + c2) + c3) + c4), k);
        lemma_kind_add(scan, ((rch + m1) + m2) + (((i1 + i2) + i3) + i4) + (((c1 + c2) + c3) + c4), k);
    }
    assert(has_kind(hs, folder) == (decorate(created_head(f), c, o).kind == folder));
    assert(has_kind(hs, file) == (decorate(created_head(f), c, o).kind == file));
}

} // verus!
