use notify::error::ErrorKind;
use notify::fs_event::{CreateKind, DataChange, EventKind, Flag, MetadataKind, ModifyKind, RemoveKind};
use notify::fsevent::{translate_flags, translated_event_count};
use notify::fsevent_budget::FseventsPathReservation;
use notify::fsevent_flags::{
    StreamFlags, HISTORY_DONE, INODE_META_MOD, IS_DIR, IS_FILE, ITEM_CLONED, ITEM_CREATED, ITEM_MODIFIED,
    ITEM_REMOVED, ITEM_RENAMED, MUST_SCAN_SUBDIRS, OWN_EVENT, ROOT_CHANGED, USER_DROPPED,
};
use notify::fsevent_stream::{admit_stream, StreamRefused, is_handled_path, path_budget, stream_events, stream_paths_update, FsEventWatches};
use notify::WatchMode;
use std::sync::atomic::{AtomicUsize, Ordering};

/// A process id for the translations; none of these flags marks an event as caused by it.
const PID: u32 = 4321;

fn flags(bits: u32) -> StreamFlags {
    StreamFlags::from_bits_truncate(bits)
}

#[test]
fn translate_flags_ignores_is_file_only_events() {
    assert!(translate_flags(&flags(IS_FILE), true, None, PID).is_empty());
    assert!(
        translate_flags(&flags(IS_FILE | ITEM_CLONED), true, None, PID).is_empty(),
        "type-only clone flags should not produce events"
    );
}

#[test]
fn translate_flags_sets_clone_info_for_file_events() {
    let create = translate_flags(&flags(ITEM_CREATED | IS_FILE | ITEM_CLONED), true, None, PID);
    assert_eq!(create.len(), 1);
    assert_eq!(create[0].kind, EventKind::Create(CreateKind::File));
    assert_eq!(create[0].info(), Some("is: clone"));

    let modify = translate_flags(
        &flags(INODE_META_MOD | ITEM_MODIFIED | IS_FILE | ITEM_CLONED),
        true,
        None,
        PID,
    );
    assert_eq!(modify.len(), 2);
    assert!(modify.iter().any(|e| matches!(e.kind, EventKind::Modify(ModifyKind::Metadata(_)))));
    assert!(modify.iter().any(|e| matches!(e.kind, EventKind::Modify(ModifyKind::Data(_)))));
    assert!(
        modify.iter().all(|e| e.info() == Some("is: clone")),
        "all events should be annotated as clone-related: {modify:?}"
    );
}

#[test]
fn translate_flags_does_not_override_existing_info() {
    let evs = translate_flags(&flags(ROOT_CHANGED | ITEM_REMOVED | IS_FILE | ITEM_CLONED), true, None, PID);
    assert_eq!(evs.len(), 1);
    assert_eq!(evs[0].info(), Some("root changed"));
}

#[test]
fn path_budget_is_shared_across_live_streams() {
    static ACTIVE_PATHS: AtomicUsize = AtomicUsize::new(0);

    let first = FseventsPathReservation::acquire(&ACTIVE_PATHS, 15, 21).expect("first stream must fit within the budget");
    let active_path_count = FseventsPathReservation::acquire(&ACTIVE_PATHS, 15, 21)
        .expect_err("the combined path count must exceed the budget");
    assert_eq!(active_path_count, 15);

    first.release();

    let second = FseventsPathReservation::acquire(&ACTIVE_PATHS, 15, 21)
        .expect("stopping the first stream must release its paths");
    second.release();
    assert_eq!(ACTIVE_PATHS.load(Ordering::Relaxed), 0);
}

#[test]
fn history_done_gives_no_event() {
    assert!(translate_flags(&flags(HISTORY_DONE | ITEM_CREATED), true, None, 1).is_empty());
    assert_eq!(translated_event_count(&flags(HISTORY_DONE | ITEM_CREATED), true), 0);
}

#[test]
fn imprecise_translation_gives_any_after_the_rescan() {
    let evs = translate_flags(&flags(MUST_SCAN_SUBDIRS | USER_DROPPED | ITEM_CREATED), false, None, 1);
    assert_eq!(evs.len(), 2);
    assert_eq!(evs[0].kind, EventKind::Other);
    assert_eq!(evs[0].flag, Some(Flag::Rescan));
    assert_eq!(evs[0].info(), Some("rescan: user dropped"));
    assert_eq!(evs[1].kind, EventKind::Any);
    assert_eq!(translated_event_count(&flags(MUST_SCAN_SUBDIRS | ITEM_CREATED), false), 2);
}

#[test]
fn event_count_bounds_the_precise_translation() {
    for bits in [ITEM_CREATED | ITEM_REMOVED | IS_DIR, ROOT_CHANGED | ITEM_RENAMED, ITEM_MODIFIED | INODE_META_MOD, IS_FILE] {
        let f = flags(bits);
        let n = translate_flags(&f, true, None, 1).len();
        let count = translated_event_count(&f, true);
        assert!(n <= count);
        assert_eq!(n == 0, count == 0);
    }
}

#[test]
fn root_changed_reports_a_root_that_is_back() {
    let evs = translate_flags(&flags(ROOT_CHANGED), true, Some(true), 1);
    assert_eq!(evs.len(), 1);
    assert_eq!(evs[0].kind, EventKind::Create(CreateKind::Folder));
    assert_eq!(evs[0].info(), Some("root changed"));
    let gone = translate_flags(&flags(ROOT_CHANGED | ITEM_RENAMED), true, None, 1);
    assert_eq!(gone.len(), 1);
    assert_eq!(gone[0].kind, EventKind::Modify(ModifyKind::Name(notify::fs_event::RenameMode::From)));
}

#[test]
fn own_events_carry_the_process_id() {
    let evs = translate_flags(&flags(ITEM_MODIFIED | OWN_EVENT), true, None, 4242);
    assert_eq!(evs.len(), 1);
    assert_eq!(evs[0].kind, EventKind::Modify(ModifyKind::Data(DataChange::Content)));
    assert_eq!(evs[0].process_id, Some(4242));
    let removed = translate_flags(&flags(ITEM_REMOVED | IS_DIR), true, None, 1);
    assert_eq!(removed[0].kind, EventKind::Remove(RemoveKind::Folder));
    assert_eq!(removed[0].process_id, None);
    let meta = translate_flags(&flags(INODE_META_MOD), true, None, 1);
    assert_eq!(meta[0].kind, EventKind::Modify(ModifyKind::Metadata(MetadataKind::Any)));
}

#[test]
fn stream_events_only_for_watched_paths() {
    let info = vec![("/w/rec".to_string(), true), ("/w/flat".to_string(), false)];
    assert!(is_handled_path(&info, &"/w/rec/a/b".to_string()));
    assert!(is_handled_path(&info, &"/w/flat".to_string()));
    assert!(is_handled_path(&info, &"/w/flat/child".to_string()));
    assert!(!is_handled_path(&info, &"/w/flat/child/grandchild".to_string()));
    assert!(!is_handled_path(&info, &"/other".to_string()));

    let evs = stream_events(&info, &"/w/rec/a".to_string(), ITEM_CREATED | IS_FILE, None, 1);
    assert_eq!(evs.len(), 1);
    assert_eq!(evs[0].kind, EventKind::Create(CreateKind::File));
    assert_eq!(evs[0].paths, vec!["/w/rec/a".to_string()]);
    assert!(stream_events(&info, &"/other/a".to_string(), ITEM_CREATED, None, 1).is_empty());
    // Unknown bits are dropped.
    let unknown = stream_events(&info, &"/w/rec/a".to_string(), 0x8000_0000 | ITEM_MODIFIED, None, 1);
    assert_eq!(unknown.len(), 1);
}

#[test]
fn does_not_crash_with_empty_path() {
    let mut watches = FsEventWatches::new();
    let watch_result = watches.append_path(&String::new(), WatchMode::recursive(), false, None);
    assert!(matches!(watch_result, Err(ref e) if matches!(e.kind, ErrorKind::PathNotFound)), "actual: {watch_result:#?}");
    let unwatch_result = watches.remove_path(&String::new(), None);
    assert!(matches!(unwatch_result, Err(ref e) if matches!(e.kind, ErrorKind::WatchNotFound)), "actual: {unwatch_result:#?}");
}

#[test]
fn fsevent_watches_use_the_canonical_path() {
    let mut watches = FsEventWatches::new();
    assert!(watches.is_empty());
    watches
        .append_path(&"/tmp/link".to_string(), WatchMode::recursive(), true, Some("/private/tmp/link".to_string()))
        .unwrap();
    assert_eq!(watches.watches, vec![("/private/tmp/link".to_string(), true)]);
    // A missing path that is not tracked is refused.
    let no_track = WatchMode { recursive_mode: notify::RecursiveMode::NonRecursive, target_mode: notify::TargetMode::NoTrack };
    let err = watches.append_path(&"/missing".to_string(), no_track, false, None).unwrap_err();
    assert!(matches!(err.kind, ErrorKind::PathNotFound));
    assert_eq!(err.paths, vec!["/missing".to_string()]);
    // A missing tracked path is kept.
    watches.append_path(&"/missing".to_string(), WatchMode::non_recursive(), false, None).unwrap();
    assert_eq!(watches.watches.len(), 2);
    watches.remove_path(&"/tmp/link".to_string(), Some("/private/tmp/link".to_string())).unwrap();
    assert_eq!(watches.watches, vec![("/missing".to_string(), false)]);
}

#[test]
fn path_budget_is_a_twelfth_of_the_soft_limit() {
    assert_eq!(path_budget(Some(256)), Some(21));
    assert_eq!(path_budget(Some(11)), Some(0));
    assert_eq!(path_budget(None), None);
}

#[test]
fn admit_stream_refuses_over_the_budget() {
    static ACTIVE: AtomicUsize = AtomicUsize::new(0);
    let first = admit_stream(&ACTIVE, 10, Some(21)).unwrap();
    assert_eq!(first.path_count(), 10);
    let refused = admit_stream(&ACTIVE, 12, Some(21)).unwrap_err();
    assert_eq!(refused, StreamRefused { active_paths: 10 });
    assert!(matches!(refused.error().kind, ErrorKind::MaxFilesWatch));
    let unbounded = admit_stream(&ACTIVE, 100, None).unwrap();
    assert_eq!(ACTIVE.load(Ordering::Relaxed), 110);
    unbounded.release();
    first.release();
    assert_eq!(ACTIVE.load(Ordering::Relaxed), 0);
}

#[test]
fn stream_paths_update_compares_in_lower_case() {
    let current = vec!["/a".to_string(), "/B".to_string(), "/c".to_string()];
    let to_watch = vec!["/a".to_string(), "/B".to_string(), "/d".to_string()];
    let update = stream_paths_update(&current, &to_watch);
    // "/B" is carried as is, but is compared with the lower-case "/b": it is replaced.
    assert_eq!(update.remove_indices, vec![1, 2]);
    assert_eq!(update.append, vec!["/B".to_string(), "/d".to_string()]);
}

#[test]
fn no_watch_reserves_nothing_and_a_stream_over_the_budget_is_refused() {
    static ACTIVE: AtomicUsize = AtomicUsize::new(0);
    let mut watches = FsEventWatches::new();
    assert!(matches!(watches.reserve_stream(&ACTIVE, 5, Some(3)), Ok(None)));
    assert_eq!(ACTIVE.load(Ordering::Relaxed), 0);

    watches.append_path(&"/tmp".to_string(), WatchMode::recursive(), true, None).unwrap();
    let refused = watches.reserve_stream(&ACTIVE, 5, Some(3)).unwrap_err();
    assert_eq!(refused, StreamRefused { active_paths: 0 });
    assert!(matches!(refused.error().kind, ErrorKind::MaxFilesWatch));
    assert_eq!(ACTIVE.load(Ordering::Relaxed), 0);

    let held = watches.reserve_stream(&ACTIVE, 2, Some(3)).unwrap().unwrap();
    assert_eq!(held.path_count(), 2);
    assert_eq!(ACTIVE.load(Ordering::Relaxed), 2);
    drop(held);
    assert_eq!(ACTIVE.load(Ordering::Relaxed), 0);
}
