use notify::fs_event::{AccessKind, AccessMode, CreateKind, DataChange, EventKind, Flag, ModifyKind, RemoveKind, RenameMode};
use notify::error::{Error, ErrorKind};
use notify::inotify::{
    add_watch_error, batch_step, BatchStep, PendingAction, decide_watch_mask, entries_only, handle_notification, single_watch_mask, InotifyBook, MaskDecision, ENTRY_MASK,
    FULL_MASK, IN_CLOSE_WRITE, IN_CREATE, IN_DELETE, IN_DELETE_SELF, IN_ISDIR, IN_MODIFY, IN_MOVED_FROM, IN_MOVED_TO,
    IN_Q_OVERFLOW, IN_UNMOUNT, SELF_MASK,
};
use notify::watch_table::{insert_root, RootState, RootWatch};
use notify::{RecursiveMode, TargetMode, WatchMode};

fn book_with(root: &str, mode: WatchMode, state: RootState) -> InotifyBook {
    let mut book = InotifyBook::new();
    insert_root(&mut book.watches, root.to_string(), RootWatch { mode, state });
    book
}

fn kinds(evs: &[notify::fs_event::Event]) -> Vec<(EventKind, Vec<String>)> {
    evs.iter().map(|e| (e.kind, e.paths.clone())).collect()
}

#[test]
fn create_in_a_watched_directory() {
    let mut book = book_with("/w", WatchMode::recursive(), RootState::Directory);
    let evs = handle_notification(&mut book, &vec![("/w".to_string(), true)], IN_CREATE | IN_ISDIR, Some("/w/d".to_string()), 0, false);
    assert_eq!(kinds(&evs), vec![(EventKind::Create(CreateKind::Folder), vec!["/w/d".to_string()])]);
    assert_eq!(book.pending.add_watches, vec![("/w/d".to_string(), true, false)]);
}

#[test]
fn rename_pairs_both_sides() {
    let mut book = book_with("/w", WatchMode::non_recursive(), RootState::Directory);
    let handles = vec![("/w".to_string(), true)];
    let from = handle_notification(&mut book, &handles, IN_MOVED_FROM, Some("/w/a".to_string()), 7, false);
    assert_eq!(kinds(&from), vec![(EventKind::Modify(ModifyKind::Name(RenameMode::From)), vec!["/w/a".to_string()])]);
    assert_eq!(from[0].tracker, Some(7));
    let to = handle_notification(&mut book, &handles, IN_MOVED_TO, Some("/w/b".to_string()), 7, true);
    assert_eq!(
        kinds(&to),
        vec![
            (EventKind::Modify(ModifyKind::Name(RenameMode::To)), vec!["/w/b".to_string()]),
            (EventKind::Modify(ModifyKind::Name(RenameMode::Both)), vec!["/w/a".to_string(), "/w/b".to_string()]),
        ]
    );
    assert!(book.rename_from.is_none());
}

#[test]
fn queue_overflow_asks_for_a_rescan() {
    let mut book = InotifyBook::new();
    let evs = handle_notification(&mut book, &vec![], IN_Q_OVERFLOW, None, 0, false);
    assert_eq!(evs.len(), 1);
    assert_eq!(evs[0].kind, EventKind::Other);
    assert_eq!(evs[0].flag, Some(Flag::Rescan));
}

#[test]
fn delete_and_content_changes() {
    let mut book = book_with("/w", WatchMode::recursive(), RootState::Directory);
    let handles = vec![("/w".to_string(), true), ("/w/f".to_string(), false)];
    let evs = handle_notification(&mut book, &handles, IN_MODIFY | IN_CLOSE_WRITE, Some("/w/f".to_string()), 0, false);
    assert_eq!(
        kinds(&evs),
        vec![
            (EventKind::Modify(ModifyKind::Data(DataChange::Any)), vec!["/w/f".to_string()]),
            (EventKind::Access(AccessKind::Close(AccessMode::Write)), vec!["/w/f".to_string()]),
        ]
    );
    let del = handle_notification(&mut book, &handles, IN_DELETE, Some("/w/f".to_string()), 0, false);
    assert_eq!(kinds(&del), vec![(EventKind::Remove(RemoveKind::File), vec!["/w/f".to_string()])]);
    assert_eq!(book.pending.remove_watches, vec!["/w/f".to_string()]);
}

#[test]
fn delete_self_of_a_root() {
    let mut book = book_with("/w", WatchMode::non_recursive(), RootState::Directory);
    let handles = vec![("/w".to_string(), true)];
    let evs = handle_notification(&mut book, &handles, IN_DELETE_SELF, Some("/w".to_string()), 0, false);
    assert_eq!(kinds(&evs), vec![(EventKind::Remove(RemoveKind::Folder), vec!["/w".to_string()])]);
    assert_eq!(book.watches[0].1.state, RootState::Missing);
    let unmount = handle_notification(&mut book, &handles, IN_UNMOUNT, Some("/w".to_string()), 0, false);
    assert_eq!(kinds(&unmount), vec![(EventKind::Remove(RemoveKind::Other), vec!["/w".to_string()])]);
    assert_eq!(book.pending.remove_watches_no_syscall, vec!["/w".to_string()]);
}

#[test]
fn unknown_watch_descriptor_changes_nothing() {
    let no_track = WatchMode { recursive_mode: RecursiveMode::NonRecursive, target_mode: TargetMode::NoTrack };
    let mut book = book_with("/w", no_track, RootState::Directory);
    let evs = handle_notification(&mut book, &vec![], IN_CREATE, None, 0, false);
    assert!(evs.is_empty());
    assert!(book.pending.add_watches.is_empty());
}

#[test]
fn watch_masks() {
    assert_eq!(single_watch_mask(false), FULL_MASK);
    assert_eq!(single_watch_mask(true), FULL_MASK | SELF_MASK);
    assert!(entries_only(ENTRY_MASK));
    assert!(!entries_only(FULL_MASK));
    assert_eq!(decide_watch_mask(Some(FULL_MASK | SELF_MASK), FULL_MASK, false, None), MaskDecision::Covered);
    assert_eq!(decide_watch_mask(None, FULL_MASK, true, Some(FULL_MASK)), MaskDecision::CoveredByParent);
    assert_eq!(decide_watch_mask(Some(ENTRY_MASK), FULL_MASK | SELF_MASK, false, None), MaskDecision::Install(FULL_MASK | SELF_MASK));
    assert_eq!(decide_watch_mask(None, ENTRY_MASK, true, Some(ENTRY_MASK)), MaskDecision::Install(ENTRY_MASK));
}

#[test]
fn notifications_on_unwatched_paths_report_nothing() {
    let mut book = book_with("/w", WatchMode::non_recursive(), RootState::Directory);
    let handles = vec![("/w".to_string(), true)];
    let evs = handle_notification(&mut book, &handles, IN_CREATE | IN_MODIFY, Some("/elsewhere/x".to_string()), 0, false);
    assert!(evs.is_empty());
    let deep = handle_notification(&mut book, &handles, IN_MODIFY, Some("/w/a/b".to_string()), 0, false);
    assert!(deep.is_empty());
}

#[test]
fn refused_watches_map_to_the_library_errors() {
    let full = add_watch_error(true, false, "no space".to_string(), "/w".to_string());
    assert!(matches!(full.kind, ErrorKind::MaxFilesWatch));
    assert_eq!(full.paths, vec!["/w".to_string()]);
    let missing = add_watch_error(false, true, "gone".to_string(), "/w".to_string());
    assert!(matches!(missing.kind, ErrorKind::PathNotFound));
    let other = add_watch_error(false, false, "denied".to_string(), "/w".to_string());
    assert!(matches!(other.kind, ErrorKind::Io(ref m) if m == "denied"));
    assert_eq!(other.paths, vec!["/w".to_string()]);
}

#[test]
fn a_batch_of_watches_stops_at_the_limit() {
    let limit: Result<(), Error> = Err(Error::new(ErrorKind::MaxFilesWatch));
    let missing: Result<(), Error> = Err(Error::path_not_found());
    assert_eq!(batch_step(&Ok(()), false), BatchStep::Continue);
    assert_eq!(batch_step(&limit, false), BatchStep::ReportAndStop);
    assert_eq!(batch_step(&limit, true), BatchStep::ReportAndStop);
    assert_eq!(batch_step(&missing, false), BatchStep::Continue);
    assert_eq!(batch_step(&missing, true), BatchStep::Report);
}

#[test]
fn only_the_overflow_rescan_carries_no_path() {
    let no_track = WatchMode { recursive_mode: RecursiveMode::Recursive, target_mode: TargetMode::NoTrack };
    let mut book = book_with("/w", no_track, RootState::Directory);
    let handles = vec![("/w".to_string(), true)];
    let evs = handle_notification(&mut book, &handles, IN_Q_OVERFLOW | IN_CREATE | IN_MODIFY, Some("/w/f".to_string()), 0, false);
    assert!(evs.len() >= 3);
    assert_eq!(evs[0].kind, EventKind::Other);
    assert!(evs[0].paths.is_empty());
    assert!(evs[1..].iter().all(|e| !e.paths.is_empty()));
    // An unknown watch descriptor gives the rescan alone.
    let lone = handle_notification(&mut book, &handles, IN_Q_OVERFLOW | IN_CREATE, None, 0, false);
    assert_eq!(lone.len(), 1);
    assert!(lone[0].paths.is_empty());
}

#[test]
fn unwatch_of_a_tracked_root_drops_its_ancestor_watches() {
    let track = WatchMode { recursive_mode: RecursiveMode::NonRecursive, target_mode: TargetMode::TrackPath };
    let mut book = book_with("/a/b/f", track, RootState::File);
    book.ancestors.track(&"/a/b/f".to_string());

    let missing = book.begin_unwatch(&"/a/x".to_string()).unwrap_err();
    assert!(matches!(missing.kind, ErrorKind::WatchNotFound));
    assert_eq!(missing.paths, vec!["/a/x".to_string()]);
    assert_eq!(book.watches.len(), 1);

    let root = book.begin_unwatch(&"/a/b/f".to_string()).unwrap();
    assert_eq!(root.state, RootState::File);
    assert!(book.watches.is_empty());
    let dropped = book.finish_unwatch(&"/a/b/f".to_string(), root);
    assert_eq!(dropped, vec!["/a/b".to_string(), "/a".to_string(), "/".to_string()]);
    assert!(!book.ancestors.contains(&"/a/b".to_string()));
}

#[test]
fn pending_changes_are_taken_in_order() {
    let mut book = InotifyBook::new();
    book.pending.appeared.push("/up".to_string());
    book.pending.add_watches.push(("/new".to_string(), true, false));
    book.pending.vanished.push("/gone".to_string());
    book.pending.remove_watches.push("/rm".to_string());
    book.pending.remove_watches_no_syscall.push("/unmounted".to_string());
    let actions = book.take_pending();
    assert_eq!(actions.len(), 5);
    assert!(matches!(&actions[0], PendingAction::RemoveWatch(p, true) if p == "/unmounted"));
    assert!(matches!(&actions[1], PendingAction::RemoveWatch(p, false) if p == "/rm"));
    assert!(matches!(&actions[2], PendingAction::Vanish(p) if p == "/gone"));
    assert!(matches!(&actions[3], PendingAction::AddWatch(p, true, false) if p == "/new"));
    assert!(matches!(&actions[4], PendingAction::Rearm(p) if p == "/up"));
    assert!(book.take_pending().is_empty());
}
