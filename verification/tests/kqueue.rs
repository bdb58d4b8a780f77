use notify::fs_event::{CreateKind, DataChange, EventKind, MetadataKind, ModifyKind, RemoveKind, RenameMode};
use notify::error::{Error, ErrorKind};
use notify::kqueue::{chain_actions, handle_vnode, queued_watch_event, ChainAction, ChildEntry, KqueueBook, Vnode};
use notify::paths::EntryKind;
use notify::watch_table::{insert_root, RootState, RootWatch};
use notify::{RecursiveMode, TargetMode, WatchMode};

fn book_with(root: &str, mode: WatchMode, state: RootState) -> KqueueBook {
    let mut book = KqueueBook::new();
    insert_root(&mut book.watches, root.to_string(), RootWatch { mode, state });
    book
}

fn kinds(evs: &[notify::fs_event::Event]) -> Vec<(EventKind, Vec<String>)> {
    evs.iter().map(|e| (e.kind, e.paths.clone())).collect()
}

#[test]
fn delete_of_a_watched_file_reports_removal() {
    let no_track = WatchMode { recursive_mode: RecursiveMode::NonRecursive, target_mode: TargetMode::NoTrack };
    let mut book = book_with("/w", no_track, RootState::Directory);
    let evs = handle_vnode(&mut book, &vec![], Vnode::Delete, &"/w/f".to_string(), false, None, Ok(vec![])).unwrap();
    assert_eq!(kinds(&evs), vec![(EventKind::Remove(RemoveKind::Any), vec!["/w/f".to_string()])]);
    assert_eq!(book.pending.remove_watches, vec!["/w/f".to_string()]);
    assert!(book.pending.add_watches.is_empty());
}

#[test]
fn delete_overwritten_by_a_rename_reports_the_new_file() {
    let mut book = book_with("/w", WatchMode::recursive(), RootState::Directory);
    let evs = handle_vnode(&mut book, &vec![], Vnode::Delete, &"/w/f".to_string(), false, Some(EntryKind::File), Ok(vec![])).unwrap();
    assert_eq!(
        kinds(&evs),
        vec![
            (EventKind::Remove(RemoveKind::Any), vec!["/w/f".to_string()]),
            (EventKind::Create(CreateKind::File), vec!["/w/f".to_string()]),
        ]
    );
    assert_eq!(book.pending.add_watches, vec![("/w/f".to_string(), true, false)]);
}

#[test]
fn delete_of_a_root_marks_it_missing() {
    let mut book = book_with("/w", WatchMode::non_recursive(), RootState::Directory);
    handle_vnode(&mut book, &vec![], Vnode::Delete, &"/w".to_string(), true, None, Ok(vec![])).unwrap();
    assert_eq!(book.watches[0].1.state, RootState::Missing);
}

#[test]
fn write_to_a_directory_reports_the_new_entry() {
    let mut book = book_with("/w", WatchMode::non_recursive(), RootState::Directory);
    let handles = vec![("/w".to_string(), true), ("/w/old".to_string(), false)];
    let listing = vec![
        ChildEntry { path: "/w/old".to_string(), kind: Some(EntryKind::File) },
        ChildEntry { path: "/w/new".to_string(), kind: Some(EntryKind::Dir) },
    ];
    let evs = handle_vnode(&mut book, &handles, Vnode::Write, &"/w".to_string(), true, None, Ok(listing)).unwrap();
    assert_eq!(kinds(&evs), vec![(EventKind::Create(CreateKind::Folder), vec!["/w/new".to_string()])]);
    assert_eq!(book.pending.add_watches, vec![("/w/new".to_string(), false, true)]);

    // With every entry watched, the write is a change of the directory's data.
    let all_known = vec![ChildEntry { path: "/w/old".to_string(), kind: Some(EntryKind::File) }];
    let evs = handle_vnode(&mut book, &handles, Vnode::Write, &"/w".to_string(), true, None, Ok(all_known)).unwrap();
    assert_eq!(kinds(&evs), vec![(EventKind::Modify(ModifyKind::Data(DataChange::Any)), vec!["/w".to_string()])]);
}

#[test]
fn unreadable_directory_gives_an_io_error() {
    let mut book = book_with("/w", WatchMode::non_recursive(), RootState::Directory);
    let err = handle_vnode(&mut book, &vec![], Vnode::Write, &"/w".to_string(), true, None, Err("denied".to_string())).unwrap_err();
    assert!(matches!(err.kind, notify::error::ErrorKind::Io(ref m) if m == "denied"));
}

#[test]
fn file_changes_by_vnode() {
    let mut book = book_with("/w", WatchMode::recursive(), RootState::Directory);
    let p = "/w/f".to_string();
    let cases = [
        (Vnode::Write, EventKind::Modify(ModifyKind::Data(DataChange::Any))),
        (Vnode::Extend, EventKind::Modify(ModifyKind::Data(DataChange::Size))),
        (Vnode::Truncate, EventKind::Modify(ModifyKind::Data(DataChange::Size))),
        (Vnode::Attrib, EventKind::Modify(ModifyKind::Metadata(MetadataKind::Any))),
        (Vnode::Link, EventKind::Modify(ModifyKind::Any)),
        (Vnode::Rename, EventKind::Modify(ModifyKind::Name(RenameMode::Any))),
        (Vnode::Revoke, EventKind::Remove(RemoveKind::Any)),
    ];
    for (vnode, kind) in cases {
        let evs = handle_vnode(&mut book, &vec![], vnode, &p, false, None, Ok(vec![])).unwrap();
        assert_eq!(kinds(&evs), vec![(kind, vec![p.clone()])], "{vnode:?}");
    }
    let other = handle_vnode(&mut book, &vec![], Vnode::Other, &p, false, None, Ok(vec![])).unwrap();
    assert_eq!(kinds(&other), vec![(EventKind::Other, vec![])]);
}

#[test]
fn unwatched_paths_report_nothing() {
    let mut book = book_with("/w", WatchMode::non_recursive(), RootState::Directory);
    let evs = handle_vnode(&mut book, &vec![], Vnode::Attrib, &"/elsewhere/f".to_string(), false, None, Ok(vec![])).unwrap();
    assert!(evs.is_empty());
    // Below the direct children of a non-recursive root nothing is reported either.
    let deep = handle_vnode(&mut book, &vec![], Vnode::Write, &"/w/a/b".to_string(), false, None, Ok(vec![])).unwrap();
    assert!(deep.is_empty());
}

#[test]
fn chain_children_are_rearmed_only_when_directories() {
    let children = vec![
        ChildEntry { path: "/a/d".to_string(), kind: Some(EntryKind::Dir) },
        ChildEntry { path: "/a/f".to_string(), kind: Some(EntryKind::File) },
        ChildEntry { path: "/a/gone".to_string(), kind: None },
    ];
    let actions = chain_actions(&children);
    assert_eq!(actions.len(), 3);
    assert!(matches!(&actions[0], ChainAction::Rearm(p) if p == "/a/d"));
    assert!(matches!(&actions[1], ChainAction::Vanish(p) if p == "/a/f"));
    assert!(matches!(&actions[2], ChainAction::Vanish(p) if p == "/a/gone"));
}

#[test]
fn a_queued_watch_of_a_path_gone_meanwhile_reports_its_removal() {
    let gone: Result<(), Error> = Err(Error::path_not_found().add_path("/w/x".to_string()));
    let ev = queued_watch_event(&"/w/x".to_string(), &gone).unwrap();
    assert_eq!(ev.kind, EventKind::Remove(RemoveKind::Any));
    assert_eq!(ev.paths, vec!["/w/x".to_string()]);
    // Another path's error, another error, and success give nothing.
    assert!(queued_watch_event(&"/w/y".to_string(), &gone).is_none());
    let other: Result<(), Error> = Err(Error::new(ErrorKind::Io("denied".to_string())).add_path("/w/x".to_string()));
    assert!(queued_watch_event(&"/w/x".to_string(), &other).is_none());
    assert!(queued_watch_event(&"/w/x".to_string(), &Ok(())).is_none());
}
