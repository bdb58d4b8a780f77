use notify::error::{Error, ErrorKind};
use notify::fs_event::{CreateKind, EventKind, ModifyKind, RemoveKind, RenameMode};
use notify::paths::EntryKind;
use notify::windows::{
    add_chain_targets, add_parent_targets, first_open_error, staged_outcome, completion_action, compute_recursive_flag, handle_records, handles_to_close, handles_to_open,
    is_event_covered, normalize_path_separators, parse_notify_records, resolve_user_watch, windows_namespace_prefix_len,
    Completion, ResolvedWatch, StagedChange, WindowsWatches, ERROR_ACCESS_DENIED, ERROR_OPERATION_ABORTED,
    ERROR_SUCCESS, FILE_ACTION_ADDED, FILE_ACTION_MODIFIED, FILE_ACTION_REMOVED, FILE_ACTION_RENAMED_NEW_NAME,
    FILE_ACTION_RENAMED_OLD_NAME, FILE_NOTIFY_INFORMATION, OVERLAPPED_0_0,
};
use notify::{RecursiveMode, TargetMode, WatchMode};

fn units(s: &str) -> Vec<u16> {
    s.encode_utf16().collect()
}

fn no_track(recursive_mode: RecursiveMode) -> WatchMode {
    WatchMode { recursive_mode, target_mode: TargetMode::NoTrack }
}

#[test]
fn normalize_path_separators_keeps_windows_namespace_prefix() {
    let normalized = normalize_path_separators(units(r"\\?\C:/very/long/file"));
    assert_eq!(normalized, units(r"\\?\C:\very\long\file"));
}

#[test]
fn normalize_joined_event_path_for_posix_watch_path() {
    let normalized = normalize_path_separators(units(r"G:/Feature\22.mp4"));
    assert_eq!(normalized, units(r"G:\Feature\22.mp4"));
}

#[test]
fn normalizing_twice_changes_nothing_more() {
    for p in [r"//./pipe/x", r"a/b\c", r"\\?\UNC/server/share", ""] {
        let once = normalize_path_separators(units(p));
        assert_eq!(normalize_path_separators(once.clone()), once);
    }
}

#[test]
fn namespace_prefix_is_four_units() {
    assert_eq!(windows_namespace_prefix_len(&units(r"\\?\C:")), 4);
    assert_eq!(windows_namespace_prefix_len(&units(r"//./x")), 4);
    assert_eq!(windows_namespace_prefix_len(&units(r"\\x\y")), 0);
    assert_eq!(windows_namespace_prefix_len(&units(r"\\?")), 0);
    // The prefix keeps its own separators; the rest are normalized.
    assert_eq!(normalize_path_separators(units(r"//./a/b")), units(r"//./a\b"));
}

fn record(next: u32, action: u32, name: &str) -> Vec<u8> {
    let name = units(name);
    let mut out = Vec::new();
    out.extend_from_slice(&next.to_le_bytes());
    out.extend_from_slice(&action.to_le_bytes());
    out.extend_from_slice(&((name.len() * 2) as u32).to_le_bytes());
    for u in name {
        out.extend_from_slice(&u.to_le_bytes());
    }
    out
}

#[test]
fn parse_notify_records_follows_the_offsets() {
    let mut first = record(0, FILE_ACTION_ADDED, "a.txt");
    while first.len() % 4 != 0 {
        first.push(0);
    }
    let next = first.len() as u32;
    let mut buf = record(next, FILE_ACTION_ADDED, "a.txt");
    buf.resize(first.len(), 0);
    buf.extend(record(0, FILE_ACTION_RENAMED_NEW_NAME, "dir\\b"));
    let records = parse_notify_records(&buf).expect("well-formed records");
    assert_eq!(records.len(), 2);
    assert_eq!(records[0].action, FILE_ACTION_ADDED);
    assert_eq!(records[0].name, units("a.txt"));
    assert_eq!(records[1].action, FILE_ACTION_RENAMED_NEW_NAME);
    assert_eq!(records[1].name, units("dir\\b"));

    // A record that runs past the end of the buffer is refused.
    let truncated = &buf[..buf.len() - 1];
    assert!(parse_notify_records(truncated).is_none());
    assert!(parse_notify_records(&[0u8; 5]).is_none());
    // An offset past the end is refused.
    let bad = record(4096, FILE_ACTION_MODIFIED, "x");
    assert!(parse_notify_records(&bad).is_none());
}

#[test]
fn binding_structs_hold_their_fields() {
    let o = OVERLAPPED_0_0 { Offset: 1, OffsetHigh: 2 };
    assert_eq!((o.Offset, o.OffsetHigh), (1, 2));
    let info = FILE_NOTIFY_INFORMATION { NextEntryOffset: 0, Action: FILE_ACTION_REMOVED, FileNameLength: 2, FileName: [0x61] };
    assert_eq!(info.Action, 2);
    assert_eq!(info.FileName, [0x61]);
}

#[test]
fn resolve_user_watch_by_what_the_path_is() {
    let dir = resolve_user_watch(&"C:\\w".to_string(), WatchMode::recursive(), Ok(EntryKind::Dir)).unwrap();
    assert_eq!(dir.primary, Some(("C:\\w".to_string(), true)));
    assert!(dir.needs_tracked_parent);

    let file = resolve_user_watch(&"/w/f.txt".to_string(), WatchMode::non_recursive(), Ok(EntryKind::File)).unwrap();
    assert_eq!(file.primary, Some(("/w".to_string(), false)));
    assert!(!file.needs_tracked_parent);

    let other = resolve_user_watch(&"/w/pipe".to_string(), WatchMode::recursive(), Ok(EntryKind::Other)).unwrap_err();
    assert!(matches!(other.kind, ErrorKind::Generic(ref m) if m == "Input watch path is neither a file nor a directory."));
    assert_eq!(other.paths, vec!["/w/pipe".to_string()]);

    let missing = resolve_user_watch(&"/w/gone".to_string(), WatchMode::recursive(), Err(Error::path_not_found())).unwrap();
    assert_eq!(missing.primary, None);
    assert!(missing.needs_tracked_parent);

    let untracked = resolve_user_watch(&"/w/gone".to_string(), no_track(RecursiveMode::Recursive), Err(Error::path_not_found()));
    assert!(matches!(untracked, Err(ref e) if matches!(e.kind, ErrorKind::PathNotFound)));
}

#[test]
fn recursive_flag_covers_directories_below() {
    let resolved = vec![
        ("/a".to_string(), ResolvedWatch { primary: Some(("/a".to_string(), false)), needs_tracked_parent: false }),
        ("/b/c".to_string(), ResolvedWatch { primary: Some(("/b/c".to_string(), false)), needs_tracked_parent: false }),
        ("/d".to_string(), ResolvedWatch { primary: Some(("/d".to_string(), true)), needs_tracked_parent: false }),
    ];
    // A directory read non-recursively at the target itself needs no subtree.
    assert!(!compute_recursive_flag(&"/a".to_string(), &resolved));
    assert!(!compute_recursive_flag(&"/a/x".to_string(), &resolved));
    assert!(compute_recursive_flag(&"/b".to_string(), &resolved));
    assert!(compute_recursive_flag(&"/d".to_string(), &resolved));
    assert!(!compute_recursive_flag(&"/e".to_string(), &resolved));
}

#[test]
fn events_are_covered_by_depth_and_recursion() {
    let watches = vec![("/flat".to_string(), WatchMode::non_recursive()), ("/rec".to_string(), WatchMode::recursive())];
    assert!(is_event_covered(&watches, &"/flat".to_string()));
    assert!(is_event_covered(&watches, &"/flat/child".to_string()));
    assert!(!is_event_covered(&watches, &"/flat/child/deeper".to_string()));
    assert!(is_event_covered(&watches, &"/rec/a/b/c".to_string()));
    assert!(!is_event_covered(&watches, &"/other/x".to_string()));
}

#[test]
fn completion_actions_by_error_code() {
    let watches = vec![("/gone".to_string(), no_track(RecursiveMode::NonRecursive)), ("/kept".to_string(), WatchMode::recursive())];
    assert!(matches!(completion_action(ERROR_OPERATION_ABORTED, false, &watches, &"/gone".to_string()), Completion::Stop));
    assert!(matches!(completion_action(ERROR_SUCCESS, true, &watches, &"/gone".to_string()), Completion::Read));
    assert!(matches!(completion_action(ERROR_ACCESS_DENIED, true, &watches, &"/gone".to_string()), Completion::Read));
    match completion_action(ERROR_ACCESS_DENIED, false, &watches, &"/gone".to_string()) {
        Completion::Unwatch(Some(ev)) => {
            assert_eq!(ev.kind, EventKind::Remove(RemoveKind::Any));
            assert_eq!(ev.paths, vec!["/gone".to_string()]);
        },
        other => panic!("unexpected {other:?}"),
    }
    assert!(matches!(completion_action(ERROR_ACCESS_DENIED, false, &watches, &"/kept".to_string()), Completion::Unwatch(None)));
    assert!(matches!(completion_action(87, true, &watches, &"/kept".to_string()), Completion::Unwatch(None)));
}

#[test]
fn handle_records_reports_covered_paths() {
    let mut watches = vec![
        ("/w".to_string(), no_track(RecursiveMode::NonRecursive)),
        ("/w/old".to_string(), no_track(RecursiveMode::NonRecursive)),
        ("/t".to_string(), WatchMode::non_recursive()),
    ];
    let ancestors = vec!["/anc".to_string()];
    let records = vec![
        (FILE_ACTION_ADDED, "/w/new".to_string()),
        (FILE_ACTION_RENAMED_OLD_NAME, "/w/old".to_string()),
        (FILE_ACTION_RENAMED_NEW_NAME, "/w/renamed".to_string()),
        (FILE_ACTION_MODIFIED, "/w/new".to_string()),
        (FILE_ACTION_REMOVED, "/elsewhere/x".to_string()),
        (FILE_ACTION_ADDED, "/anc".to_string()),
        (FILE_ACTION_REMOVED, "/t".to_string()),
        (99, "/w/odd".to_string()),
    ];
    let out = handle_records(&mut watches, &ancestors, &records);
    let kinds: Vec<(EventKind, String)> = out.events.iter().map(|e| (e.kind, e.paths[0].clone())).collect();
    assert_eq!(
        kinds,
        vec![
            (EventKind::Create(CreateKind::Any), "/w/new".to_string()),
            (EventKind::Modify(ModifyKind::Name(RenameMode::From)), "/w/old".to_string()),
            (EventKind::Modify(ModifyKind::Name(RenameMode::To)), "/w/renamed".to_string()),
            (EventKind::Modify(ModifyKind::Any), "/w/new".to_string()),
            (EventKind::Remove(RemoveKind::Any), "/t".to_string()),
        ]
    );
    assert_eq!(out.changed, vec!["/anc".to_string(), "/t".to_string()]);
    // The untracked watch that was renamed away is dropped; the tracked one stays.
    assert_eq!(watches.len(), 2);
    assert!(watches.iter().all(|(p, _)| p != "/w/old"));
}

#[test]
fn windows_watches_merge_and_resolve() {
    let mut book = WindowsWatches::new();
    book.add_watch_internal("/d".to_string(), no_track(RecursiveMode::NonRecursive), Ok(EntryKind::Dir)).unwrap();
    book.add_watch_internal("/d".to_string(), WatchMode::recursive(), Ok(EntryKind::Dir)).unwrap();
    assert_eq!(book.watches, vec![("/d".to_string(), WatchMode::recursive())]);
    assert_eq!(book.resolved[0].1.primary, Some(("/d".to_string(), true)));

    let err = book.add_watch_internal("/p".to_string(), WatchMode::recursive(), Ok(EntryKind::Other)).unwrap_err();
    assert_eq!(err.paths, vec!["/p".to_string()]);
    assert_eq!(book.watches.len(), 1);

    assert!(book.remove_watch_internal(&"/d".to_string()));
    assert!(!book.remove_watch_internal(&"/d".to_string()));
    assert!(book.watches.is_empty() && book.resolved.is_empty());
}

#[test]
fn apply_staged_keeps_the_first_error_and_goes_on() {
    let mut book = WindowsWatches::new();
    let staged = vec![
        StagedChange::Add("/a".to_string(), WatchMode::recursive(), Ok(EntryKind::Dir)),
        StagedChange::Add("/bad".to_string(), WatchMode::recursive(), Ok(EntryKind::Other)),
        StagedChange::Add("/gone".to_string(), no_track(RecursiveMode::Recursive), Err(Error::path_not_found())),
        StagedChange::Add("/b".to_string(), WatchMode::recursive(), Ok(EntryKind::File)),
        StagedChange::Remove("/a".to_string()),
    ];
    let first = book.apply_staged(staged).expect("an error");
    assert_eq!(first.paths, vec!["/bad".to_string()]);
    assert_eq!(book.watches, vec![("/b".to_string(), WatchMode::recursive())]);
    assert!(book.apply_staged(vec![StagedChange::Remove("/b".to_string())]).is_none());
}

#[test]
fn reresolve_reports_tracked_paths_that_came_or_went() {
    let mut book = WindowsWatches::new();
    book.add_watch_internal("/p/root".to_string(), WatchMode::recursive(), Err(Error::path_not_found())).unwrap();
    book.add_watch_internal("/p/file".to_string(), WatchMode::non_recursive(), Ok(EntryKind::File)).unwrap();
    book.add_watch_internal("/q".to_string(), no_track(RecursiveMode::Recursive), Ok(EntryKind::Dir)).unwrap();
    let roots = book.tracked_roots_below(&"/p".to_string());
    assert_eq!(roots.len(), 2);
    let with_meta = vec![
        ("/p/root".to_string(), WatchMode::recursive(), Ok(EntryKind::Dir)),
        ("/p/file".to_string(), WatchMode::non_recursive(), Err(Error::path_not_found())),
    ];
    let evs = book.reresolve_below(&"/p".to_string(), with_meta);
    let kinds: Vec<(EventKind, String)> = evs.iter().map(|e| (e.kind, e.paths[0].clone())).collect();
    assert_eq!(
        kinds,
        vec![
            (EventKind::Create(CreateKind::Folder), "/p/root".to_string()),
            (EventKind::Remove(RemoveKind::Any), "/p/file".to_string()),
        ]
    );
    // The path that came or went is not reported by the re-resolution itself.
    let same = book.reresolve_below(&"/p/root".to_string(), vec![("/p/root".to_string(), WatchMode::recursive(), Err(Error::path_not_found()))]);
    assert!(same.is_empty());
}

#[test]
fn tracked_ancestors_are_listed_once() {
    let mut book = WindowsWatches::new();
    book.add_watch_internal("/a/b/c".to_string(), WatchMode::recursive(), Ok(EntryKind::Dir)).unwrap();
    book.add_watch_internal("/a/b/d".to_string(), WatchMode::recursive(), Ok(EntryKind::Dir)).unwrap();
    book.add_watch_internal("/x/y".to_string(), no_track(RecursiveMode::Recursive), Ok(EntryKind::Dir)).unwrap();
    let mut anc = book.tracked_ancestors();
    anc.sort();
    assert_eq!(anc, vec!["/".to_string(), "/a".to_string(), "/a/b".to_string()]);
}

#[test]
fn chain_targets_skip_covered_ancestors() {
    let mut target = vec![("/r".to_string(), true)];
    let ancestors = vec!["/r/x".to_string(), "/s".to_string(), "/gone".to_string()];
    let chain = add_chain_targets(&mut target, &ancestors, &vec![true, true, false]);
    assert_eq!(chain, vec!["/s".to_string()]);
    assert_eq!(target, vec![("/r".to_string(), true), ("/s".to_string(), false)]);
}

#[test]
fn rebuild_converges_the_handles_with_the_target() {
    let current = vec![("/a".to_string(), false), ("/b".to_string(), true), ("/c".to_string(), false)];
    let target = vec![("/a".to_string(), true), ("/b".to_string(), true), ("/d".to_string(), false)];
    let close = handles_to_close(&current, &target);
    let open = handles_to_open(&current, &target);
    assert_eq!(close, vec!["/a".to_string(), "/c".to_string()]);
    assert_eq!(open, vec![("/a".to_string(), true), ("/d".to_string(), false)]);
    let mut after: Vec<(String, bool)> = current.into_iter().filter(|(p, _)| !close.contains(p)).collect();
    after.extend(open);
    after.sort();
    let mut expected = target.clone();
    expected.sort();
    assert_eq!(after, expected);
}

#[test]
fn rebuild_forgets_resolutions_of_dropped_watches() {
    let mut book = WindowsWatches::new();
    book.add_watch_internal("/d".to_string(), WatchMode::recursive(), Ok(EntryKind::Dir)).unwrap();
    book.add_watch_internal("/e".to_string(), WatchMode::recursive(), Ok(EntryKind::Dir)).unwrap();
    book.watches.retain(|(p, _)| p != "/e");
    book.retain_resolved();
    assert_eq!(book.resolved.len(), 1);
    assert_eq!(book.resolved[0].0, "/d");
    assert_eq!(book.watches.len(), 1);
}

#[test]
fn missing_watched_paths_have_their_parents_read() {
    let mut book = WindowsWatches::new();
    book.add_watch_internal("/p/gone".to_string(), WatchMode::recursive(), Err(Error::path_not_found())).unwrap();
    book.add_watch_internal("/d".to_string(), no_track(RecursiveMode::Recursive), Ok(EntryKind::Dir)).unwrap();
    let parents = book.tracked_parents();
    assert_eq!(parents, vec!["/p".to_string()]);

    let mut target = vec![("/d".to_string(), true)];
    add_parent_targets(&mut target, &vec!["/p".to_string(), "/d".to_string(), "/q".to_string()], &vec![true, true, false]);
    // "/d" is read already, "/q" is not a directory.
    assert_eq!(target, vec![("/d".to_string(), true), ("/p".to_string(), false)]);
}

#[test]
fn the_first_error_of_a_batch_wins() {
    let add = Error::path_not_found();
    let rebuild: Result<(), Error> = Err(Error::new(ErrorKind::Io("open failed".to_string())));
    assert!(matches!(staged_outcome(Some(add), rebuild.clone()), Err(ref e) if matches!(e.kind, ErrorKind::PathNotFound)));
    assert!(matches!(staged_outcome(None, rebuild), Err(ref e) if matches!(e.kind, ErrorKind::Io(_))));
    assert!(staged_outcome(None, Ok(())).is_ok());

    let opens = vec![Ok(()), Err(Error::new(ErrorKind::MaxFilesWatch)), Err(Error::path_not_found())];
    assert!(matches!(first_open_error(opens), Err(ref e) if matches!(e.kind, ErrorKind::MaxFilesWatch)));
    assert!(first_open_error(vec![Ok(()), Ok(())]).is_ok());
}
