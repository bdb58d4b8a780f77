use notify::ancestors::AncestorCounts;
use notify::error::{Error, ErrorKind};
use notify::fs_event::{CreateKind, EventKind, RemoveKind};
use notify::paths::EntryKind;
use notify::watch_table::{
    arm_root_state, chain_ancestors, forgotten_watches_to_drop, insert_root, is_recursive_at, is_watched_path, paths_below,
    plan_add_watch, rearmed, remove_root, roots_to_rearm, set_state, vanish_below, AddWatchPlan, RootState, RootWatch,
};
use notify::{RecursiveMode, TargetMode, WatchMode};

fn no_track(recursive_mode: RecursiveMode) -> WatchMode {
    WatchMode { recursive_mode, target_mode: TargetMode::NoTrack }
}

#[test]
fn watched_paths_are_roots_their_children_and_below_recursive_roots() {
    let mut t = Vec::new();
    insert_root(&mut t, "/flat".to_string(), RootWatch { mode: WatchMode::non_recursive(), state: RootState::Directory });
    insert_root(&mut t, "/rec".to_string(), RootWatch { mode: WatchMode::recursive(), state: RootState::Directory });
    assert!(is_watched_path(&t, &"/flat".to_string()));
    assert!(is_watched_path(&t, &"/flat/a".to_string()));
    assert!(!is_watched_path(&t, &"/flat/a/b".to_string()));
    assert!(is_watched_path(&t, &"/rec/a/b/c".to_string()));
    assert!(is_recursive_at(&t, &"/rec".to_string()));
    assert!(!is_recursive_at(&t, &"/flat/a".to_string()));
    // A change of state leaves what is watched as it was.
    set_state(&mut t, &"/flat".to_string(), RootState::Missing);
    assert!(is_watched_path(&t, &"/flat/a".to_string()));
}

#[test]
fn vanish_and_rearm_tracked_roots() {
    let mut t = Vec::new();
    insert_root(&mut t, "/p/a".to_string(), RootWatch { mode: WatchMode::recursive(), state: RootState::Directory });
    insert_root(&mut t, "/p/b".to_string(), RootWatch { mode: WatchMode::non_recursive(), state: RootState::File });
    insert_root(&mut t, "/p/c".to_string(), RootWatch { mode: no_track(RecursiveMode::Recursive), state: RootState::File });
    let evs = vanish_below(&mut t, &"/p".to_string());
    let kinds: Vec<(EventKind, String)> = evs.iter().map(|e| (e.kind, e.paths[0].clone())).collect();
    assert_eq!(
        kinds,
        vec![
            (EventKind::Remove(RemoveKind::Folder), "/p/a".to_string()),
            (EventKind::Remove(RemoveKind::File), "/p/b".to_string()),
        ]
    );
    assert!(vanish_below(&mut t, &"/p".to_string()).is_empty());
    let roots = roots_to_rearm(&t, &"/p".to_string());
    assert_eq!(roots, vec![("/p/a".to_string(), RecursiveMode::Recursive), ("/p/b".to_string(), RecursiveMode::NonRecursive)]);
    let ev = rearmed(&mut t, &"/p/a".to_string(), RootState::Directory).unwrap();
    assert_eq!(ev.kind, EventKind::Create(CreateKind::Folder));
    assert!(rearmed(&mut t, &"/p/b".to_string(), RootState::Missing).is_none());
    assert_eq!(roots_to_rearm(&t, &"/p".to_string()), vec![("/p/b".to_string(), RecursiveMode::NonRecursive)]);
}

#[test]
fn add_watch_plans() {
    let mut t = Vec::new();
    assert_eq!(plan_add_watch(&t, &"/x".to_string(), WatchMode::recursive()), AddWatchPlan::Track);
    assert_eq!(plan_add_watch(&t, &"/x".to_string(), no_track(RecursiveMode::Recursive)), AddWatchPlan::Watch);
    insert_root(&mut t, "/x".to_string(), RootWatch { mode: no_track(RecursiveMode::NonRecursive), state: RootState::Directory });
    assert_eq!(
        plan_add_watch(&t, &"/x".to_string(), WatchMode::recursive()),
        AddWatchPlan::Upgrade { start_tracking: true, become_recursive: true, mode: WatchMode::recursive() }
    );
    assert_eq!(remove_root(&mut t, &"/x".to_string()).map(|r| r.state), Some(RootState::Directory));
    assert!(remove_root(&mut t, &"/x".to_string()).is_none());
}

#[test]
fn chain_of_ancestors_from_the_top_down() {
    assert_eq!(chain_ancestors(&"/a/b/c".to_string()), vec!["/".to_string(), "/a".to_string(), "/a/b".to_string()]);
    assert!(chain_ancestors(&"/".to_string()).is_empty());
    assert_eq!(arm_root_state(false, Ok(EntryKind::Dir)).unwrap(), RootState::Missing);
    assert_eq!(arm_root_state(true, Ok(EntryKind::Dir)).unwrap(), RootState::Directory);
    assert_eq!(arm_root_state(true, Ok(EntryKind::File)).unwrap(), RootState::File);
    assert_eq!(arm_root_state(true, Err(Error::path_not_found())).unwrap(), RootState::Missing);
    let err = arm_root_state(true, Err(Error::new(ErrorKind::MaxFilesWatch))).unwrap_err();
    assert!(matches!(err.kind, ErrorKind::MaxFilesWatch));
}

#[test]
fn handles_below_and_forgotten_ancestors() {
    let handles = vec!["/a".to_string(), "/a/b".to_string(), "/ab".to_string(), "/c".to_string()];
    assert_eq!(paths_below(&handles, &"/a".to_string()), vec!["/a".to_string(), "/a/b".to_string()]);
    let mut t = Vec::new();
    insert_root(&mut t, "/r".to_string(), RootWatch { mode: WatchMode::recursive(), state: RootState::Directory });
    insert_root(&mut t, "/s".to_string(), RootWatch { mode: WatchMode::non_recursive(), state: RootState::Directory });
    let forgotten = vec!["/r/x".to_string(), "/s".to_string(), "/s/y".to_string(), "/z".to_string()];
    assert_eq!(forgotten_watches_to_drop(&t, &forgotten), vec!["/s/y".to_string(), "/z".to_string()]);
}

#[test]
fn ancestor_counts_track_and_untrack() {
    let mut counts = AncestorCounts::new();
    counts.track(&"/a/b/c".to_string());
    counts.track(&"/a/d".to_string());
    assert!(counts.contains(&"/a/b".to_string()));
    assert!(counts.contains(&"/".to_string()));
    let mut children = counts.children_of(&"/a".to_string());
    children.sort();
    assert_eq!(children, vec!["/a/b".to_string()]);
    let forgotten = counts.untrack(&"/a/b/c".to_string());
    assert_eq!(forgotten, vec!["/a/b".to_string()]);
    assert!(!counts.contains(&"/a/b".to_string()));
    assert!(counts.contains(&"/a".to_string()));
    let forgotten = counts.untrack(&"/a/d".to_string());
    assert_eq!(forgotten, vec!["/a".to_string(), "/".to_string()]);
    assert!(!counts.contains(&"/".to_string()));
}
