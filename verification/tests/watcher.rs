use notify::error::{Error, ErrorKind};
use notify::paths::WatchFilter;
use notify::watcher::{update_paths, NullWatcher, PathOp, WatchPathConfig, WatcherKind};
use notify::{Config, RecursiveMode};

#[test]
fn null_watcher_accepts_watches_and_refuses_unwatch() {
    let mut w = NullWatcher::new(Config::default()).unwrap();
    assert!(w.watch_filtered(&"/x".to_string(), RecursiveMode::Recursive, WatchFilter::accept_all()).is_ok());
    let err = w.unwatch(&"/x".to_string()).unwrap_err();
    assert!(matches!(err.kind, ErrorKind::WatchNotFound));
    assert_eq!(err.paths, vec!["/x".to_string()]);
    assert!(!w.configure(Config::default()).unwrap());
    assert_eq!(NullWatcher::kind(), WatcherKind::NullWatcher);
}

/// Records the path of each change it is handed, and fails on `failing`.
fn fail_on(failing: &str, seen: &mut Vec<String>, op: PathOp) -> Result<(), Error> {
    let path = match &op {
        PathOp::Watch(p, _) => p.clone(),
        PathOp::Unwatch(p) => p.clone(),
    };
    if path == failing {
        return Err(Error::path_not_found().add_path(path));
    }
    seen.push(path);
    Ok(())
}

#[test]
fn update_paths_stops_at_the_first_error_and_returns_the_rest() {
    let ops = vec![
        PathOp::watch_recursive("/a".to_string()),
        PathOp::Watch("/missing".to_string(), WatchPathConfig::new(RecursiveMode::Recursive)),
        PathOp::watch_non_recursive("/b".to_string()),
        PathOp::unwatch("/c".to_string()),
    ];
    let mut seen: Vec<String> = Vec::new();
    let err = update_paths(ops, |op| fail_on("/missing", &mut seen, op)).unwrap_err();
    assert!(matches!(err.source.kind, ErrorKind::PathNotFound));
    assert_eq!(err.source.paths, vec!["/missing".to_string()]);
    assert_eq!(seen, vec!["/a".to_string()]);
    assert_eq!(err.remaining.len(), 2);
    assert!(matches!(&err.remaining[0], PathOp::Watch(p, c) if p == "/b" && c.recursive_mode() == RecursiveMode::NonRecursive));
    assert!(matches!(&err.remaining[1], PathOp::Unwatch(p) if p == "/c"));

    // Retrying with what remains completes the batch.
    let mut retried: Vec<String> = Vec::new();
    update_paths(err.remaining, |op| fail_on("", &mut retried, op)).unwrap();
    assert_eq!(retried, vec!["/b".to_string(), "/c".to_string()]);
}

fn needs_debug<T: std::fmt::Debug>() {}

#[test]
fn test_debug_impl() {
    needs_debug::<Config>();
    needs_debug::<Error>();
    needs_debug::<ErrorKind>();
    needs_debug::<NullWatcher>();
    needs_debug::<RecursiveMode>();
    needs_debug::<WatcherKind>();
}
