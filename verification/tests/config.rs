use notify::config::{Config, RecursiveMode, TargetMode, WatchMode, DEFAULT_MAX_FSEVENT_PATHS};
use std::time::Duration;

fn all_modes() -> Vec<WatchMode> {
    let mut v = Vec::new();
    for r in [RecursiveMode::Recursive, RecursiveMode::NonRecursive] {
        for t in [TargetMode::TrackPath, TargetMode::NoTrack] {
            v.push(WatchMode { recursive_mode: r, target_mode: t });
        }
    }
    v
}

#[test]
fn watch_mode_constructors() {
    assert_eq!(WatchMode::recursive(), WatchMode { recursive_mode: RecursiveMode::Recursive, target_mode: TargetMode::TrackPath });
    assert_eq!(WatchMode::non_recursive(), WatchMode { recursive_mode: RecursiveMode::NonRecursive, target_mode: TargetMode::TrackPath });
    assert!(RecursiveMode::Recursive.is_recursive());
    assert!(!RecursiveMode::NonRecursive.is_recursive());
}

#[test]
fn upgrade_is_the_least_upper_bound() {
    for a in all_modes() {
        for b in all_modes() {
            let mut j = a;
            j.upgrade_with(b);
            let covers = |x: WatchMode, y: WatchMode| {
                (y.recursive_mode != RecursiveMode::Recursive || x.recursive_mode == RecursiveMode::Recursive)
                    && (y.target_mode != TargetMode::TrackPath || x.target_mode == TargetMode::TrackPath)
            };
            assert!(covers(j, a) && covers(j, b));
            for c in all_modes() {
                if covers(c, a) && covers(c, b) {
                    assert!(covers(c, j));
                }
            }
            if covers(a, b) {
                assert_eq!(j, a);
            }
        }
    }
    assert_eq!(RecursiveMode::NonRecursive.upgraded_with(RecursiveMode::Recursive), RecursiveMode::Recursive);
    assert_eq!(TargetMode::NoTrack.upgraded_with(TargetMode::NoTrack), TargetMode::NoTrack);
}

#[test]
fn config_builders_and_getters() {
    let c = Config::default();
    assert_eq!(c.poll_interval(), Some(Duration::from_secs(30)));
    assert!(!c.compare_contents());
    assert!(c.follow_symlinks());
    assert_eq!(c.max_fsevent_paths(), DEFAULT_MAX_FSEVENT_PATHS);
    let c = c
        .with_poll_interval(Duration::from_millis(250))
        .with_compare_contents(true)
        .with_follow_symlinks(false)
        .with_max_fsevent_paths(7);
    assert_eq!(c.poll_interval(), Some(Duration::from_millis(250)));
    assert!(c.compare_contents());
    assert!(!c.follow_symlinks());
    assert_eq!(c.max_fsevent_paths(), 7);
    assert_eq!(c.with_manual_polling().poll_interval(), None);
}
