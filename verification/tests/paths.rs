use notify::error::ErrorKind;
use notify::paths::{
    absolute_path, filter_allows_dir, root_rejected, any_starts_with, check_watch_barriers, preserved_watch_mode, preserved_watch_roots, recursive_user_watch_ancestor,
    reported_path, UserWatch, WatchFilter, WatchMetadata, WatchPath,
};

fn user(path: &str, is_dir: bool, is_recursive: bool, filter: WatchFilter) -> UserWatch {
    UserWatch { path: path.to_string(), canonical: None, is_dir, is_recursive, filter }
}

fn check(absolute: &str, is_dir: bool, is_recursive: bool, filter: &WatchFilter, rejects_root: bool, watches: &Vec<UserWatch>) -> Result<(), notify::error::Error> {
    check_watch_barriers(&absolute.to_string(), &None, &absolute.to_string(), is_dir, is_recursive, filter, rejects_root, watches)
}

#[test]
fn check_watch_barriers_rejects_filtered_directory_root() {
    let filter = WatchFilter::with_id(1);
    let result = check("/tmp/root", true, true, &filter, true, &vec![]);
    assert!(
        matches!(&result, Err(error) if matches!(error.kind, ErrorKind::PathExcluded)),
        "watching a rejected directory root must fail with PathExcluded: {result:?}"
    );
    assert_eq!(result.unwrap_err().paths, vec!["/tmp/root".to_string()]);
}

#[test]
fn file_roots_are_never_filtered() {
    check("/tmp/root/watched.txt", false, false, &WatchFilter::with_id(1), true, &vec![]).expect("file roots are never filtered");
}

#[test]
fn accept_all_overlaps_and_same_path_rewatch_are_allowed() {
    let accept_all = vec![user("/r", true, true, WatchFilter::accept_all())];
    check("/r/child", true, true, &WatchFilter::accept_all(), false, &accept_all).expect("accept-all directory watches may overlap");
    let same = vec![user("/r", true, true, WatchFilter::with_id(2))];
    check("/r", true, true, &WatchFilter::with_id(2), false, &same).expect("rewatching the same path is replacement, not overlap");
}

#[test]
fn filtered_overlaps_are_refused_in_both_directions() {
    let filter = WatchFilter::with_id(3);
    let recursive_root = vec![user("/r", true, true, WatchFilter::accept_all())];
    let err = check("/r/child", true, true, &filter, false, &recursive_root).unwrap_err();
    assert!(matches!(err.kind, ErrorKind::Generic(ref m) if m == "a watch with a filter must not overlap another watch"));
    assert_eq!(err.paths, vec!["/r/child".to_string(), "/r".to_string()]);

    let filtered_root = vec![user("/r", true, true, filter)];
    assert!(check("/r/child", true, false, &WatchFilter::accept_all(), false, &filtered_root).is_err());

    let nested = vec![user("/r/child/grandchild", true, false, WatchFilter::accept_all())];
    assert!(check("/r/child", true, true, &filter, false, &nested).is_err());

    let file_watch = vec![user("/r/file.txt", false, false, WatchFilter::accept_all())];
    check("/r", true, true, &filter, false, &file_watch).expect("file watches never conflict");
}

#[test]
fn symlink_aliases_do_not_bypass_the_overlap_check() {
    let real = vec![UserWatch { path: "/real".to_string(), canonical: Some("/real".to_string()), is_dir: true, is_recursive: true, filter: WatchFilter::accept_all() }];
    let r = check_watch_barriers(&"/alias".to_string(), &Some("/real".to_string()), &"/alias".to_string(), true, true, &WatchFilter::with_id(4), false, &real);
    assert!(r.is_err(), "canonicalized aliases must not bypass filtered overlap checks");
    assert!(any_starts_with(&"/alias/x".to_string(), &Some("/real/x".to_string()), &"/real".to_string(), &None));
}

#[test]
fn paths_are_reported_as_the_user_asked() {
    assert_eq!(absolute_path("rel/dir", "/home/u"), "/home/u/rel/dir");
    assert_eq!(absolute_path("/abs", "/home/u"), "/abs");
    // Repeated and trailing separators and `.` components are dropped.
    assert_eq!(absolute_path("/tmp//d/./x/", "/home/u"), "/tmp/d/x");
    assert_eq!(absolute_path("./rel//dir/", "/home/u"), "/home/u/rel/dir");
    assert_eq!(reported_path(&"/home/u/rel".to_string(), &"rel".to_string(), &"/home/u/rel/a/b".to_string()), "rel/a/b");
    assert_eq!(reported_path(&"/home/u/rel".to_string(), &"rel".to_string(), &"/home/u/rel".to_string()), "rel");
    let root = WatchPath::new("rel", "/home/u");
    assert_eq!(root.absolute, "/home/u/rel");
    let child = root.child("/home/u/rel/x".to_string());
    assert_eq!(child.requested, "rel/x");
}

#[test]
fn reinstalled_user_watch_is_a_noop() {
    let path = WatchPath::from_parts("/w".to_string(), "w".to_string());
    let m = WatchMetadata::new(&path, true, true, true, None, WatchFilter::with_id(9));
    assert!(m.rewatch_is_noop(&path, true, &WatchFilter::with_id(9)));
    assert!(!m.rewatch_is_noop(&path, false, &WatchFilter::with_id(9)));
    assert!(!m.rewatch_is_noop(&path, true, &WatchFilter::accept_all()));
    // A walk that lands on the user watch keeps its reported path and filter.
    let walked = WatchMetadata::new(&WatchPath::from_parts("/w".to_string(), "/w".to_string()), true, false, false, Some(&m), WatchFilter::accept_all());
    assert_eq!(walked.reported_path, "w");
    assert!(walked.is_user_watch && walked.is_recursive && walked.user_is_recursive);
    assert_eq!(walked.watch_filter, WatchFilter::with_id(9));
}

#[test]
fn preserved_roots_and_recursive_ancestors() {
    let meta = |reported: &str, user: bool, user_rec: bool| WatchMetadata {
        is_dir: true,
        is_recursive: user_rec,
        reported_path: reported.to_string(),
        is_user_watch: user,
        user_is_recursive: user_rec,
        watch_filter: WatchFilter::accept_all(),
    };
    let watches = vec![
        ("/a".to_string(), meta("a", true, true)),
        ("/a/b".to_string(), meta("a/b", true, false)),
        ("/a/b/c".to_string(), meta("a/b/c", false, false)),
        ("/a/d".to_string(), meta("a/d", true, true)),
    ];
    let roots = preserved_watch_roots(&"/a".to_string(), false, &watches);
    assert_eq!(roots, vec![("/a/b".to_string(), false), ("/a/d".to_string(), true)]);
    assert!(preserved_watch_roots(&"/a".to_string(), true, &watches).is_empty());
    assert_eq!(preserved_watch_mode(&"/a/d/x".to_string(), &roots), Some(true));
    assert_eq!(preserved_watch_mode(&"/a/b/x".to_string(), &roots), None);
    assert_eq!(preserved_watch_mode(&"/a/b".to_string(), &roots), Some(false));
    assert_eq!(
        recursive_user_watch_ancestor(&"/a/d/e".to_string(), &watches),
        Some(("/a/d".to_string(), "a/d".to_string()))
    );
    assert_eq!(recursive_user_watch_ancestor(&"/a".to_string(), &watches), None);
}

#[test]
fn watch_filters_are_told_apart_by_identity() {
    assert!(WatchFilter::accept_all().is_accept_all());
    assert_eq!(WatchFilter::with_id(5).id(), Some(5));
    assert!(WatchFilter::with_id(5).same_filter(&WatchFilter::with_id(5)));
    assert!(!WatchFilter::with_id(5).same_filter(&WatchFilter::accept_all()));
}

#[test]
fn filters_are_checked_on_links_and_their_targets() {
    let filtered = WatchFilter::with_id(1);
    assert!(filter_allows_dir(&WatchFilter::accept_all(), false, true, Some(false)));
    assert!(!filter_allows_dir(&filtered, false, false, None));
    assert!(!filter_allows_dir(&filtered, true, true, Some(false)), "a symlink to an excluded directory must be rejected");
    assert!(filter_allows_dir(&filtered, true, true, None));
    assert!(filter_allows_dir(&filtered, true, false, Some(false)));
    assert!(root_rejected(&filtered, true, false, false, None));
    assert!(!root_rejected(&filtered, false, false, false, None));
    assert!(!root_rejected(&WatchFilter::accept_all(), true, false, false, None));
}
