use notify::freebsd_version::{parse_freebsd_release, FREEBSD_INOTIFY_MIN};

#[test]
fn parses_release_versions() {
    assert_eq!(parse_freebsd_release("14.5-RELEASE-p1"), Some((14, 5)));
    assert_eq!(parse_freebsd_release("  15.0-CURRENT\n"), Some((15, 0)));
    assert_eq!(parse_freebsd_release("13.2"), Some((13, 2)));
    assert_eq!(parse_freebsd_release("+14.10-STABLE"), Some((14, 10)));
    assert_eq!(parse_freebsd_release("\u{3000}14.5\u{a0}"), Some((14, 5)));
    assert!(parse_freebsd_release("14.5") >= Some(FREEBSD_INOTIFY_MIN));
    assert!(parse_freebsd_release("14.4-RELEASE") < Some(FREEBSD_INOTIFY_MIN));
}

#[test]
fn refuses_what_is_not_a_release() {
    assert_eq!(parse_freebsd_release(""), None);
    assert_eq!(parse_freebsd_release("14"), None);
    assert_eq!(parse_freebsd_release("14.-RELEASE"), None);
    assert_eq!(parse_freebsd_release("x.5"), None);
    assert_eq!(parse_freebsd_release("-14.5"), None);
    assert_eq!(parse_freebsd_release("4294967296.1"), None);
    assert_eq!(parse_freebsd_release("1.4294967296"), None);
    assert_eq!(parse_freebsd_release("4294967295.4294967295"), Some((u32::MAX, u32::MAX)));
}

#[test]
fn agrees_with_the_standard_library() {
    let samples = ["14.5-RELEASE-p1", " 1.2 ", "+3.4x", "++3.4", "3.+4", "007.08-p9", "\t12.0\r\n", "a.b", "5.", ".5", "1.2.3"];
    for s in samples {
        let expected = (|| {
            let (major_str, rest) = s.trim().split_once('.')?;
            let major: u32 = major_str.parse().ok()?;
            let minor_len = rest.find(|c: char| !c.is_ascii_digit()).unwrap_or(rest.len());
            let minor: u32 = rest.get(..minor_len)?.parse().ok()?;
            Some((major, minor))
        })();
        assert_eq!(parse_freebsd_release(s), expected, "{s:?}");
    }
}
