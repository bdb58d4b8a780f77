//! Configuration types

use std::time::Duration;
use vstd::prelude::*;

verus! {

/// Default maximum number of paths to pass to FSEvents, chosen to stay
/// well under the macOS default file descriptor soft limit (256).
pub const DEFAULT_MAX_FSEVENT_PATHS: usize = 128;

/// Indicates whether only the provided directory or its sub-directories as well should be watched
#[derive(Copy, Clone, PartialEq, Eq, PartialOrd, Ord, Debug, Hash, Structural)]
pub enum RecursiveMode {
    /// Watch all sub-directories as well, including directories created after installing the watch
    Recursive,
    /// Watch only the provided directory
    NonRecursive,
}

/// Indicates what happens when the relationship of the physical entity and the file path changes
#[derive(Copy, Clone, PartialEq, Eq, PartialOrd, Ord, Debug, Hash, Structural)]
pub enum TargetMode {
    /// Tracks the file path through every ancestor: when the path is reachable again it is
    /// reported as created and watched again.
    TrackPath,
    /// Does not track the file path, nor the physical entity: when the entity at the path is
    /// replaced, the watch stops.
    NoTrack,
}

/// Indicates how the path should be watched
#[derive(Copy, Clone, PartialEq, Eq, Debug, Hash, Structural)]
pub struct WatchMode {
    /// Indicates whether to watch sub-directories as well
    pub recursive_mode: RecursiveMode,
    /// Indicates what happens when the relationship of the physical entity and the file path changes
    pub target_mode: TargetMode,
}

/// The coverage of `a` upgraded with `b`: recursive as soon as one of them is.
pub open spec fn recursive_join(a: RecursiveMode, b: RecursiveMode) -> RecursiveMode {
    if a == RecursiveMode::Recursive || b == RecursiveMode::Recursive {
        RecursiveMode::Recursive
    } else {
        RecursiveMode::NonRecursive
    }
}

/// The tracking of `a` upgraded with `b`: the path is tracked as soon as one of them tracks it.
pub open spec fn target_join(a: TargetMode, b: TargetMode) -> TargetMode {
    if a == TargetMode::TrackPath || b == TargetMode::TrackPath {
        TargetMode::TrackPath
    } else {
        TargetMode::NoTrack
    }
}

/// The watch mode `a` upgraded with `b`, component by component.
pub open spec fn watch_mode_join(a: WatchMode, b: WatchMode) -> WatchMode {
    WatchMode {
        recursive_mode: recursive_join(a.recursive_mode, b.recursive_mode),
        target_mode: target_join(a.target_mode, b.target_mode),
    }
}

/// `a` covers at least what `b` covers.
pub open spec fn watch_mode_covers(a: WatchMode, b: WatchMode) -> bool {
    &&& (b.recursive_mode == RecursiveMode::Recursive ==> a.recursive_mode == RecursiveMode::Recursive)
    &&& (b.target_mode == TargetMode::TrackPath ==> a.target_mode == TargetMode::TrackPath)
}

impl WatchMode {
    /// Creates a WatchMode that watches directories recursively and tracks the file path
    pub fn recursive() -> (r: Self)
        ensures
            r.recursive_mode == RecursiveMode::Recursive,
            r.target_mode == TargetMode::TrackPath,
    {
        Self { recursive_mode: RecursiveMode::Recursive, target_mode: TargetMode::TrackPath }
    }

    /// Creates a WatchMode that watches only the provided directory and tracks the file path
    pub fn non_recursive() -> (r: Self)
        ensures
            r.recursive_mode == RecursiveMode::NonRecursive,
            r.target_mode == TargetMode::TrackPath,
    {
        Self { recursive_mode: RecursiveMode::NonRecursive, target_mode: TargetMode::TrackPath }
    }

    /// Upgrades this mode with `other`: the result covers both.
    pub fn upgrade_with(&mut self, other: WatchMode)
        ensures
            *final(self) == watch_mode_join(*old(self), other),
    {
        self.recursive_mode = self.recursive_mode.upgraded_with(other.recursive_mode);
        self.target_mode = self.target_mode.upgraded_with(other.target_mode);
    }
}

impl RecursiveMode {
    /// Whether this mode watches sub-directories.
    pub fn is_recursive(&self) -> (r: bool)
        ensures
            r == (*self == RecursiveMode::Recursive),
    {
        match *self {
            RecursiveMode::Recursive => true,
            RecursiveMode::NonRecursive => false,
        }
    }

    /// This mode upgraded with `other`.
    pub fn upgraded_with(self, other: Self) -> (r: Self)
        ensures
            r == recursive_join(self, other),
    {
        match self {
            RecursiveMode::Recursive => self,
            RecursiveMode::NonRecursive => {
                if other == RecursiveMode::Recursive {
                    other
                } else {
                    self
                }
            },
        }
    }
}

impl TargetMode {
    /// This mode upgraded with `other`.
    pub fn upgraded_with(self, other: Self) -> (r: Self)
        ensures
            r == target_join(self, other),
    {
        match self {
            TargetMode::TrackPath => self,
            TargetMode::NoTrack => {
                if other == TargetMode::TrackPath {
                    other
                } else {
                    self
                }
            },
        }
    }
}

/// Upgrading is the least upper bound of two watch modes: the result covers both, any mode
/// that covers both covers the result, and the operation is commutative, associative and
/// idempotent, so the order in which watches of one path are requested does not matter.
pub proof fn lemma_upgrade_is_least_upper_bound(a: WatchMode, b: WatchMode, c: WatchMode)
    ensures
        watch_mode_covers(watch_mode_join(a, b), a),
        watch_mode_covers(watch_mode_join(a, b), b),
        watch_mode_covers(c, a) && watch_mode_covers(c, b) ==> watch_mode_covers(c, watch_mode_join(a, b)),
        watch_mode_join(a, b) == watch_mode_join(b, a),
        watch_mode_join(watch_mode_join(a, b), c) == watch_mode_join(a, watch_mode_join(b, c)),
        watch_mode_join(a, a) == a,
{
}

/// Upgrading with a mode that is already covered changes nothing: a repeated watch request
/// never weakens nor alters an existing watch.
pub proof fn lemma_upgrade_with_covered_mode_is_identity(a: WatchMode, b: WatchMode)
    requires
        watch_mode_covers(a, b),
    ensures
        watch_mode_join(a, b) == a,
{
}

/// The abstract content of a [`Config`].
pub ghost struct ConfigView {
    pub poll_interval: Option<Duration>,
    pub compare_contents: bool,
    pub follow_symlinks: bool,
    pub max_fsevent_paths: nat,
}

/// The duration of `secs` whole seconds, as `Duration::from_secs` builds it.
pub uninterp spec fn duration_from_secs(secs: u64) -> Duration;

/// Calls `Duration::from_secs`; the result is named by [`duration_from_secs`].
#[verifier::external_body]
fn seconds(secs: u64) -> (d: Duration)
    ensures
        d == duration_from_secs(secs),
{
    Duration::from_secs(secs)
}

/// Watcher Backend configuration
///
/// This contains multiple settings that may relate to only one specific backend,
/// such as to correctly configure each backend regardless of what is selected during runtime.
#[derive(Copy, Clone, PartialEq, Eq, Debug, Hash)]
pub struct Config {
    poll_interval: Option<Duration>,
    compare_contents: bool,
    follow_symlinks: bool,
    max_fsevent_paths: usize,
}

impl View for Config {
    type V = ConfigView;

    closed spec fn view(&self) -> ConfigView {
        ConfigView {
            poll_interval: self.poll_interval,
            compare_contents: self.compare_contents,
            follow_symlinks: self.follow_symlinks,
            max_fsevent_paths: self.max_fsevent_paths as nat,
        }
    }
}

impl Config {
    /// Interval between each re-scan attempt of the polling backend; enables automatic polling,
    /// overwriting [`Config::with_manual_polling`].
    pub fn with_poll_interval(self, dur: Duration) -> (r: Self)
        ensures
            r@ == (ConfigView { poll_interval: Some(dur), ..self@ }),
    {
        let mut c = self;
        c.poll_interval = Some(dur);
        c
    }

    /// Returns current setting
    pub fn poll_interval(&self) -> (r: Option<Duration>)
        ensures
            r == self@.poll_interval,
    {
        self.poll_interval
    }

    /// Disables automatic polling, overwriting [`Config::with_poll_interval`].
    pub fn with_manual_polling(self) -> (r: Self)
        ensures
            r@ == (ConfigView { poll_interval: None, ..self@ }),
    {
        let mut c = self;
        c.poll_interval = None;
        c
    }

    /// Whether the polling backend compares file contents to detect changes.
    pub fn with_compare_contents(self, compare_contents: bool) -> (r: Self)
        ensures
            r@ == (ConfigView { compare_contents, ..self@ }),
    {
        let mut c = self;
        c.compare_contents = compare_contents;
        c
    }

    /// Returns current setting
    pub fn compare_contents(&self) -> (r: bool)
        ensures
            r == self@.compare_contents,
    {
        self.compare_contents
    }

    /// Whether symbolic links are followed when a directory is watched recursively.
    pub fn with_follow_symlinks(self, follow_symlinks: bool) -> (r: Self)
        ensures
            r@ == (ConfigView { follow_symlinks, ..self@ }),
    {
        let mut c = self;
        c.follow_symlinks = follow_symlinks;
        c
    }

    /// Returns current setting
    pub fn follow_symlinks(&self) -> (r: bool)
        ensures
            r == self@.follow_symlinks,
    {
        self.follow_symlinks
    }

    /// Maximum number of paths to pass to FSEvents; `0` disables consolidation.
    pub fn with_max_fsevent_paths(self, max_paths: usize) -> (r: Self)
        ensures
            r@ == (ConfigView { max_fsevent_paths: max_paths as nat, ..self@ }),
    {
        let mut c = self;
        c.max_fsevent_paths = max_paths;
        c
    }

    /// Returns current setting. `0` means consolidation is disabled.
    pub fn max_fsevent_paths(&self) -> (r: usize)
        ensures
            r == self@.max_fsevent_paths,
    {
        self.max_fsevent_paths
    }
}

impl Default for Config {
    /// Polling every 30 seconds, no content comparison, symbolic links followed, and
    /// [`DEFAULT_MAX_FSEVENT_PATHS`] paths for FSEvents.
    fn default() -> (r: Self)
        ensures
            r@ == (ConfigView {
                poll_interval: Some(duration_from_secs(30)),
                compare_contents: false,
                follow_symlinks: true,
                max_fsevent_paths: DEFAULT_MAX_FSEVENT_PATHS as nat,
            }),
    {
        Config {
            poll_interval: Some(seconds(30)),
            compare_contents: false,
            follow_symlinks: true,
            max_fsevent_paths: DEFAULT_MAX_FSEVENT_PATHS,
        }
    }
}

} // verus!
