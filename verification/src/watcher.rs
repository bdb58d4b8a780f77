//! What every watcher shares: its kind, the stub watcher, and the batched update of the
//! watched paths.

use crate::config::{Config, RecursiveMode};
use crate::error::Error;
use crate::paths::WatchFilter;
use vstd::prelude::*;

verus! {

/// Watcher kind enumeration
#[derive(Copy, Clone, PartialEq, Eq, Debug, Hash, Structural)]
#[non_exhaustive]
pub enum WatcherKind {
    /// inotify backend (linux)
    Inotify,
    /// FS-Event backend (mac)
    Fsevent,
    /// KQueue backend (bsd,optionally mac)
    Kqueue,
    /// Polling based backend (fallback)
    PollWatcher,
    /// Windows backend
    ReadDirectoryChangesWatcher,
    /// Fake watcher for testing
    NullWatcher,
}

/// Stub watcher: events are never delivered from it. It accepts every watch and records none,
/// so no path is ever watched by it and each unwatch is refused.
#[derive(Copy, Clone, Debug)]
pub struct NullWatcher;

impl NullWatcher {
    /// A stub watcher; the configuration is not used.
    pub fn new(config: Config) -> (r: Result<NullWatcher, Error>)
        ensures
            r is Ok,
    {
        Ok(NullWatcher)
    }

    /// Accepts the watch of `path`, and delivers nothing for it.
    pub fn watch_filtered(&mut self, path: &String, recursive_mode: RecursiveMode, watch_filter: WatchFilter) -> (r: Result<(), Error>)
        ensures
            r is Ok,
    {
        Ok(())
    }

    /// Refuses the removal of the watch of `path`: this watcher records no watch, so `path` has
    /// not been watched by it.
    pub fn unwatch(&mut self, path: &String) -> (r: Result<(), Error>)
        ensures
            r matches Err(e) && e.kind is WatchNotFound && e.paths@ == seq![*path],
    {
        Err(Error::watch_not_found().add_path(path.clone()))
    }

    /// Supports no runtime option: answers `false`.
    pub fn configure(&mut self, config: Config) -> (r: Result<bool, Error>)
        ensures
            r == Ok::<bool, Error>(false),
    {
        Ok(false)
    }

    /// The kind of this watcher.
    pub fn kind() -> (r: WatcherKind)
        ensures
            r == WatcherKind::NullWatcher,
    {
        WatcherKind::NullWatcher
    }
}

/// How a path of a batch is watched.
#[derive(Copy, Clone, PartialEq, Eq, Debug, Structural)]
pub struct WatchPathConfig {
    recursive_mode: RecursiveMode,
}

impl WatchPathConfig {
    /// A watch with `recursive_mode`.
    pub fn new(recursive_mode: RecursiveMode) -> (r: WatchPathConfig)
        ensures
            r.spec_recursive_mode() == recursive_mode,
    {
        WatchPathConfig { recursive_mode }
    }

    /// Whether the path is watched recursively.
    pub closed spec fn spec_recursive_mode(&self) -> RecursiveMode {
        self.recursive_mode
    }

    /// Whether the path is watched recursively.
    pub fn recursive_mode(&self) -> (r: RecursiveMode)
        ensures
            r == self.spec_recursive_mode(),
    {
        self.recursive_mode
    }
}

/// One change of a batch of watched paths.
#[derive(Clone, Debug)]
pub enum PathOp {
    /// Watch the path with the configuration.
    Watch(String, WatchPathConfig),
    /// Stop watching the path.
    Unwatch(String),
}

impl PathOp {
    /// Watch `path` recursively.
    pub fn watch_recursive(path: String) -> (r: PathOp)
        ensures
            r matches PathOp::Watch(p, c) && p == path && c.spec_recursive_mode() == RecursiveMode::Recursive,
    {
        PathOp::Watch(path, WatchPathConfig::new(RecursiveMode::Recursive))
    }

    /// Watch `path` non-recursively.
    pub fn watch_non_recursive(path: String) -> (r: PathOp)
        ensures
            r matches PathOp::Watch(p, c) && p == path && c.spec_recursive_mode() == RecursiveMode::NonRecursive,
    {
        PathOp::Watch(path, WatchPathConfig::new(RecursiveMode::NonRecursive))
    }

    /// Stop watching `path`.
    pub fn unwatch(path: String) -> (r: PathOp)
        ensures
            r == PathOp::Unwatch(path),
    {
        PathOp::Unwatch(path)
    }
}

/// The error of a batch of changes: the error of the change that failed, and the changes after
/// it, which were not applied.
#[derive(Debug)]
pub struct UpdatePathsError {
    pub source: Error,
    pub remaining: Vec<PathOp>,
}

/// Applies the changes `ops` in order with `apply`, and stops at the first that fails: its
/// error comes back with the changes after it, none of which was applied. On success every
/// change was handed to `apply` and answered `Ok`; on failure each change before the failing
/// one was.
pub fn update_paths<F: FnMut(PathOp) -> Result<(), Error>>(ops: Vec<PathOp>, apply: F) -> (r: Result<(), UpdatePathsError>)
    requires
        forall|i: int| 0 <= i < ops@.len() ==> call_requires(apply, (#[trigger] ops@[i],)),
    ensures
        r is Ok ==> forall|i: int| 0 <= i < ops@.len() ==> call_ensures(apply, (#[trigger] ops@[i],), Ok::<(), Error>(())),
        r matches Err(u) ==> u.remaining@.len() < ops@.len()
            && u.remaining@ == ops@.subrange(ops@.len() - u.remaining@.len(), ops@.len() as int)
            && call_ensures(apply, (ops@[ops@.len() - u.remaining@.len() - 1],), Err::<(), Error>(u.source))
            && forall|i: int| 0 <= i < ops@.len() - u.remaining@.len() - 1
                ==> call_ensures(apply, (#[trigger] ops@[i],), Ok::<(), Error>(())),
{
    let ghost all = ops@;
    let ghost f = apply;
    let mut apply_op = apply;
    let mut rest = ops;
    let ghost mut done: int = 0;
    while rest.len() > 0
        invariant
            0 <= done <= all.len(),
            all == ops@,
            apply == f,
            apply_op == f,
            rest@ == all.subrange(done, all.len() as int),
            forall|i: int| 0 <= i < all.len() ==> call_requires(f, (#[trigger] all[i],)),
            forall|i: int| 0 <= i < done ==> call_ensures(f, (#[trigger] all[i],), Ok::<(), Error>(())),
        decreases rest@.len(),
    {
        let op = rest.remove(0);
        proof {
            assert(op == all[done]);
            done = done + 1;
            assert(rest@ =~= all.subrange(done, all.len() as int));
        }
        let res = apply_op(op);
        match res {
            Err(source) => {
                return Err(UpdatePathsError { source, remaining: rest });
            },
            Ok(()) => {
                proof {
                    assert(res->Ok_0 == ());
                }
            },
        }
    }
    Ok(())
}

} // verus!
