//! Error types

use vstd::prelude::*;

verus! {

/// The kind of a watcher error.
#[derive(Clone, Debug)]
pub enum ErrorKind {
    /// A generic error, described by its message.
    Generic(String),
    /// An I/O error, described by its message.
    Io(String),
    /// A path does not exist.
    PathNotFound,
    /// Attempted to remove a watch that does not exist.
    WatchNotFound,
    /// An invalid value was passed as runtime configuration.
    InvalidConfig,
    /// Can't watch (more) files: the limit of the platform is reached.
    MaxFilesWatch,
    /// The path is excluded by the watch filter.
    PathExcluded,
}

/// A watcher error: its kind and the paths it concerns.
#[derive(Clone, Debug)]
pub struct Error {
    pub kind: ErrorKind,
    pub paths: Vec<String>,
}

impl Error {
    /// An error of `kind` that concerns no path.
    pub fn new(kind: ErrorKind) -> (r: Error)
        ensures
            r.kind == kind,
            r.paths@.len() == 0,
    {
        Error { kind, paths: Vec::new() }
    }

    /// A generic error with the message `msg`.
    pub fn generic(msg: &str) -> (r: Error)
        ensures
            r.kind matches ErrorKind::Generic(m) && m@ == msg@,
            r.paths@.len() == 0,
    {
        Error::new(ErrorKind::Generic(msg.to_owned()))
    }

    /// An error for a path that does not exist.
    pub fn path_not_found() -> (r: Error)
        ensures
            r.kind is PathNotFound,
            r.paths@.len() == 0,
    {
        Error::new(ErrorKind::PathNotFound)
    }

    /// An error for a watch that does not exist.
    pub fn watch_not_found() -> (r: Error)
        ensures
            r.kind is WatchNotFound,
            r.paths@.len() == 0,
    {
        Error::new(ErrorKind::WatchNotFound)
    }

    /// An error for a path that the watch filter excludes.
    pub fn path_excluded() -> (r: Error)
        ensures
            r.kind is PathExcluded,
            r.paths@.len() == 0,
    {
        Error::new(ErrorKind::PathExcluded)
    }

    /// This error with `path` appended to the paths it concerns.
    pub fn add_path(self, path: String) -> (r: Error)
        ensures
            r.kind == self.kind,
            r.paths@ == self.paths@.push(path),
    {
        let mut e = self;
        e.paths.push(path);
        e
    }
}

} // verus!
