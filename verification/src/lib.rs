//! Cross-platform file system notification: the watch configuration, the bookkeeping of
//! watched paths, and the translation of the raw notifications of each platform into file
//! system events.

pub mod bits;
pub mod config;
pub mod error;
pub mod fs_event;
pub mod path_ops;
pub mod assoc;
pub mod paths;
pub mod watcher;

pub mod ancestors;
pub mod watch_table;
pub mod inotify;
pub mod kqueue;
pub mod freebsd_version;

pub mod fsevent_flags;
pub mod fsevent;
pub mod fsevent_budget;
pub mod fsevent_stream;

pub mod windows;

pub use config::{Config, RecursiveMode, TargetMode, WatchMode, DEFAULT_MAX_FSEVENT_PATHS};
pub use error::{Error, ErrorKind};
pub use paths::WatchFilter;
pub use watcher::{update_paths, NullWatcher, PathOp, UpdatePathsError, WatchPathConfig, WatcherKind};

/// The event types of the notify ecosystem, which the watchers deliver to their handlers.
pub use notify_types::event;
