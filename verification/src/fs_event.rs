//! The file system events that the watchers report, as plain values.

use vstd::prelude::*;

verus! {

/// The mode of an access.
#[derive(Copy, Clone, PartialEq, Eq, Debug, Hash, Structural)]
pub enum AccessMode {
    Any,
    Execute,
    Read,
    Write,
    Other,
}

/// The kind of an access.
#[derive(Copy, Clone, PartialEq, Eq, Debug, Hash, Structural)]
pub enum AccessKind {
    Any,
    Read,
    Open(AccessMode),
    Close(AccessMode),
    Other,
}

/// What was created.
#[derive(Copy, Clone, PartialEq, Eq, Debug, Hash, Structural)]
pub enum CreateKind {
    Any,
    File,
    Folder,
    Other,
}

/// What changed in the data of a file.
#[derive(Copy, Clone, PartialEq, Eq, Debug, Hash, Structural)]
pub enum DataChange {
    Any,
    Size,
    Content,
    Other,
}

/// What changed in the metadata of a file.
#[derive(Copy, Clone, PartialEq, Eq, Debug, Hash, Structural)]
pub enum MetadataKind {
    Any,
    AccessTime,
    WriteTime,
    Permissions,
    Ownership,
    Extended,
    Other,
}

/// Which side of a rename an event reports.
#[derive(Copy, Clone, PartialEq, Eq, Debug, Hash, Structural)]
pub enum RenameMode {
    Any,
    To,
    From,
    Both,
    Other,
}

/// The kind of a modification.
#[derive(Copy, Clone, PartialEq, Eq, Debug, Hash, Structural)]
pub enum ModifyKind {
    Any,
    Data(DataChange),
    Metadata(MetadataKind),
    Name(RenameMode),
    Other,
}

/// What was removed.
#[derive(Copy, Clone, PartialEq, Eq, Debug, Hash, Structural)]
pub enum RemoveKind {
    Any,
    File,
    Folder,
    Other,
}

/// The kind of a file system event.
#[derive(Copy, Clone, PartialEq, Eq, Debug, Hash, Structural)]
pub enum EventKind {
    Any,
    Access(AccessKind),
    Create(CreateKind),
    Modify(ModifyKind),
    Remove(RemoveKind),
    Other,
}

/// A flag carried by an event.
#[derive(Copy, Clone, PartialEq, Eq, Debug, Hash, Structural)]
pub enum Flag {
    /// Events were missed: the watched tree must be rescanned.
    Rescan,
}

/// The notes that the watchers attach to an event.
#[derive(Copy, Clone, PartialEq, Eq, Debug, Hash, Structural)]
pub enum Info {
    RescanUserDropped,
    RescanKernelDropped,
    RootChanged,
    Mount,
    IsSymlink,
    IsHardlink,
    IsClone,
    FinderInfo,
}

/// The text of a note.
pub open spec fn info_text(info: Info) -> Seq<char> {
    match info {
        Info::RescanUserDropped => "rescan: user dropped"@,
        Info::RescanKernelDropped => "rescan: kernel dropped"@,
        Info::RootChanged => "root changed"@,
        Info::Mount => "mount"@,
        Info::IsSymlink => "is: symlink"@,
        Info::IsHardlink => "is: hardlink"@,
        Info::IsClone => "is: clone"@,
        Info::FinderInfo => "meta: finder info"@,
    }
}

impl Info {
    /// The text of this note.
    pub fn as_str(&self) -> (r: &'static str)
        ensures
            r@ == info_text(*self),
    {
        match *self {
            Info::RescanUserDropped => "rescan: user dropped",
            Info::RescanKernelDropped => "rescan: kernel dropped",
            Info::RootChanged => "root changed",
            Info::Mount => "mount",
            Info::IsSymlink => "is: symlink",
            Info::IsHardlink => "is: hardlink",
            Info::IsClone => "is: clone",
            Info::FinderInfo => "meta: finder info",
        }
    }
}

/// A file system event: its kind, the paths it concerns, and its attributes.
#[derive(Clone, Debug)]
pub struct Event {
    pub kind: EventKind,
    pub paths: Vec<String>,
    pub tracker: Option<usize>,
    pub flag: Option<Flag>,
    pub info: Option<Info>,
    pub process_id: Option<u32>,
}

/// The attributes of an event without its paths.
pub ghost struct EventHead {
    pub kind: EventKind,
    pub tracker: Option<usize>,
    pub flag: Option<Flag>,
    pub info: Option<Info>,
    pub process_id: Option<u32>,
}

/// An event head of `kind` with no attribute.
pub open spec fn head(kind: EventKind) -> EventHead {
    EventHead { kind, tracker: None, flag: None, info: None, process_id: None }
}

/// `h` with the note `info`.
pub open spec fn with_info(h: EventHead, info: Info) -> EventHead {
    EventHead { info: Some(info), ..h }
}

/// The paths of an event, as character sequences.
pub open spec fn paths_view(paths: Seq<String>) -> Seq<Seq<char>> {
    paths.map_values(|p: String| p@)
}

impl Event {
    /// The attributes of this event without its paths.
    pub open spec fn head(&self) -> EventHead {
        EventHead {
            kind: self.kind,
            tracker: self.tracker,
            flag: self.flag,
            info: self.info,
            process_id: self.process_id,
        }
    }

    /// An event of `kind` with no path and no attribute.
    pub fn new(kind: EventKind) -> (r: Event)
        ensures
            r.head() == head(kind),
            r.paths@.len() == 0,
    {
        Event { kind, paths: Vec::new(), tracker: None, flag: None, info: None, process_id: None }
    }

    /// This event with `path` appended to its paths.
    pub fn add_path(self, path: String) -> (r: Event)
        ensures
            r.head() == self.head(),
            r.paths@ == self.paths@.push(path),
    {
        let mut e = self;
        e.paths.push(path);
        e
    }

    /// This event with the note `info`.
    pub fn set_info(self, info: Info) -> (r: Event)
        ensures
            r.head() == with_info(self.head(), info),
            r.paths@ == self.paths@,
    {
        let mut e = self;
        e.info = Some(info);
        e
    }

    /// This event with the flag `flag`.
    pub fn set_flag(self, flag: Flag) -> (r: Event)
        ensures
            r.head() == (EventHead { flag: Some(flag), ..self.head() }),
            r.paths@ == self.paths@,
    {
        let mut e = self;
        e.flag = Some(flag);
        e
    }

    /// This event with the rename tracker `tracker`.
    pub fn set_tracker(self, tracker: usize) -> (r: Event)
        ensures
            r.head() == (EventHead { tracker: Some(tracker), ..self.head() }),
            r.paths@ == self.paths@,
    {
        let mut e = self;
        e.tracker = Some(tracker);
        e
    }

    /// The text of the note of this event, if it has one.
    pub fn info(&self) -> (r: Option<&'static str>)
        ensures
            r is Some <==> self.info is Some,
            r is Some ==> r->0@ == info_text(self.info->0),
    {
        match &self.info {
            Some(i) => Some(i.as_str()),
            None => None,
        }
    }
}

} // verus!
