//! The bookkeeping of watched paths that the backends share: how a path is reported, which
//! user watches survive the removal of another, and which watch requests are refused.

use crate::error::{Error, ErrorKind};
use crate::path_ops::{
    is_absolute, join, normalize, path_normal, path_is_absolute, path_join, path_starts_with, path_strip_prefix,
    same_path, starts_with, strip_prefix,
};
use vstd::prelude::*;

verus! {

/// What a path is, as its metadata says.
#[derive(Copy, Clone, PartialEq, Eq, Debug, Structural)]
pub enum EntryKind {
    Dir,
    File,
    Other,
}


/// Which directories a watch gates: either every directory (accept-all), or the directories
/// that the user's filter with the given identity accepts. The filter itself is applied where
/// the file system is read; the bookkeeping only needs to know whether a filter is set and
/// whether two watches share it.
#[derive(Copy, Clone, PartialEq, Eq, Debug, Hash, Structural)]
pub struct WatchFilter {
    id: Option<u64>,
}

impl WatchFilter {
    /// The identity of the user filter, none for accept-all.
    pub closed spec fn key(&self) -> Option<u64> {
        self.id
    }

    /// The filter that accepts every directory.
    pub fn accept_all() -> (r: WatchFilter)
        ensures
            r.key() is None,
    {
        WatchFilter { id: None }
    }

    /// The user filter with identity `id`.
    pub fn with_id(id: u64) -> (r: WatchFilter)
        ensures
            r.key() == Some(id),
    {
        WatchFilter { id: Some(id) }
    }

    /// The identity of the user filter, none for accept-all.
    pub fn id(&self) -> (r: Option<u64>)
        ensures
            r == self.key(),
    {
        self.id
    }

    /// Whether this filter accepts every directory.
    pub fn is_accept_all(&self) -> (r: bool)
        ensures
            r == self.key() is None,
    {
        self.id.is_none()
    }

    /// Whether two watches use the same filter.
    pub fn same_filter(&self, other: &WatchFilter) -> (r: bool)
        ensures
            r == (self.key() == other.key()),
    {
        match (self.id, other.id) {
            (None, None) => true,
            (Some(a), Some(b)) => a == b,
            _ => false,
        }
    }
}

/// A watched path: where it is, and how the user asked for it.
#[derive(Clone, Debug)]
pub struct WatchPath {
    pub absolute: String,
    pub requested: String,
}

/// What a backend records of a watched path.
#[derive(Clone, Debug)]
pub struct WatchMetadata {
    pub is_dir: bool,
    pub is_recursive: bool,
    /// The path under which events of this entry are reported.
    pub reported_path: String,
    pub is_user_watch: bool,
    pub user_is_recursive: bool,
    /// The filter governing this entry: the user's filter for user watches, and the covering
    /// root's filter for entries that a walk of that root added.
    pub watch_filter: WatchFilter,
}

/// The abstract content of a [`WatchMetadata`].
pub ghost struct MetadataView {
    pub is_dir: bool,
    pub is_recursive: bool,
    pub reported_path: Seq<char>,
    pub is_user_watch: bool,
    pub user_is_recursive: bool,
    pub filter: Option<u64>,
}

impl View for WatchMetadata {
    type V = MetadataView;

    open spec fn view(&self) -> MetadataView {
        MetadataView {
            is_dir: self.is_dir,
            is_recursive: self.is_recursive,
            reported_path: self.reported_path@,
            is_user_watch: self.is_user_watch,
            user_is_recursive: self.user_is_recursive,
            filter: self.watch_filter.key(),
        }
    }
}

/// The entry recorded for `requested` when a watch is (re)installed over `existing`: a user
/// watch records what the user asked for; an entry that a walk adds keeps the reported path
/// and the filter of a user watch it lands on; recursion and user ownership accumulate.
pub open spec fn merged_metadata(
    requested: Seq<char>,
    is_dir: bool,
    is_recursive: bool,
    is_user_watch: bool,
    existing: Option<MetadataView>,
    filter: Option<u64>,
) -> MetadataView {
    let ex_user = existing matches Some(e) && e.is_user_watch;
    MetadataView {
        is_dir,
        is_recursive: is_recursive || (existing matches Some(e) && e.is_recursive),
        reported_path: if !is_user_watch && ex_user { existing->0.reported_path } else { requested },
        is_user_watch: is_user_watch || ex_user,
        user_is_recursive: if is_user_watch {
            is_recursive
        } else {
            existing matches Some(e) && e.user_is_recursive
        },
        filter: if !is_user_watch && ex_user { existing->0.filter } else { filter },
    }
}

/// Whether a user rewatch of `requested` asks for exactly what `m` records.
pub open spec fn rewatch_noop(m: MetadataView, requested: Seq<char>, is_recursive: bool, filter: Option<u64>) -> bool {
    m.user_is_recursive == is_recursive && m.reported_path == requested && m.filter == filter
}

impl WatchPath {
    /// The watched path `path`, made absolute against `current_dir` if it is relative.
    pub fn new(path: &str, current_dir: &str) -> (r: WatchPath)
        ensures
            r.absolute@ == path_normal(absolute_spec(path@, current_dir@)),
            r.requested@ == path@,
    {
        WatchPath { absolute: absolute_path(path, current_dir), requested: path.to_owned() }
    }

    /// The watched path with both of its forms given.
    pub fn from_parts(absolute: String, requested: String) -> (r: WatchPath)
        ensures
            r.absolute == absolute,
            r.requested == requested,
    {
        WatchPath { absolute, requested }
    }

    /// The path `path` below this watched path, reported in the form the user asked for.
    pub fn child(&self, path: String) -> (r: WatchPath)
        ensures
            r.absolute == path,
            r.requested@ == reported_spec(self.absolute@, self.requested@, path@),
    {
        let requested = reported_path(&self.absolute, &self.requested, &path);
        WatchPath::from_parts(path, requested)
    }
}

impl WatchMetadata {
    /// The entry recorded for `path` (see [`merged_metadata`]).
    pub fn new(
        path: &WatchPath,
        is_dir: bool,
        is_recursive: bool,
        is_user_watch: bool,
        existing_watch: Option<&WatchMetadata>,
        watch_filter: WatchFilter,
    ) -> (r: WatchMetadata)
        ensures
            r@ == merged_metadata(
                path.requested@,
                is_dir,
                is_recursive,
                is_user_watch,
                match existing_watch {
                    Some(e) => Some(e@),
                    None => None,
                },
                watch_filter.key(),
            ),
    {
        let existing_is_user_watch = match existing_watch {
            Some(w) => w.is_user_watch,
            None => false,
        };
        let existing_user_is_recursive = match existing_watch {
            Some(w) => w.user_is_recursive,
            None => false,
        };
        let existing_is_recursive = match existing_watch {
            Some(w) => w.is_recursive,
            None => false,
        };
        let user_is_recursive = if is_user_watch { is_recursive } else { existing_user_is_recursive };
        let (reported_path, filter) = match existing_watch {
            Some(w) => {
                if !is_user_watch && w.is_user_watch {
                    (w.reported_path.clone(), w.watch_filter)
                } else {
                    (path.requested.clone(), watch_filter)
                }
            },
            None => (path.requested.clone(), watch_filter),
        };
        WatchMetadata {
            is_recursive: is_recursive || existing_is_recursive,
            is_dir,
            reported_path,
            is_user_watch: is_user_watch || existing_is_user_watch,
            user_is_recursive,
            watch_filter: filter,
        }
    }

    /// Whether a user rewatch with these parameters requests exactly the current watch, so
    /// the backend can skip the teardown and rebuild.
    pub fn rewatch_is_noop(&self, path: &WatchPath, requested_is_recursive: bool, watch_filter: &WatchFilter) -> (r: bool)
        ensures
            r == rewatch_noop(self@, path.requested@, requested_is_recursive, watch_filter.key()),
    {
        self.user_is_recursive == requested_is_recursive && same_path(&self.reported_path, &path.requested)
            && self.watch_filter.same_filter(watch_filter)
    }
}

/// A user watch reinstalled with exactly the parameters it was installed with is a no-op:
/// whatever was recorded before, the rewatch is recognised as requesting the current watch.
pub proof fn lemma_reinstalled_user_watch_is_noop(
    requested: Seq<char>,
    is_dir: bool,
    is_recursive: bool,
    existing: Option<MetadataView>,
    filter: Option<u64>,
)
    ensures
        rewatch_noop(merged_metadata(requested, is_dir, is_recursive, true, existing, filter), requested, is_recursive, filter),
{
}

/// A walk that lands on a user watch changes neither its reported path nor its filter, and
/// never takes away recursion or user ownership.
pub proof fn lemma_walk_keeps_user_watch(
    requested: Seq<char>,
    is_dir: bool,
    is_recursive: bool,
    existing: MetadataView,
    filter: Option<u64>,
)
    requires
        existing.is_user_watch,
    ensures
        merged_metadata(requested, is_dir, is_recursive, false, Some(existing), filter).reported_path == existing.reported_path,
        merged_metadata(requested, is_dir, is_recursive, false, Some(existing), filter).filter == existing.filter,
        merged_metadata(requested, is_dir, is_recursive, false, Some(existing), filter).is_user_watch,
        merged_metadata(requested, is_dir, is_recursive, false, Some(existing), filter).user_is_recursive == existing.user_is_recursive,
        existing.is_recursive ==> merged_metadata(requested, is_dir, is_recursive, false, Some(existing), filter).is_recursive,
{
}

/// `path` made absolute against `current_dir`.
pub open spec fn absolute_spec(path: Seq<char>, current_dir: Seq<char>) -> Seq<char> {
    if path_is_absolute(path) {
        path
    } else {
        path_join(current_dir, path)
    }
}

/// `path` made absolute against `current_dir` if it is relative, in the normal form of its
/// components, so that two paths with the same components are the same string.
pub fn absolute_path(path: &str, current_dir: &str) -> (r: String)
    ensures
        r@ == path_normal(absolute_spec(path@, current_dir@)),
{
    if is_absolute(path) {
        normalize(path)
    } else {
        let joined = join(current_dir, path);
        normalize(joined.as_str())
    }
}

/// How `path`, below the root whose absolute form is `root_absolute`, is reported: the part
/// below the root appended to the root as the user asked for it; the root itself is reported
/// as asked.
pub open spec fn reported_spec(root_absolute: Seq<char>, root_requested: Seq<char>, path: Seq<char>) -> Seq<char> {
    match path_strip_prefix(path, root_absolute) {
        Some(rel) => if rel.len() > 0 {
            path_join(root_requested, rel)
        } else {
            root_requested
        },
        None => root_requested,
    }
}

/// How `path`, below the root `root_absolute` that the user asked for as `root_requested`,
/// is reported (see [`reported_spec`]).
pub fn reported_path(root_absolute: &String, root_requested: &String, path: &String) -> (r: String)
    ensures
        r@ == reported_spec(root_absolute@, root_requested@, path@),
{
    match strip_prefix(path.as_str(), root_absolute.as_str()) {
        Some(relative) => {
            if !relative.as_str().is_empty() {
                join(root_requested.as_str(), relative.as_str())
            } else {
                root_requested.clone()
            }
        },
        None => root_requested.clone(),
    }
}

/// A user watch as the barrier checks see it.
#[derive(Clone, Debug)]
pub struct UserWatch {
    pub path: String,
    /// The path with every symbolic link resolved, when that could be done.
    pub canonical: Option<String>,
    pub is_dir: bool,
    pub is_recursive: bool,
    pub filter: WatchFilter,
}

/// The abstract content of a [`UserWatch`].
pub ghost struct UserWatchView {
    pub path: Seq<char>,
    pub canonical: Option<Seq<char>>,
    pub is_dir: bool,
    pub is_recursive: bool,
    pub filter: Option<u64>,
}

/// An optional path, as characters.
pub open spec fn opt_view(o: Option<String>) -> Option<Seq<char>> {
    match o {
        Some(s) => Some(s@),
        None => None,
    }
}

impl View for UserWatch {
    type V = UserWatchView;

    open spec fn view(&self) -> UserWatchView {
        UserWatchView {
            path: self.path@,
            canonical: opt_view(self.canonical),
            is_dir: self.is_dir,
            is_recursive: self.is_recursive,
            filter: self.filter.key(),
        }
    }
}

/// Whether a filter allows watching a directory: an accept-all filter allows every one;
/// another must allow the path itself (`allows_path`) and, for a symbolic link whose target
/// could be resolved (`target_allowed`), the target too, so that an excluded directory
/// cannot be watched through a link.
pub open spec fn filter_allows_dir_spec(filter: Option<u64>, allows_path: bool, is_symlink: bool, target_allowed: Option<bool>) -> bool {
    filter is None || (allows_path && (is_symlink && target_allowed is Some ==> target_allowed->0))
}

/// Whether `filter` allows watching a directory (see [`filter_allows_dir_spec`]): what the
/// filter answers for the path (`allows_path`) and, for a symbolic link, for its resolved
/// target (`target_allowed`, none when it could not be resolved).
pub fn filter_allows_dir(filter: &WatchFilter, allows_path: bool, is_symlink: bool, target_allowed: Option<bool>) -> (r: bool)
    ensures
        r == filter_allows_dir_spec(filter.key(), allows_path, is_symlink, target_allowed),
{
    if filter.is_accept_all() {
        return true;
    }
    if !allows_path {
        return false;
    }
    if is_symlink {
        if let Some(t) = target_allowed {
            return t;
        }
    }
    true
}

/// Whether the filter of a watch rejects its own root: only a directory root under a filter
/// that is not accept-all can be, when the filter does not allow it (see
/// [`filter_allows_dir_spec`]).
pub fn root_rejected(filter: &WatchFilter, is_dir: bool, allows_path: bool, is_symlink: bool, target_allowed: Option<bool>) -> (r: bool)
    ensures
        r == (is_dir && filter.key() is Some && !filter_allows_dir_spec(filter.key(), allows_path, is_symlink, target_allowed)),
{
    if !is_dir || filter.is_accept_all() {
        return false;
    }
    !filter_allows_dir(filter, allows_path, is_symlink, target_allowed)
}

/// Whether `path` lies below `prefix`, comparing each of them as given and, where known,
/// with its symbolic links resolved.
pub open spec fn any_starts_with_spec(
    path: Seq<char>,
    canonical_path: Option<Seq<char>>,
    prefix: Seq<char>,
    canonical_prefix: Option<Seq<char>>,
) -> bool {
    ||| path_starts_with(path, prefix)
    ||| (canonical_path matches Some(c) && path_starts_with(c, prefix))
    ||| (canonical_prefix matches Some(cp) && path_starts_with(path, cp))
    ||| (canonical_path matches Some(c) && canonical_prefix matches Some(cp) && path_starts_with(c, cp))
}

/// Whether `path` lies below `prefix` (see [`any_starts_with_spec`]).
pub fn any_starts_with(
    path: &String,
    canonical_path: &Option<String>,
    prefix: &String,
    canonical_prefix: &Option<String>,
) -> (r: bool)
    ensures
        r == any_starts_with_spec(path@, opt_view(*canonical_path), prefix@, opt_view(*canonical_prefix)),
{
    if starts_with(path.as_str(), prefix.as_str()) {
        return true;
    }
    if let Some(c) = canonical_path {
        if starts_with(c.as_str(), prefix.as_str()) {
            return true;
        }
    }
    if let Some(cp) = canonical_prefix {
        if starts_with(path.as_str(), cp.as_str()) {
            return true;
        }
        if let Some(c) = canonical_path {
            if starts_with(c.as_str(), cp.as_str()) {
                return true;
            }
        }
    }
    false
}

/// Whether a new directory watch of `path` may not coexist with the user watch `w`: both are
/// directories at different paths, one of them has a filter, and one covers the other.
pub open spec fn conflicts_with(
    path: Seq<char>,
    canonical_path: Option<Seq<char>>,
    is_recursive: bool,
    filter: Option<u64>,
    w: UserWatchView,
) -> bool {
    &&& w.is_dir
    &&& w.path != path
    &&& !(filter is None && w.filter is None)
    &&& ((w.is_recursive && any_starts_with_spec(path, canonical_path, w.path, w.canonical))
        || (is_recursive && any_starts_with_spec(w.path, w.canonical, path, canonical_path)))
}

/// `r` is the first user watch of `ws` that a new watch conflicts with, or none if there is
/// none. A watch of something that is not a directory never conflicts.
pub open spec fn is_first_conflict(
    r: Option<Seq<char>>,
    path: Seq<char>,
    canonical_path: Option<Seq<char>>,
    path_is_dir: bool,
    is_recursive: bool,
    filter: Option<u64>,
    ws: Seq<UserWatchView>,
) -> bool {
    if !path_is_dir {
        r is None
    } else {
        match r {
            Some(p) => exists|i: int|
                0 <= i < ws.len() && conflicts_with(path, canonical_path, is_recursive, filter, #[trigger] ws[i])
                    && ws[i].path == p
                    && forall|j: int| 0 <= j < i ==> !conflicts_with(path, canonical_path, is_recursive, filter, #[trigger] ws[j]),
            None => forall|i: int| 0 <= i < ws.len() ==> !conflicts_with(path, canonical_path, is_recursive, filter, #[trigger] ws[i]),
        }
    }
}

/// The views of a list of user watches.
pub open spec fn user_watches_view(ws: Seq<UserWatch>) -> Seq<UserWatchView> {
    ws.map_values(|w: UserWatch| w@)
}

/// The path of the first existing user watch that a new directory watch of `path` may not
/// coexist with (see [`is_first_conflict`]).
pub fn filtered_watch_conflict(
    path: &String,
    canonical_path: &Option<String>,
    path_is_dir: bool,
    is_recursive: bool,
    watch_filter: &WatchFilter,
    user_watches: &Vec<UserWatch>,
) -> (r: Option<String>)
    ensures
        is_first_conflict(opt_view(r), path@, opt_view(*canonical_path), path_is_dir, is_recursive,
            watch_filter.key(), user_watches_view(user_watches@)),
{
    if !path_is_dir {
        return None;
    }
    let ghost ws = user_watches_view(user_watches@);
    let ghost cp = opt_view(*canonical_path);
    let mut i: usize = 0;
    while i < user_watches.len()
        invariant
            i <= user_watches@.len(),
            path_is_dir,
            ws == user_watches_view(user_watches@),
            cp == opt_view(*canonical_path),
            forall|j: int| 0 <= j < i ==> !conflicts_with(path@, cp, is_recursive, watch_filter.key(), #[trigger] ws[j]),
        decreases user_watches@.len() - i,
    {
        let candidate = &user_watches[i];
        assert(ws[i as int] == candidate@);
        if candidate.is_dir && !same_path(&candidate.path, path)
            && !(watch_filter.is_accept_all() && candidate.filter.is_accept_all())
        {
            let covers_new = candidate.is_recursive
                && any_starts_with(path, canonical_path, &candidate.path, &candidate.canonical);
            let new_covers = is_recursive
                && any_starts_with(&candidate.path, &candidate.canonical, path, canonical_path);
            if covers_new || new_covers {
                let found = candidate.path.clone();
                assert(conflicts_with(path@, cp, is_recursive, watch_filter.key(), ws[i as int]));
                assert(found@ == ws[i as int].path);
                assert(opt_view(Some(found)) == Some(ws[i as int].path));
                let ghost k = i as int;
                assert(0 <= k < ws.len() && conflicts_with(path@, cp, is_recursive, watch_filter.key(), ws[k])
                    && ws[k].path == found@
                    && forall|j: int| 0 <= j < k ==> !conflicts_with(path@, cp, is_recursive, watch_filter.key(), #[trigger] ws[j]));
                assert(is_first_conflict(opt_view(Some(found)), path@, cp, path_is_dir, is_recursive, watch_filter.key(), ws));
                return Some(found);
            }
        }
        i = i + 1;
    }
    None
}

/// The message of the error that refuses an overlapping filtered watch.
pub open spec fn overlap_message() -> Seq<char> {
    "a watch with a filter must not overlap another watch"@
}

/// Enforces both barriers of a filtered watch request before any backend state is touched:
/// a directory root that the filter itself rejects (`filter_rejects_root`, which the caller
/// learns from the filter, checking a symbolic link's target too) is refused with
/// `PathExcluded`, and a directory watch involving a filter may not overlap another user
/// directory watch in either direction. Accept-all watches may overlap; file watches never
/// conflict.
pub fn check_watch_barriers(
    absolute: &String,
    canonical_absolute: &Option<String>,
    requested: &String,
    is_dir: bool,
    is_recursive: bool,
    watch_filter: &WatchFilter,
    filter_rejects_root: bool,
    user_watches: &Vec<UserWatch>,
) -> (r: Result<(), Error>)
    ensures
        ({
            let excluded = is_dir && watch_filter.key() is Some && filter_rejects_root;
            &&& excluded ==> (r matches Err(e) && e.kind is PathExcluded && e.paths@.len() == 1 && e.paths@[0]@ == requested@)
            &&& !excluded ==> exists|c: Option<Seq<char>>| #![auto]
                is_first_conflict(c, absolute@, opt_view(*canonical_absolute), is_dir, is_recursive,
                    watch_filter.key(), user_watches_view(user_watches@))
                && match c {
                    None => r is Ok,
                    Some(p) => r matches Err(e) && e.kind matches ErrorKind::Generic(m) && m@ == overlap_message()
                        && e.paths@.len() == 2 && e.paths@[0]@ == requested@ && e.paths@[1]@ == p,
                }
        }),
{
    if is_dir && !watch_filter.is_accept_all() && filter_rejects_root {
        return Err(Error::path_excluded().add_path(requested.clone()));
    }
    let conflict = filtered_watch_conflict(absolute, canonical_absolute, is_dir, is_recursive, watch_filter, user_watches);
    match conflict {
        Some(conflicting) => {
            proof {
                reveal_strlit("a watch with a filter must not overlap another watch");
            }
            Err(Error::generic("a watch with a filter must not overlap another watch")
                .add_path(requested.clone())
                .add_path(conflicting))
        },
        None => Ok(()),
    }
}

/// A preserved user watch root and whether the user watches it recursively, as characters.
pub open spec fn roots_view(roots: Seq<(String, bool)>) -> Seq<(Seq<char>, bool)> {
    roots.map_values(|r: (String, bool)| (r.0@, r.1))
}

/// Whether the preserved root `root` covers `path`: it is the root, or below a recursive one.
pub open spec fn root_covers(path: Seq<char>, root: (Seq<char>, bool)) -> bool {
    path == root.0 || (root.1 && path_starts_with(path, root.0))
}

/// The mode of the first preserved root that covers `path`, if one does.
pub open spec fn preserved_mode_spec(path: Seq<char>, roots: Seq<(Seq<char>, bool)>) -> Option<bool>
    decreases roots.len(),
{
    if roots.len() == 0 {
        None
    } else if root_covers(path, roots[0]) {
        Some(roots[0].1)
    } else {
        preserved_mode_spec(path, roots.drop_first())
    }
}

/// Whether `path` is watched recursively by the first preserved user watch root that covers it,
/// if one does.
pub fn preserved_watch_mode(path: &String, preserved_roots: &Vec<(String, bool)>) -> (r: Option<bool>)
    ensures
        r == preserved_mode_spec(path@, roots_view(preserved_roots@)),
{
    let ghost all = roots_view(preserved_roots@);
    assert(all.skip(0) =~= all);
    let mut i: usize = 0;
    while i < preserved_roots.len()
        invariant
            i <= preserved_roots@.len(),
            all == roots_view(preserved_roots@),
            preserved_mode_spec(path@, all) == preserved_mode_spec(path@, all.skip(i as int)),
        decreases preserved_roots@.len() - i,
    {
        let (root, user_is_recursive) = &preserved_roots[i];
        let ghost rest = all.skip(i as int);
        assert(rest[0] == (root@, *user_is_recursive));
        assert(rest.drop_first() =~= all.skip(i + 1));
        if same_path(path, root) || (*user_is_recursive && starts_with(path.as_str(), root.as_str())) {
            return Some(*user_is_recursive);
        }
        i = i + 1;
    }
    proof {
        assert(all.skip(i as int) =~= Seq::<(Seq<char>, bool)>::empty());
    }
    None
}

/// Whether `path` is one of the preserved user watch roots.
pub fn is_preserved_watch_root(path: &String, preserved_roots: &Vec<(String, bool)>) -> (r: bool)
    ensures
        r == exists|i: int| 0 <= i < preserved_roots@.len() && (#[trigger] preserved_roots@[i]).0@ == path@,
{
    let mut i: usize = 0;
    while i < preserved_roots.len()
        invariant
            i <= preserved_roots@.len(),
            forall|j: int| 0 <= j < i ==> (#[trigger] preserved_roots@[j]).0@ != path@,
        decreases preserved_roots@.len() - i,
    {
        if same_path(path, &preserved_roots[i].0) {
            return true;
        }
        i = i + 1;
    }
    false
}

/// A watched entry and what is recorded of it, as characters.
pub open spec fn entries_view(watches: Seq<(String, WatchMetadata)>) -> Seq<(Seq<char>, MetadataView)> {
    watches.map_values(|e: (String, WatchMetadata)| (e.0@, e.1@))
}

/// The user watches strictly below `path`, with whether each is recursive: the ones that
/// survive a non-recursive removal of `path`.
pub open spec fn preserved_root_of(path: Seq<char>) -> spec_fn((Seq<char>, MetadataView)) -> Option<(Seq<char>, bool)> {
    |e: (Seq<char>, MetadataView)|
        if e.0 != path && path_starts_with(e.0, path) && e.1.is_user_watch {
            Some((e.0, e.1.user_is_recursive))
        } else {
            None
        }
}

/// The user watches below `path`, in the order of `watches`, that survive its removal: none
/// when the removal is recursive.
pub fn preserved_watch_roots(path: &String, remove_recursive: bool, watches: &Vec<(String, WatchMetadata)>) -> (r: Vec<(String, bool)>)
    ensures
        roots_view(r@) == (if remove_recursive {
            Seq::<(Seq<char>, bool)>::empty()
        } else {
            entries_view(watches@).filter_map(preserved_root_of(path@))
        }),
{
    let mut out: Vec<(String, bool)> = Vec::new();
    if remove_recursive {
        assert(roots_view(out@) =~= Seq::<(Seq<char>, bool)>::empty());
        return out;
    }
    let ghost all = entries_view(watches@);
    let ghost f = preserved_root_of(path@);
    let mut i: usize = 0;
    while i < watches.len()
        invariant
            i <= watches@.len(),
            all == entries_view(watches@),
            f == preserved_root_of(path@),
            roots_view(out@) == all.take(i as int).filter_map(f),
        decreases watches@.len() - i,
    {
        proof {
            all.lemma_filter_map_take_succ(f, i as int);
        }
        let (candidate, watch) = &watches[i];
        assert(all[i as int] == (candidate@, watch@));
        if !same_path(candidate, path) && starts_with(candidate.as_str(), path.as_str()) && watch.is_user_watch {
            out.push((candidate.clone(), watch.user_is_recursive));
        }
        assert(roots_view(out@) =~= all.take(i + 1).filter_map(f));
        i = i + 1;
    }
    assert(all.take(i as int) =~= all);
    out
}

/// The byte length of a path, as `str::len` gives it.
pub open spec fn byte_len(p: Seq<char>) -> usize {
    vstd::utf8::encode_utf8(p).len() as usize
}

/// Whether the entry `e` is a recursive user watch strictly above `path`.
pub open spec fn is_recursive_ancestor(path: Seq<char>, e: (Seq<char>, MetadataView)) -> bool {
    e.0 != path && path_starts_with(path, e.0) && e.1.is_user_watch && e.1.user_is_recursive
}

/// `r` is the nearest recursive user watch above `path` among `ws`, with its reported path: of
/// the longest ones, the last.
pub open spec fn is_nearest_recursive_ancestor(r: Option<(Seq<char>, Seq<char>)>, path: Seq<char>, ws: Seq<(Seq<char>, MetadataView)>) -> bool {
    match r {
        None => forall|j: int| 0 <= j < ws.len() ==> !is_recursive_ancestor(path, #[trigger] ws[j]),
        Some(found) => exists|i: int|
            0 <= i < ws.len() && is_recursive_ancestor(path, #[trigger] ws[i])
                && found == (ws[i].0, ws[i].1.reported_path)
                && (forall|j: int| 0 <= j < ws.len() && is_recursive_ancestor(path, #[trigger] ws[j])
                    ==> byte_len(ws[j].0) <= byte_len(ws[i].0))
                && (forall|j: int| i < j < ws.len() && is_recursive_ancestor(path, #[trigger] ws[j])
                    ==> byte_len(ws[j].0) < byte_len(ws[i].0)),
    }
}

/// A pair of optional paths, as characters.
pub open spec fn pair_view(r: Option<(String, String)>) -> Option<(Seq<char>, Seq<char>)> {
    match r {
        Some(p) => Some((p.0@, p.1@)),
        None => None,
    }
}

/// Finds the nearest recursive user watch covering `path`, returning its path and reported
/// path. Backends use it when an explicit watch that also inherits recursive coverage from
/// an ancestor is replaced, so the rebuilt subtree keeps the paths users expect.
pub fn recursive_user_watch_ancestor(path: &String, watches: &Vec<(String, WatchMetadata)>) -> (r: Option<(String, String)>)
    ensures
        is_nearest_recursive_ancestor(pair_view(r), path@, entries_view(watches@)),
{
    let ghost ws = entries_view(watches@);
    let mut best: Option<usize> = None;
    let mut best_len: usize = 0;
    let mut i: usize = 0;
    while i < watches.len()
        invariant
            i <= watches@.len(),
            ws == entries_view(watches@),
            best is None ==> forall|j: int| 0 <= j < i ==> !is_recursive_ancestor(path@, #[trigger] ws[j]),
            best matches Some(b) ==> b < i && is_recursive_ancestor(path@, ws[b as int])
                && best_len == byte_len(ws[b as int].0)
                && (forall|j: int| 0 <= j < i && is_recursive_ancestor(path@, #[trigger] ws[j])
                    ==> byte_len(ws[j].0) <= best_len)
                && (forall|j: int| b < j < i && is_recursive_ancestor(path@, #[trigger] ws[j])
                    ==> byte_len(ws[j].0) < best_len),
        decreases watches@.len() - i,
    {
        let (candidate, watch) = &watches[i];
        assert(ws[i as int] == (candidate@, watch@));
        let qualifies = !same_path(candidate, path) && starts_with(path.as_str(), candidate.as_str())
            && watch.is_user_watch && watch.user_is_recursive;
        assert(qualifies == is_recursive_ancestor(path@, ws[i as int]));
        if qualifies {
            let len = candidate.as_str().len();
            match best {
                None => {
                    best = Some(i);
                    best_len = len;
                },
                Some(_) => {
                    if len >= best_len {
                        best = Some(i);
                        best_len = len;
                    }
                },
            }
        }
        i = i + 1;
    }
    match best {
        None => None,
        Some(b) => {
            let (candidate, watch) = &watches[b];
            assert(ws[b as int] == (candidate@, watch@));
            let r = Some((candidate.clone(), watch.reported_path.clone()));
            assert(pair_view(r) == Some((ws[b as int].0, ws[b as int].1.reported_path)));
            r
        },
    }
}

} // verus!
