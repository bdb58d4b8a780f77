# notify

Cross-platform file system notification. What the backends decide (which events a
notification gives, which watches change, which handles to open) is verified by Verus; the
calls into each platform stay outside the library.

The library (`src/`) holds what the watchers decide, as functions from plain values to plain
values with contracts:

- `config`: watch modes and their upgrade (a least upper bound), the watcher configuration.
- `fs_event`: the file system events, as plain values.
- `paths`, `watch_table`, `ancestors`, `assoc`, `path_ops`: the bookkeeping of watched paths
  shared by the backends — how a path is reported, which watches conflict, which paths are
  watched, and how many tracked roots lie below each ancestor directory.
- `inotify`, `kqueue`, `freebsd_version`: what a Linux inotify or BSD kqueue notification
  reports and which watch changes it asks for; the FreeBSD release string.
- `fsevent`, `fsevent_flags`, `fsevent_stream`, `fsevent_budget`: the translation of FSEvents
  flags into events, which notifications a stream delivers, the paths a stream carries, and
  the path budget that the streams of a process share.
- `windows`: the ReadDirectoryChangesW records, the normal form of their paths, the
  resolution of user watches and the convergence of the open handles with them.
- `watcher`: the watcher kinds, the stub watcher, and batched path updates.

`app/` holds the parts that do I/O: the conversions to the event types of the notify
ecosystem, the event handler and watcher traits, and the Linux backend that reads the
kernel's notifications and hands them to the library. The kqueue, FSEvents and Windows
backends are present as their decisions only: the platform bindings that would drive them
are not among the dependencies.

Paths are held as UTF-8 strings: a path that the user asks for and that is not UTF-8 is
refused, and one that the kernel names is converted with replacement characters.

`tests/` runs the library on concrete values.
