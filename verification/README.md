# shhhfs

A read-only virtual file system for secrets. The secrets come from a
provider (a JSON object given as options); each member becomes a file
directly inside the mount point. A file opens only when the user approves
the access, and its contents are read only through the handle of such an
approved open.

- `src/` is the verified library: the JSON provider (`provider/`), the file
  system's answers to lookup, getattr, open, read and readdir (`fs.rs`,
  `reply.rs`), the mount and unmount decisions (`command/`), the command-line
  types (`cli.rs`, `onepfs.rs`), the byte order that names are sorted by
  (`order.rs`), and the properties that tie these together (`laws.rs`).
- `app/` is the program around it: argument parsing, the FUSE session,
  signals, running the unmount programs, asking the user for approval, and
  messages to the terminal.
- `tests/` runs the library on concrete inputs.
