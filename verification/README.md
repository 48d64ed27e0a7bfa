# webls

A file server for a folder on this machine, and the clients that browse it,
select entries and download them. The logic is a Verus library whose functions
carry `requires`/`ensures` contracts proved by Verus; a thin program around it
does the networking, the disk work and the process spawning.

Layout:

- `src/` — the verified library:
  - `path.rs`, `text.rs`: paths split into components as `std::path` splits them
    on unix (file names, extensions, joins, parents, prefixes taken off, changed
    extensions, each with the text that `std::path` gives); and text helpers.
  - `unit.rs`, `extensions.rs`, `order.rs`, `delivery.rs`: listed entries, how a
    listing types files by extension and orders them (folders, videos, audio,
    other files, each by name).
  - `select.rs`, `browse.rs`: the selection and the browser's state machine.
  - `queue.rs`: the desktop client's download queue (at most five transfers run;
    every file is in exactly one list), which transfers to start next, and the
    collection of the files under selected folders, a listing at a time.
  - `transfer.rs`: the other client's downloads, kept under the hash of their
    path, its windows, and how each message of its download window changes them.
  - `server.rs`, `screens.rs`, `media.rs`, `icons.rs`, `lsblk.rs`,
    `prerequisites.rs`, `pages.rs`: the server's settings and request plans, the main
    window's pages and the serving screens, the numbered query pairs that name folders, icons, partitions to
    mount, what the user types, and the web file list's keys and double clicks.
- `tests/` — tests of the library on concrete values.
- `app/` — the program: `webls <folder> [port]` serves the folder over HTTP.
