# tianxuan

The core of Tianxuan Desktop, a server-management tool for SSH hosts and
their web panels, written in Verus: each function carries a contract that
Verus proves.

Layout:

- `src/text.rs` — a model of the string operations the parsers use
  (Unicode whitespace, lines, words, trimming, searching, `u64` parsing) and
  their executable counterparts.
- `src/stamps.rs` — fresh identifiers and timestamps.
- `src/models/` — hosts and panels.
- `src/services/metrics.rs` — parsers of `/proc/stat`, `free -m`,
  `/proc/diskstats`, `/proc/net/dev`, `df -h` and `uptime`, and of the
  sections of the collection script.
- `src/services/host_service.rs`, `panel_service.rs` — records as table rows,
  with the laws that a written row reads back as the record.
- `src/services/ssh_client.rs` — connection settings, the collection of a
  command's output, and the trust-on-first-use check of host keys.
- `src/services/sftp_client.rs` — directory entries and their listing order.
- `src/services/registry.rs` — a keyed list with distinct keys, on which the
  terminal sessions and the panel tabs are kept.
- `src/services/terminal.rs`, `panel_tabs.rs`, `batch.rs` — sessions, tabs and
  batch results.
- `src/commands.rs` — the decisions of the front end's commands.
- `app/` — the I/O around the library: SQLite, the system keyring, SSH and
  SFTP over russh, the metrics rates (floating point), and the commands.
- `tests/` — tests of the library.
