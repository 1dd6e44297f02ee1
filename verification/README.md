# Storage Cleaner

A desktop tool that scans drives for large files and unused programs and
helps clear them out. The decisions it makes are a library verified with
Verus; the window, the file system, the network and the Windows services
are plain Rust around it.

## Layout

- `src/` — the verified library:
  - `scanner.rs`: file categories, skipped system locations, file and
    executable entries, the big-files filter, unused executables;
  - `insights.rs`: totals per extension, top-level folder and category, the
    largest and the stale files of a scan (with `groups.rs`, `tally.rs`,
    `ranking.rs` for counting and stable ordering);
  - `mft.rs`: file paths from an NTFS master file table;
  - `ipc.rs`: messages between the interface and the scanning service;
  - `ai.rs`, `analysis.rs`: chat requests and replies, and what the
    disk-analysis view asks and counts;
  - `snapshot.rs`, `listing.rs`: snapshots of a scan and their listing;
  - `prefetch.rs`, `time.rs`: last-run times and timestamps;
  - `clean.rs`, `selection.rs`, `config.rs`, `sizes.rs`, `paths.rs`,
    `text.rs`, `textmap.rs`: folders to clean, deleting selected rows,
    settings locations, size formatting, paths and text.
- `tests/` — tests of the library on concrete values.
- `app/` — the egui application, drive walking, HTTP, the scanning service
  and the JSON forms of settings, snapshots and messages.
