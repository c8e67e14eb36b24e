# sure-rm

`sure-rm` works like `rm`, but moves what it deletes into a recoverable
trash store (`~/.sure-rm`, or `$SURE_RM_ROOT`). Entries can be listed,
restored by id or by original path, and purged; `SURE_RM_TTL` makes old
entries expire.

The decisions of the tool are a library verified with Verus:

- `src/cli.rs` — command-line parsing: modes, subcommands, `rm`-style
  options, the `-s`/`--sure` bypass to the system command, help texts.
- `src/store.rs` — trash records, ids, time-to-live settings, metadata file
  locations, the choice of the latest record of a path, listing order.
- `src/record.rs` — the text format of a metadata file, written and read back.
- `src/hex.rs` — hex encoding of paths inside metadata.
- `src/path.rs` — Unix paths as bytes: components, joining, parents, file
  names, collapsing `.` and `..`.
- `src/commands.rs` — prompting rules, safety checks on targets, how a
  path is removed.
- `src/color.rs` — ANSI colors for terminals.
- `src/text.rs` — characters, trimming and decimal numbers.

Each public function states its result in `ensures`; the `law_*` proof
functions state properties that span several functions (a record reads
back as written, hex decoding undoes encoding, made ids are valid, a valid
id stays inside the metadata directory, collapsing a path twice changes
nothing, and more).

`app/` holds the program around the library: reading the environment and
the terminal, touching the filesystem, running the system `rm`, printing.
