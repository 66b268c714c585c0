# espanso_settings

The logic of espanso's Settings window, verified with Verus: the matches the
window owns and their metadata, the window's state machine, the checks behind
the folder actions (open an existing configuration, create a new one, copy it
elsewhere, export and import a backup), where the configuration folder comes
from, and the header patch applied when wxWidgets is built.

## Layout

- `src/` — the verified library.
  - `matches.rs`, `meta.rs` — `match/ui.yml` and `match/ui-meta.json`:
    identity, validation, loading, save plans, and the proof that a load gives
    back what a save wrote.
  - `model.rs` — the window's state and how each message changes it, with the
    laws of tab switching, deletion and undo, and filtering.
  - `inventory.rs` — the read-only list of matches from other files.
  - `folders.rs`, `adopt.rs`, `scaffold.rs`, `migration.rs`, `backup.rs`,
    `location.rs` — the decisions of the folder actions, taken on what the
    file system reports.
  - `window.rs` — tab indices, new ids, list rows and status lines.
  - `wx_gdiplus.rs` — the `setup.h` patch, the proof that it succeeds
    exactly when each marker is found once, and the proof that patching a
    patched header changes nothing.
  - `calendar.rs` — the UTC date and minute of a clock reading, as the
    `YYYYMMDD-HHMM` stamp of export names.
  - `text.rs`, `clock.rs` — string primitives and the system clock.
- `app/` — ordinary Rust around the library: file and archive I/O, YAML and
  JSON, the single-instance lock, and the process that opens the window.
- `tests/` — the tests.
