# Road to Riches companion

A companion for Elite Dangerous explorers following a "Road to Riches"
route: it loads the route (a CSV file of systems and bodies), follows the
game's journal to record FSS scans and DSS mappings as they happen, and shows
the progress and the estimated value of the scans.

## Layout

- `src/` — the verified library (Verus):
  - `travel` — bodies and systems, when a body counts as a star and as done;
  - `csv_logic` — grouping the rows of the route file into systems and
    flattening them back for saving, with the proof that a saved route
    reloads unchanged;
  - `log_watcher` — what a journal line reports, and how far a journal file
    has been read;
  - `tracking` — recording journal scans on the route, with the proofs that
    scans are recorded once, only ever add, and ask for one sound each;
  - `history` — the current target system and the value of a system's scans;
  - `settings`, `i18n`, `sound`, `update`, `constants`, `text`.
- `app/` — the program around it: the egui window, file and journal I/O,
  audio, the settings file and the GitHub update check.
- `tests/` — tests of the library.
