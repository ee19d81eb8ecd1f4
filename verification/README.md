# lifemaint

Track and complete recurring home and life maintenance tasks. Plain files are
the source of truth (`tasks.yaml`, `vendors.yaml` and the append-only event
log `completions.jsonl`), and the `lm` command line reads and updates them.

## Layout

- `src/` — the library, verified with Verus. Each public operation states
  in its contract what it returns:
  - `date`, `text`: civil dates and the text handling the formats need;
  - `schedule`: intervals (`6 months`, `weekly`), relative and
    calendar-fixed schedules (`yearly` on `10-15`, `monthly` on `31`, with
    the day clamped to short months), and the parsing of `every`/`on`;
  - `model`, `schema`: the data-file records and the domain types;
  - `status`: the engine that folds the event log over the tasks into a
    last-done date, a next-due date, a prep-window date and an urgency
    bucket, with its laws (latest completion wins, the latest event decides
    a pending punt, other tasks' events are ignored wherever they stand, a
    repeated event changes nothing, the buckets partition the days and only
    move forward as the days pass);
  - `store`: file names, the conversion of parsed entries, vendor-reference
    checks and the line discipline of the event log;
  - `config`: where the data directory comes from (`LM_DATA_DIR`, then the
    config file);
  - `service`, `report`: the operations behind each command (`list`, `show`,
    `due`, `done`, `punt`, `history`, `vendors`, `export`, `report`);
  - `cli`: the dollar-amount parser and the bucket markers.
- `tests/` — tests of the library on concrete values.
- `app/` — the `lm` binary: argument parsing, the clock, the environment,
  reading and writing files, git commits and printing. It hands what it reads
  to the library and prints what the library returns. Shell completion of
  task and vendor ids (`COMPLETE=bash lm`) comes from `clap_complete`; the
  candidate lists come from the library.

Day numbers (`date::day_number`) state what adding days to a date means.
Calls into `jiff` (date arithmetic) and `serde_json` (reading an event-log
line) are made by the library through small trusted wrappers whose contracts
say what those crates document.
