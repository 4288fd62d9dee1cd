# stattracker

The verified core of StatTracker, a desk widget that records reference-desk
question tallies, keeps them in a local queue while the network is down and
sends them to a web app.

- `src/` is the library, verified with Verus:
  - `config` — the configuration, its defaults and normalization, storage
    and template paths;
  - `paths` — paths read by the Unix or the Windows rules of `std::path`:
    prefixes, components, absoluteness, joining and containment;
  - `sync` — the state machine that drains the local tally queue, and the
    laws about which tallies it posts and marks;
  - `json` — JSON documents as plain values, parsed by `serde_json`, and
    member lookup;
  - `api` — addresses, certificate policy and the reading of server answers;
  - `updates` — version numbers and release notes;
  - `commands` — the decisions behind the widget's commands (bootstrap data,
    template cycling and sorting, saving settings, window placement);
  - `db` — the stored records; `text` — character-level helpers; `error`.
- `tests/` runs the library on concrete values.
- `app/` is the Tauri program around it: files, SQLite, HTTP, windows and the
  loop that performs the drain machine's actions.
