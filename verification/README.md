# runflow

`flow` tracks work from idea to shipped code in files that outlive the
session: a flow of stages in `.flow/flow.toml`, and one markdown file per run
recording which stage the work is on, a handoff for whoever picks it up next,
and an append-only log.

## Layout

- `src/` — the library, verified with Verus. Every public function states
  what it returns or changes; `src/laws.rs`, `init.rs` and `run_file.rs` hold
  the properties that span functions (a run's stages stay in order through
  every move, reopening undoes finishing, the log only grows, running
  `flow init` twice changes nothing, a run file reads back what was written).
  - `run.rs`, `transitions.rs`, `drift.rs`, `select.rs`: runs and their moves.
  - `flow.rs`, `config.rs`, `preset_path.rs`, `presets.rs`, `listing.rs`,
    `preset_name.rs`: flows, settings and the Preset Path.
  - `status.rs`, `html.rs`, `lifecycle.rs`, `agent.rs`, `error.rs`: what each
    command prints, the board, and the hand-over to an agent.
  - `init.rs`: the `AGENTS.md` block, the adapter and `.flow/.gitignore`.
  - `text.rs`, `path.rs`, `table.rs`: text, paths and sorted tables.
- `app/` — the `flow` program: argument parsing, the file system, TOML, the
  environment and launching an agent. It hands the library plain values.
- `tests/` — tests of the library on concrete values.
