# amux

A command-line companion for tmux that finds AI coding agents (Amp, Codex,
Gemini CLI, OpenCode, Pi) running in panes, reports their status, and jumps to
the pane of a chosen agent.

## Layout

- `src/` is the library, verified with Verus:
  - `tmux.rs`: the pane listing and its parser, and switching panes through a
    `TmuxRunner` that the caller supplies.
  - `agent/`: the process table parsed from `ps` output and its tree walk, the
    providers that detect agents in pane process trees, the rules for the shared
    per-pane status files, and the pass that attaches their statuses.
  - `cli/`: what `list`, `status` and `setup` compute: the fzf lines and the
    selection, the statusline summary, install paths and versions, and the merge
    of the Codex hooks configuration (`cli/json.rs` models JSON values).
  - `text.rs`, `paths.rs`: the text and path operations the rest is specified
    with.
- `app/` is the program around it: argument parsing, threads, tmux, `ps`, fzf,
  the file system and the clock.
- `tests/` runs the library on concrete inputs.
