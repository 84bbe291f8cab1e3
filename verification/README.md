# chobits

A terminal companion for Zellij: a plugin posts snapshots of the focused
pane, a daemon asks a language model for a short reaction, shows it in a
scrollback bar and plays a matching expression on a Live2D model through the
VTube Studio API (or an OSF face over UDP).

The decisions are a library verified with Verus; the programs around it are
ordinary Rust.

## Layout

- `src/` — the verified library, one module per concern:
  - `text`, `paths`: character-sequence models of strings and paths, and the
    few trusted wrappers around std that the rest builds on;
  - `http`, `snapshot`, `viewport`, `proxy`, `session`, `plugin`: the
    snapshot pipeline from the plugin to the daemon;
  - `zellij`, `config`, `launcher`: the Zellij layout, the permission cache,
    the configuration defaults and the launcher's command lines;
  - `labels`, `vts`: hotkey labels, the alias tables and the expression
    player's plans and motion-wait state machine;
  - `llm`: prompts, request bodies and the reading of replies;
  - `bar`: the scrollback model of the reaction bar;
  - `osf`: frames of OSF expressions and the cursor that sends them;
  - `daemon`: body reading, the snapshot history and the monologue.
- `tests/` — tests of the library on concrete values.
- `app/` — the programs: I/O, sockets, async loops, terminal drawing and the
  serde copies of the configuration types.

Each module states its contracts over spec functions on `Seq`s; the
properties that relate several calls stand as `law_*` proof functions.
