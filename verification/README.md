# mux

A terminal multiplexer for long-running scripts. It runs the scripts of a configuration file side
by side, shows their output in one log, restarts them when they end, and follows changes of the
file while it runs.

    [[scripts]]
    name = "web"
    cmd = "npm run dev"

    [[scripts]]
    name = "api"
    cmd = "cargo run"

    [[urls]]
    name = "app"
    url = "http://localhost:3000"

Keys: `1` to `9` hide and show the output of a script, `r` picks a script to restart, `o` picks an
address to open, `q` and control-c shut down.

## Layout

- `src/` holds the rules of the program, verified with Verus.
  - `config`: which configurations are accepted.
  - `display`, `text`: the lines of the log.
  - `script`, `reload`: the scripts, and what a new configuration does to them.
  - `step`, `mux`: what every event does to the state, as a model and as code.
  - `process`, `supervise`: input, the watch on the configuration file, and supervisors.
  - `terminal`, `draw`, `screen`: what goes where on the screen. `screen` holds the calls of
    ratatui, with what the proofs rely on of them.
  - `laws`, `reload_laws`, `supervise_laws`, `supervisors`: what holds of every run.
- `app/` is the program around them: processes, threads, files and the terminal.
- `tests/` run the library.
