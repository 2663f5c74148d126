# fluxus

A terminal interface to `arduino-cli`: the boards of a project, the ports they are
plugged into, the sketches they run, and a serial monitor for each.

- `src/` is the program without the terminal: a state that keys and events change, what
  it asks to be done outside, and what is on the screen. Every function has a contract,
  and Verus proves it. The exceptions are the functions of the standard library, of
  `serde_json` and of `ratatui` that it calls through a declared contract: in `text`,
  `cli` and `ui/views`, each with what is taken on trust.
  - `app/` the state and what changes it; `laws` says what holds of every state
  - `cli` the commands, what their answers mean, and the lines they print
  - `project`, `settings`, `sketch` the files, and which board has which port
  - `ui/` the texts on the screen, with their tones
  - `text`, `lists` what the rest is built from
- `app/` is the terminal, the disk and the processes around it.
- `tests/` runs the library on concrete values.
