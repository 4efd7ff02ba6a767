# moon-tui

A terminal UI for browsing and running [Moon](https://moonrepo.dev) workspace tasks, with its
logic verified by Verus.

## Layout

- `src/` is the library. Its functions are proved against their contracts; what is taken on trust
  of `vt100`, `ratatui` and the standard library is stated where it is called.
  - `text`, `ansi`: white space, numbers, escape sequences and the colors that they set.
  - `terminal`, `shown`: the screen of the `vt100` emulator and the lines that it shows.
  - `moon`: what Moon is asked and what it answers; replies to device queries.
  - `output`: the output of one run, and how messages change it.
  - `app`, `runs`, `actions`, `updates`: the state, and what actions and updates do to it.
  - `keys`, `event_loop`, `runner`: keys, the decisions of the event loop, and how a run goes.
  - `ui`: what is drawn.
  - `laws`: what holds over several calls and in every state.
- `app/` is the program around it: the terminal, processes, channels and JSON.
- `tests/` runs the library.

## Keys

| Key | Action |
|-----|--------|
| `h`/`l` or arrows | Navigate between Projects and Tasks panels |
| `j`/`k` or arrows | Move selection down/up |
| `Enter` | Run selected task |
| `I` | Run task interactively (PTY) |
| `R` | Force-run task (bypass cache) |
| `r` | Refresh project/task list |
| `?` | Toggle help overlay |
| `q` or `Ctrl-C` | Quit |
