# hop

Jump between parallel coding-agent instances running in tmux panes: a fuzzy
picker, a "jump to the latest idle instance" command, a one-line status for
the tmux status bar, and desktop notifications from the agent's hooks.

Layout:

- `src/` — the verified library (Verus). Each function states what it
  returns in its contract; the laws of the library are proof functions.
  - `session`: session files, instances, the order in which they are shown,
    the jump target.
  - `picker`: the picker's state machine (search, filtered list, selection,
    keys), fuzzy ranking, and the text of each row.
  - `multiplexer`: multiplexer detection, pane process ids, the walk up the
    process tree (a state machine driven by the caller), tmux pane listings.
  - `event`, `notification`: which hook events notify, what the
    notification says, and the command that shows it.
  - `status`: the status-bar line.
  - `order`, `text`: stable ordering by key, and the string handling the
    rest relies on (trimming, splitting, parsing), stated over characters.
- `app/` — the program: command line, file and process I/O, the terminal UI.
- `tests/` — tests of the library.
