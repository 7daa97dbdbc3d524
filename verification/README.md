# notetui

A terminal client for Misskey timelines, with a library verified by Verus.

- `src/` is the library: the state of the screen and the keys that change it (`app`),
  notes and their wrapped text (`note`, `wrap`, `text`), styled lines (`style`), the
  division of the screen (`layout`, `list`), the timelines (`timeline`), logging in
  (`login`), the command line (`command`) and where the account store is (`paths`).
  Each function states what it does in its contract; the proof functions whose names
  begin with `law_` state what holds across functions.
- `app/` is the program around it: it reads keys, draws with ratatui, and reaches the
  server and the account store through `notecli`, which is a git dependency.
- `tests/` runs the library on concrete values.

| Key | What it does |
|-----|--------------|
| `q` / `Esc` | quit |
| `j` / `k`, `Down` / `Up` | move the selection |
| `g` / `G`, `Home` / `End` | first / last note |
| `r` | fetch again |
| `Tab` / `l`, `BackTab` / `h` | next / previous timeline |
