# Signal Profiles

Run several Signal Desktop accounts side by side on Ubuntu, each with its own
data folder under `~/Signal` and its own entry in the app menu.

## Layout

- `src/` is the library, verified with Verus: profile names and their fixes,
  the locations on disk, human-readable sizes, which profile gets a Signal
  link, which processes are Signal, the launcher (`.desktop`) text and how
  launchers are recognised, locking the default Signal, what creating,
  deleting, repairing and launching come to, and every text the window shows.
  Each public function states its result in its `ensures`. The Trash and the
  launcher are supplied by the caller; the store keeps each with a record of
  what it has been asked (`src/asked.rs`), and deleting and launching state
  exactly what they ask of them, in what order, and what they answer. The
  `pub proof fn`
  items state what holds across functions (a written launcher is found again
  and named after its profile, repair leaves hand-made launchers alone, a
  locked default never gets links, and so on).
- `app/` is the GTK application around it: it reads the disk and `/proc`,
  hands what it found to the library, and carries out what the library
  decides (writing launchers, moving to the Trash, starting Signal).
- `tests/` runs the library on concrete values.

## How profiles are stored

| What | Where |
|---|---|
| Profile data | `~/Signal/<name>/` |
| App menu entry | `~/.local/share/applications/Signal-<name>.desktop` |
| Default Signal (snap) | `~/snap/signal-desktop/current/.config/Signal` |
| App settings | `~/.config/multisignal/settings.ini` |
