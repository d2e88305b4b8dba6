# convenience_tools

The logic of a desktop helper — web-view ad-window blocking, folder-to-folder
file synchronisation, a rolling log, logon-task management and a browser for the
files of an offline VirtualBox disk — as a library verified with Verus, and a
small headless runner around it.

## Layout

- `src/` — the verified library. Every function states what it returns or
  changes in `requires`/`ensures`; the laws that relate several functions are
  public proof functions beside them.
  - `sync/` — the synchronisation engine as a state machine (`engine`, `step`),
    run outcomes and failure reasons, the resume cursor, the scheduler's rules,
    the failure list, run history entries, and job-list edits and run requests.
  - `scanner` — the ad-window scan as a state machine; `platform` — window-class
    rules, placement capture and restore checks, service and task states.
  - `logging` — log line format, calendar arithmetic, rolling and retention.
  - `config`, `interval`, `paths`, `state`, `watch`, `tray` — settings rules,
    interval parsing and formatting, data-folder paths, panel state, the
    real-time watch book and debounce, and the tray menu.
  - `guest`, `guest_tree`, `guest_copy` — guest paths and selection, the folder
    tree, and the checks and summaries of copying guest files out.
  - `startup` — the state the program starts from, taken from the settings.
  - `text` — character-sequence helpers; building a `String` from characters is
    the library's only trusted function.
- `tests/` — tests run against the compiled library.
- `app/` — the runner: it reads and writes the settings file, drives the sync
  engine over the real file system, runs the scanner loop and the logger, and
  calls `schtasks`. The state machines decide; the runner performs the actions
  they ask for and hands back the answers.

Run `app` with `--once` to run every enabled sync job one time, or with
`--task-state`, `--install-task`, `--uninstall-task` or `--run-task` to manage
the logon task.
