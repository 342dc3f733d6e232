# logwatch

A real-time log monitor: it follows log files in watched directories (or
lines piped on standard input), filters them with regular expressions,
colors them by severity, keeps a searchable history, and counts activity
per time bucket, severity and file.

- `src/` is the library, verified with Verus: severity detection, path
  rendering, filters, the bounded search history, the activity statistics
  and their reports, the configuration and command-line settings, the
  parsing of piped input, the decisions of following files, and the
  decisions of the interactive display loop (each step from state and event
  to new state and commands).
- `app/` is the program around it: argument parsing, the TOML
  configuration file, the file watcher, the terminal and the export file,
  and JSON serialization of the stats report.
- `tests/` exercises the library on concrete values.
