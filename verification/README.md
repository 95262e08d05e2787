# sentry-cli

The decisions behind a command line client for release and crash tracking, verified with
Verus.

- `src/` is the library. Every function states what it returns, and Verus proves it:
  expanding the variables of a property list (`expand`, `vars`), finding the property list
  of the Xcode project at hand (`discovery`, `xcode`, `settings`, `commands`, `ancestry`),
  turning a log file into breadcrumbs (`event`, `stamp`, `calendar`), checksums and gzip data
  (`checksum`, `gzip`), temporary names, paths and messages (`temp`, `paths`, `release`).
  What holds of several functions together is stated by the proof functions whose names
  start with `law_`.
- `app/` is the program around it: files, processes, the environment and the command line.
- `tests/` runs the library, with the crates that it calls.

Calls into other crates stand behind small functions marked `external_body`, whose doc
comments say what is taken on trust.
