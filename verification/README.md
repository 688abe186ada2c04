# usage_tracker

A Windows application-usage tracker: once a second it lists the applications
with visible windows, counts one more second of use for each, saves the totals
to `usage.json`, and prints a report of the most used applications with bars.

The verified library lives in `src/`:

- `application` — applications, their usage, and `ApplicationMap`, the
  collection of applications keyed by executable path (viewed as a `Map`).
- `collector` — which windows count as applications, executable file names,
  the Windows-directory check, product names from version strings, and filing
  a window's application.
- `tracker` — counting a second of sightings into the saved applications and
  deciding when to save or stop; laws about the update.
- `report` — ordering by usage, bars, and the rows of the usage report.
- `storage` — the paths of the tracker's files.
- `text`, `utf16`, `time` — character-sequence operations, UTF-16 decoding,
  and spans of time.

`app/` is the program around it: the Win32 calls that enumerate windows and
read version information, the registry, the files, the single-instance mutex,
and the command line.
