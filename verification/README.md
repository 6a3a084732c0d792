# launch_deck

The verified core of Launch Deck, a local control centre that works out what
each project on the machine is, how to start it, and then runs, watches and
stops it.

- `src/` is the library. Every function has a contract, and Verus proves
  each one except those of the small trusted wrappers described at the end
  of this item. It covers detection rules and runner manifests (`rule`, `manifest`, `runner`,
  `registry`), launch planning (`launch`, `command`, `program`, `preflight`),
  run state and restart policy (`runtime`, `project`, `supervisor`), logs
  (`log`, `logs`, `retention`, `studio`), scanning and disk usage (`scan`,
  `disk`), readiness and status facts (`health`, `facts`, `surface`,
  `ports`, `metrics`), project icons and manuals (`appicon`, `manual`), and
  the text helpers they share (`text`, `path`, `glob`, `probe`).
  Parsing JSON and TOML, UUIDs, timestamps and PNG encoding are calls into
  the crates that do them, behind small trusted wrappers whose contracts say
  what those crates document.
- `tests/` exercises the library on concrete values.
- `app/` is the unverified shell: directory reads, process spawning, sockets,
  the clock and the operating system's process and socket tables. Its
  decisions are the library's, with three exceptions kept there on purpose:
  summing CPU load and reading the FocusForge status (both floating point),
  and reading the listening-socket table the operating system exposes.
