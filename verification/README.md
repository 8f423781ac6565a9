# wanted

A plugin-driven installer for development tools. A tool is described by a
small TOML manifest (where its archive or installer comes from, where it is
placed, which environment variables it needs); `wanted` plans the install,
runs it step by step with an undo action recorded for every step, and writes
a receipt so an uninstall restores the environment precisely.

## Layout

- `src/` — the library, verified with Verus: manifest validation, install
  planning, template expansion, archive layout, execution with rollback,
  environment-variable merging and reversal, receipts, version resolution,
  release selection and checksum checking for self-upgrade, and the byte
  ranges of parallel downloads. Each public function carries a contract;
  the `laws` functions state properties that span several calls, such as
  "replaying the snapshots of an environment write restores every variable"
  and "uninstalls in any order keep the other install's `PATH` entry".
- `app/` — the command line around the library: argument parsing, the real
  filesystem, the environment file, HTTP downloads, process spawning,
  terminal progress, and the TOML forms of manifests and receipts.
- `tests/` — tests of the library against in-memory filesystems and
  environment stores.

The filesystem and environment seams (`Fs`, `EnvStore`) are specified as a
tree of paths and a map of variables; the in-memory implementations in the
library are verified against those specifications. The real ones in `app/`
are unverified: they describe no tree or variables to Verus, so nothing
proved in the library speaks of what they hold. The in-memory
implementations are also *dependable*: they fail no call. Against dependable
backends the contracts promise success for the steps whose outcome no
download, spawned process or archive content decides.

Platform rules (directory names, variable-name case, the path-list
separator) take the platform as an input; the command line passes the one it
runs on. The environment writes of an install plan, and their reversal on
uninstall, merge path lists by the rules of the platform the environment
store reports.
