# npm_utils

A pure-Rust npm toolkit whose decisions are proved with Verus: version selection, the
dependency-graph walk, lockfile installs, package resolution, OSV advisories, the command line's
source grammar and its progress tasks.

- `src/` is the verified library. It never touches the network, the disk or a terminal: functions
  take what was read, or a closure that reads it, and say what to do. The walk, a lockfile install
  and an advisory query hand out one step at a time and take back what came of it.
- `tests/` runs the library against the real `semver` and `serde_json`.
- `app/` does the rest: disk, threads, terminal rendering and the verbs. An HTTP client and the
  project operations are handed to it.

| module | what it holds |
|---|---|
| `text`, `json`, `path`, `windows` | strings, JSON documents and slash-separated paths, with their specifications |
| `version`, `dependency` | versions, ranges, dependency specs, package names |
| `source` | what a command-line token names |
| `registry` | registry URLs, package documents, version selection, search |
| `walk`, `round`, `soundness` | the walk over a dependency graph, its rounds of fetching, and what holds of every walk |
| `lockfile` | lockfiles: what is installed, and which links are made |
| `resolve` | finding an installed package and a file in it |
| `osv`, `audit` | advisories, findings and exit codes |
| `manifest`, `common`, `progress` | manifests, reports and progress tasks |

Versions and requirements are read and compared by `semver`, JSON by `serde_json`; what is claimed
of them without proof stands above the wrappers in `version.rs` and `json.rs`.
