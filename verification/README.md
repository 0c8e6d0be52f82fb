# exarare

Records the work done while building a Linux server and turns it into a
Markdown runbook and an Ansible playbook, by rules rather than guesses.

The rules live in the library under `src/`, written in Verus: every function
there carries a contract, and Verus proves the code meets it.

| Module | What it decides |
|---|---|
| `event` | the events a recording shell writes |
| `step` | how the events become steps: instructions, notes, the files, packages and services each step claims |
| `snapshot`, `diff` | which files are skipped or masked, what is hashed and stored, and what changed between two snapshots |
| `packages`, `state` | reading rpm, dnf, systemd, firewalld and account listings, and comparing two of them |
| `watcher` | which filesystem events count as touches, which touched paths are kept, the cap, and the window of each step |
| `session` | where exarare keeps its data and a session its files, which directories a session snapshots and watches, and whether it is still recording |
| `markdown`, `ansible`, `i18n` | the runbook, the playbook, and their fixed text in English and Japanese |
| `text`, `order` | strings, lines and words; sorted sets of names |

The laws the library keeps are public proof functions named `law_*`, for
example that a diff reports exactly the paths that changed, that the command
log keeps every command while the steps hold only the instructions, and that
a quoted YAML scalar reads back as the value it was made from.

Calls into other crates (globset, blake3, similar, time, nix, std's UTF-8
check) stand behind small wrappers whose contracts are stated, and trusted,
rather than proved. Path components are taken apart in the library itself.

`app/` is the command-line program around the library: argument parsing,
the recording shell and its hooks, the filesystem walk and watcher, running
the probe commands, and reading and writing the session's JSON files.
