# draug

A local-first sandbox for coding agents, with no daemon. `sbx run` wraps a
project directory in a rootless Linux sandbox: system directories are mounted
read-only, the project is an overlay whose writes never reach the real
directory, and a later `sbx` finds the sandbox again through a SQLite registry.
`sbx mcp` offers the same as tools.

The rules are a verified library; what talks to the kernel, to files and to
sockets is an ordinary program around it.

## Layout

`src/` is the library. Every function states what it returns, and Verus proves
it.

| Modules | What they hold |
|---|---|
| `text`, `json`, `paths`, `lists`, `layout` | strings, numbers, JSON and paths; where a sandbox keeps its files |
| `types`, `limits`, `error` | sandboxes, snapshots, resource limits, the errors |
| `sql`, `registry` | the registry's tables, and what each operation does to them |
| `proto`, `guest`, `exec` | frames, PID 1's side of a command, the host's side |
| `spawn`, `snapshot`, `lifecycle`, `helpers`, `procs` | what a sandbox's life consists of, step by step |
| `setup`, `mounts`, `uidmap`, `cgroup` | the sandbox's file system, id maps and limits |
| `fscopy`, `diff`, `overlay` | copying a layer, telling what it changes, and that this is what shows |
| `output`, `mcp`, `cli` | what a model and a terminal get to see |

Operations that alternate between decisions and system calls are state machines:
a function takes what came of the last step and says what to do next. The
program performs the step and hands the outcome back.

Functions named `law_..` state what holds across operations: that a frame is
read back as it was written, that a sandbox is recorded before anything is set
up for it and that a failure is rolled back, that a frozen sandbox is thawed
again, that a restored sandbox is a new one, that a destroyed sandbox's record
goes last, that a diff reports a path as deleted just where it is gone.

`tests/` runs the library on concrete values. `app/` is the program `sbx`.

## What is taken on trust

The calls into SQLite (`sql`), the reading of single JSON values (`json`), and a
few string functions of the standard library (`text`). Each stands behind a
small function whose comment says what is claimed of it. What SQLite does to
rows is claimed only of tables that are laid out as the registry lays them out;
a file may hold others.
