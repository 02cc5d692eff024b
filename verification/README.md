# Tortia

`tortia` packages applications into a single `.tortia` archive (7z format) and runs them in an
isolated environment without virtualization. What a build and a run do is decided by a library that
is verified with [Verus](https://github.com/verus-lang/verus); the program around it reads files,
starts processes and prints lines.

```bash
tortia init [dir] [--force]
tortia build [dir] [-o|--output <path>]
tortia run <archive.tortia>
tortia clean [dir] [--temp] [--cache] [--tools] [--all] [--dry-run]
```

It needs macOS or Linux, `7z`, `curl`, `tar` and a POSIX `sh`.

## Layout

- `src/` is the library. Nothing in it touches the host.
  - `recipe`, `runtime`, `managers`, `host_packages`, `bundle`, `extensions`, `packaging`: what a
    `RecipeFile` asks for, and what is wrong with it.
  - `command`, `runner`: commands, plans of steps, and the way through a plan.
  - `install`, `provision`, `isolation`: runtimes in a payload, blocked commands, the isolated `PATH`.
  - `staging`, `tree`: the copying of a project, and what it makes of a directory tree.
  - `dependencies`, `host_install`: dependencies of the project, packages on the host.
  - `archive`, `course`: archives and their manifests, the phases of a build and of a run.
  - `cleanup`: what `tortia clean` removes.
  - `paths`, `text`, `log`: paths of the host, text, lines of the log.
- `app/` is the program.
- `tests/` runs the library on examples.

Facts about the host (whether a file exists, how a command ended) are arguments of the library's
functions; where they come one at a time, a state machine takes them: `Runner`, `HostRun`,
`DependencyRun`, `ExtensionRun`, `RuntimeRun`, `CopyRun`, `CleanRun`, `Course`.

The laws that the library keeps are public proof functions named `law_..`; each states its law in its
doc comment. What is trusted is the contract of three functions of the standard library:
`String::push`, `String::from_utf8` and `String::from_utf8_lossy`.
