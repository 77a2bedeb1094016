# Rocket

Rocket builds RunixOS and its packages. Each package has a `meta.toml`, a `build.sh`
and, if it needs any, patches; it is built in an unprivileged Linux sandbox whose root
is the RunixOS sysroot.

`src/` is the library. It holds what Rocket decides, as functions from plain values to
plain values with contracts that Verus proves:

- `resolver`, `graph`, `names`: the build order of packages that depend on each other.
- `run`: a run over a build order, up to the first failure.
- `builder`: the steps of one build, its environment, and the cache key that lets an
  unchanged build be skipped.
- `history`: whole builds, from the first event to the last, and what one build leaves for
  the next.
- `trees`: what copying a directory tree comes to, on a model of a file system.
- `sandbox`, `mounts`: how the sandbox is entered, and what is mounted in it.
- `session`: interactive sessions, from first setup to the login shell.
- `recipe`, `patches`, `containers`: recipes with placeholders and patches, and images made
  from them.
- `config`: what a package is.
- `text`, `numbers`: the text functions that all of these use.

What holds of several functions together is stated by the proof functions whose names
begin with `law_`.

Three outside crates are called from the library: `toml` reads a document, `tar` and
`flate2` make the context of an image. What the library believes of them stands in the
contracts of the functions that call them.

`app/` is the command: it reads files and the command line, makes the system calls, asks
the container engine, and prints. `tests/` runs the library.
