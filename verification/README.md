# elba

The core of `elba`, a package manager for Idris, written in Verus: the decisions that the package
cache, its locks and the builds make are stated as contracts and proved.

- `src/build`: which targets are built in which order, what is done to compile them, and how that
  goes on from step to step.
- `src/retrieve`: the cache of sources, builds and indices. Loads, checkouts and walks over indices
  are state machines: they say what has to be done next, and are told how that went.
- `src/resolve.rs`: the graph of the packages that a package is built from.
- `src/util`: locks on directories, and SHA-256 digests.
- `src/path.rs`, `src/package.rs`: paths, and what is known of packages.
- `tests`: the library on concrete values, and paths against those of `std`.
- `app`: the command line, the disk and the network around the library.

What is trusted rather than proved is stated at the wrappers of the crates that the library calls:
`sha2` in `src/util/hash.rs`, `semver` in `src/package.rs`, `petgraph` in `src/resolve.rs`.

Paths, locks and links are those of Unix.
