# forgeann

A library for building graphs of nearest neighbours over large sets of vectors, with
contracts that Verus proves.

- `src/` holds the library: planning of reads and of memory, sketches and their files,
  hash-pruned reservoirs, the edges of a leaf, adaptive sampling of distances, the final
  pruning, and the report of a build. Floating point numbers are held as bit patterns.
- `app/` holds what surrounds it: files, threads, the environment and the arithmetic on
  floating point numbers.
- `tests/` runs the library on concrete values.
