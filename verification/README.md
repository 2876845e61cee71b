# pointctl

Tools for explaining dimensionality reductions of point clouds: for every
point of a 2D or 3D projection, which of the original dimensions explains its
neighbourhood (da Silva et al.) or how many dimensions its neighbourhood has
(van Driel et al.).

- `src/` is the verified library: the ranking of dimensions and the
  annotation counts, the colour map's rank/dimension bookkeeping, the
  explanation and colour-map stores of the viewer, the 2D/3D scene switching,
  command line validators and decisions, CSV field splitting, transposition,
  and the blob texture. Every function carries a contract proved by Verus.
- `tests/` runs the library on concrete values.
- `app/` is the command line program (`explain`, `generate`): file access,
  the r*-tree and vantage point tree searches, the floating point metrics, the
  eigenvalue computations and the thread pool.

The interactive 3D/2D viewer of the original program (the `view` command) is
not provided: it was built on a fork of a GUI library that is not available
here. The library still holds the viewer's bookkeeping (colour-map store, rank
overrides, scene switching, legend names, blob texture), verified, but no
program drives it. Generating the `hypercube` shape is not provided either;
`generate --shape hypercube` exits with an error.
