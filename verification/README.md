# kete

Orbital mechanics, verified with Verus: orbital elements, gravity and other forces, numerical
integrators, states with covariances and mixtures of them, and a binary file format for states
and fields of view.

## How numbers are handled

The library never computes with floating point itself. A number is its bit pattern (`F64`,
`F32`), and comparisons, signs and special values are defined and proved on the bits. Operations
which round are brought by the caller as an `Arithmetic` of functions; `Physics` adds the
constants of nature and the motion on a conic, `Algebra` adds eigenvalues and inverses. Contracts
state each result as a formula in those operations, so they hold for whatever arithmetic is
brought, that of the machine among them.

What holds of the formulas themselves is stated over real numbers. A reading says which real
number a bit pattern stands for. Where each operation is off by a bounded amount, and up to bounds
which are given, frames are changed and changed back, the parts of a split have the moments of the
whole, eccentricity and perihelion distance come back from a motion, the motion comes back where
the eccentric anomaly does, and the physical properties of a body come back from the parameters of
its forces. Where the operations on the way are exact, elements and motions lead back to each other
without bounds, and so do properties and parameters.

Integrations are told how many steps they may take and say when that was not enough. More steps
never change a result which was reached.

## Layout

- `src/float.rs`, `arithmetic.rs`, `numbers.rs`, `frames.rs`, `matrix.rs`, `table.rs`,
  `physics.rs`, `algebra.rs`: numbers, vectors, matrices, and what is asked of the caller.
- `src/rounding.rs`, `ratios.rs`, `conics.rs`: how far rounded results are off, and algebra of
  real numbers.
- `src/elements.rs`, `orbits.rs`: cometary elements, and how they and motions belong together.
- `src/accuracy.rs`, `places.rs`, `angles.rs`, `perihelion.rs`: how far rounding takes them apart.
- `src/forces/`: gravity with relativity and oblateness, the registry of masses, radiation
  forces, and how forces are combined, masked and frozen.
- `src/integrators/`: Radau, Bulirsch-Stoer and Gauss-Jackson.
- `src/state/`: states and their centers, covariances, mixtures, variational propagation, and
  adaptive splitting.
- `src/io/`: the binary format.
- `src/python/`: the rules behind the Python interface.
- `tests/`: tests with the arithmetic of the machine.
- `app/`: the Python module, random numbers, threads, files and services around the library.
