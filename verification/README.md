# gw_pn

Exact bookkeeping for Gromov--Witten theory of projective targets, written
in Verus. The library's own functions are verified against their
`requires`/`ensures` contracts. The calls into `num-rational` and the one
`String::push` go through a few trusted wrappers (`src/foundation/rational.rs`,
`src/text.rs`); their contracts restate what those crates document and are
not proved.

## Layout

- `src/foundation/` -- exact rationals (over `num-rational`), interned
  monomials, power series in `q` and their matrices, curve classes and
  state spaces, and the `GwTheory` trait a target implements.
- `src/constraints/virasoro/` -- Getzler's Virasoro coefficient equations:
  the generator (`generator.rs`, with the per-key term model in `keyed.rs`),
  the evaluator that substitutes exact correlator values (`evaluator.rs`),
  the bounded scan (`scan.rs`), reports and rendering.
- `src/formula/`, `src/arguments.rs`, `src/geometry.rs`, `src/resolvent.rs`
  -- formula expansions, command-line argument parsing and classical
  geometry of projective space.
- `tests/` -- ordinary Rust tests of the public API.
- `app/` -- the command-line program around the library.

## Contracts worth knowing

- Generation (`generate_constraint_with_term_limit`) succeeds exactly when
  `generation_succeeds` holds, fails with the documented error in the
  documented order otherwise, and on success its terms have, key by key, the
  sums of the expansion (`generated_terms`).
- Evaluation (`evaluate_constraint_with_bounds`) either reports a theory
  mismatch (different fingerprints) or resolves the retained dependencies as
  the bounds, the structural checks and the backend say (`exact_evaluation`).
  The dependencies are the correlator of every linear term and both factors
  of every product with a nonzero coefficient; evaluation is fail-closed
  (`lemma_evaluation_fails_closed`).
- A scan refuses a Cartesian product larger than `equation_limit` before
  building it, and on success holds one exactly evaluated equation for every
  operator, genus, class and profile, in order (`scan_covers`).
