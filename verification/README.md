# vtc

A small tensor compiler whose stages are verified with Verus.

Programs are graphs of tensor operations. The library builds and type-checks
them, evaluates them exactly, rewrites them, lowers them to affine loop kernels,
runs those kernels, and renders them as C source. Every stage has a contract
that fixes its result, and the stages are tied together by laws that Verus
checks:

- a rewritten graph computes what the graph computed (`driver`, `preservation`,
  `rules`);
- a lowered kernel computes what its graph computes (`lowering`), and a graph
  that evaluates is lowered (`lowering_success`);
- affine indices reach every element once (`index_laws`);
- the built-in rules fire exactly on their patterns and keep the bits of
  doubles with IEEE signs (`rule_laws`);
- the listed examples build as they are described (`example_laws`);
- both together keep what a graph computes (`pipeline`);
- graphs and search expressions convert back and forth without changing results
  (`egg_laws`);
- well-typed graphs evaluate, with the inferred shapes (`soundness`);
- generated graphs are well-typed and evaluate (`generate`);
- bit patterns and shape assignments read back as they were printed
  (`bits_text`, `options`).

The evaluators are generic over a `Domain` of scalars. `Exact` is the domain of
rational numbers, on top of `num_rational`. Floating-point arithmetic is a domain
that the program around the library supplies; the library itself holds doubles as
bit patterns.

## Layout

- `src/`: the verified library.
- `tests/`: its tests.
- `app/`: the command-line program. It parses arguments, searches with `egg`,
  compiles and runs C, and prints reports; the stages and their decisions are the
  library's.

## What is trusted

The contracts of a few functions are taken from outside crates: arithmetic of
`num_bigint` and `num_rational` in `rational`, draws of `rand` in `random`, and
the `Debug` text of strings in `text`. Each stands behind a small function whose
comment says what is claimed.
