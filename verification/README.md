# Piramid

The verified core of Piramid, a vector database for agentic workloads.

- `src/` is the library, written in Verus: every function carries a
  contract that Verus proves. It holds input validation, collection
  metadata, metadata filters and result ranking, the write-ahead log's
  numbering and replay, the record store, recovery, near-duplicate
  selection, and the HTTP API's request checks and status reports.
  Laws that relate several operations are stated and proved as public
  `proof fn`s named `law_*`.
- `app/` is ordinary Rust around it: serialized forms of the library's
  types, the files a collection lives in (data, index, metadata, log),
  floating-point vector checks, and the HTTP handlers.
- `tests/` exercises the library on concrete values.

Vector components and scores are not held as floats in the library: a
component is carried by its `f32` bit pattern and a score by the bit
pattern of its value widened to `f64`; comparisons follow IEEE-754 order,
as stated in `src/numeric.rs`.
