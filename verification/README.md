# larql

The core of a language-model server and of its benchmark, verified with Verus.

- A cache of precompiled layer outputs answers nearest-neighbour lookups: a query vector whose
  cosine similarity to a stored input reaches the threshold gets the stored output, or a weighted
  average of the best ones; any other query is a miss, and the client computes locally.
- A description of the Gemma 3 architecture tells which layers attend to a sliding window, which
  rotary base and which position divisor they use, and which norm weights they have.
- A benchmark measures local runs, key-value engines, remote feed-forward blocks and remote
  experts, and puts clients that run side by side together into one summary.

## Numbers

Numbers are held by their IEEE 754 encodings.  Comparing, ordering, picking and sending them is
integer logic and verified as such.  Adding, multiplying and the like are supplied by the caller
through two traits that promise nothing; a contract that depends on them is stated for every
model, that is, for every choice of functions whose values the caller's arithmetic returns.  An
arithmetic whose operations are functions has such a model, and the laws that compare two calls
are stated for those.

Where a list is sorted, a value that is not a number comes last.

## Layout

- `src/` is the verified library.
- `tests/` runs it with the platform's arithmetic.
- `app/` is ordinary Rust around it: the platform's arithmetic, the lookup service behind its
  lock, the machine-readable report, and the drivers that do a run's outside work.
