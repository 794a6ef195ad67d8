# nautilus_fuzzer

A LibAFL fuzzer for a C++ compiler whose inputs come from a grammar (Fandango
or Nautilus), with a report of how far each run gets through the compiler's
correctness checks.

- `src/` is the verified library (Verus): decimal text and whitespace as the
  standard library reads and writes them (`text`), reading the coverage-map
  size from the instrumented binary (`coverage`), the correctness-step
  histogram and its report (`metadata`), the correctness observer's state
  (`observer`), what the preloaded helper does at the target's exit
  (`redirection`), reading the shared-map description it is given
  (`description`), the corpus and the two grammar configurations (`config`),
  and command-line values (`options`).
- `app/` is the program around it: argument parsing, the LibAFL fuzzing loop,
  file and process I/O, the LibAFL trait implementations, the shared-memory
  pointers, and the preload helper's FFI entry points.
- `tests/` runs the library on concrete values.
