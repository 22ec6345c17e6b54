# souper_cton

Generation of Cretonne matcher code from merged Souper pattern trees, and a
parser for Souper instructions with their lowering to Cretonne instructions,
verified with Verus.

- `src/matcher.rs`: the matcher generator (`Opt`), its scope stack, and the
  code generated for each node of a merged pattern tree. Each node's step
  returns the level and argument-flag changes it makes to its successors.
- `src/balance.rs`: proofs that the generated text is well bracketed.
- `src/parser.rs`: the instruction parser, which reads the lexer's answers
  as plain values, the diagnostics it reports, and the lowering of Souper
  instructions to Cretonne.
- `app/lib.rs`: the code that reads the lexer and the pattern-tree arena,
  applies the changes the generator asks for, and prints.
