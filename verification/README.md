# ralr

A small register-based virtual machine and the assembler for its language,
written in Verus.

- `src/` is the verified library: the value model and its operators
  (`value`), the register file (`register`), the lexer and the
  precedence-climbing expression parser (`reader`, `expr_parser`), the
  instruction and block parsers (`instruction`, `block`), expression
  evaluation (`eval`), call frames (`frames`) and the execution loop
  (`runner`). Each public function states its result over spec functions;
  `runner::run_seq` is the meaning of a program.
- The VM's name tables are `ahash::AHashMap`s, reached through the small
  trusted wrappers in `maps`.
- Console I/O and floating-point arithmetic are left to the caller through
  the `host::Host` trait. The library reaches the host only through
  `host::Console`, which records the text written and every answer the
  host gave with its question (lines read, float results, float texts,
  float readings), so that the contracts of `runner`, `eval_expr` and
  `value_text` state what was asked and what was done with each answer.
- `app/` is the command-line program (`asm` and `run`), with the bytecode
  encoding done by `bincode` on serde copies of the instruction types.
- `tests/` runs the library on concrete programs.
