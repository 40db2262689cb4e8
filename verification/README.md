# monkey

The Monkey programming language: a lexer, a Pratt parser, a tree-walking
evaluator, and a compiler to bytecode with a stack-based virtual machine,
written in Verus.

Each stage states what it does as a contract over mathematical models:

- `lexer`: the next token is `spec_next_token` of the input's bytes and the
  position; a byte outside ASCII forms a token of its own.
- `parser`: what parsing gives is a relation (`parsed_expr`, `stmt_parsed`,
  `program_loop`, ...) between the parser before and after, the tree built
  and the errors recorded; `parse_program` gives the program, or the errors
  when a statement failed.
- `evaluator`: evaluation is a big-step relation (`eval_rel`, `stmt_rel`,
  `program_rel`, ...) between the scopes and printed lines before and after
  and the value given; calls nest at most `MAX_CALL_DEPTH` deep.
- `compiler`: compiling is a relation (`compiled_expr`, `compiled_stmts`,
  ...) that says which instructions and constants are emitted; the emitted
  bytecode is always made of complete instructions, and every compiled
  function ends in a return.
- `vm`: each instruction is a relation (`op_done`, `step_done`) between the
  machine before and after, and a run (`ran`) is a sequence of steps.
- `repl`: one line of input at a time, for either back end.

`app/` holds the interactive loop that reads lines and prints outcomes.
