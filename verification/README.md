# minicompiler

The front end of a toy language, verified with Verus.

- `src/lexer.rs`: a word-level tokenizer that recognizes no word yet.
- `src/parser/token.rs`: tokens and their mathematical model.
- `src/parser/classify.rs`: reserved words, type names, character classes.
- `src/parser/compiler.rs`: the front end's state and its model.
- `src/parser/lexing.rs`: the character-level lexer as a state machine.
- `src/parser/merging.rs`: the pass that removes comments and line breaks
  and merges composite tokens.
- `src/parser/splitting.rs`: the pass that splits the tokens into functions.
- `src/parser.rs`: `compile`, which runs the three passes.
- `app/main.rs`: the command-line program that reads a file and runs them.
