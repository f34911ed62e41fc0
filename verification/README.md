# airyc

The front end of a toy programming language (`.airy` files), verified with
Verus: a lexer, a lossless parser that builds a `rowan` green tree, and the
semantic analysis that types expressions, folds constants, records
declarations and citations, and checks a project of files.

## Layout

- `src/lexer.rs`, `src/syntax_kind.rs`: tokens; the token stream gives the
  input back exactly, and each token is the longest match.
- `src/grammar.rs`: the grammar as rules from a parse state to the next,
  which give the syntax tree (node kinds, nesting, tokens) and the errors
  for the tokens of a text.
- `src/parser.rs`, `src/green.rs`: the recursive-descent parser and the green
  tree builder it drives; each parse function builds what its rule gives, and
  parsing loses no text.
- `src/module.rs`: the symbol tables of one file (variables, scopes,
  functions, structs, fields, references).
- `src/types.rs`, `src/ntype.rs`, `src/value.rs`, `src/array.rs`,
  `src/init.rs`, `src/literal.rs`: types, compile-time values, array
  initialisers and literals.
- `src/expr.rs`, `src/typenode.rs`, `src/decl.rs`, `src/func.rs`: what the
  analysis does on leaving each kind of node.
- `src/header.rs`: imports between files.
- `src/project.rs`, `src/checker.rs`: the definitions of each file, the
  project that links the files, and the check for structs that hold
  themselves by value.
- `src/outline.rs`, `src/tytext.rs`: the outline of a file, the search over
  the symbols of every file, keyword completion, and the text of a type.
- `app/`: a command-line program that parses a file and prints its tree and
  its errors.

## Not included

- Code generation: the original lowers the analysed program to LLVM IR
  through `inkwell`. That crate needs an LLVM installation and the lowering
  calls are interleaved with every decision, so no code generator is here.
- The language server (LSP transport), and the tree walk that runs the
  per-node analysis over a whole file: the walk belongs to a syntax crate
  that this project does not have. The per-node handlers are in `src/`; the
  command-line program parses files and links them into a project.
