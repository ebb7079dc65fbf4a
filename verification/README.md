# analyzer

The syntactic and semantic analysis of a small compiler, verified with Verus.

- Grammars (`src/grammar*.rs`, `src/first.rs`, `src/follow.rs`, `src/follow_settle.rs`):
  productions, first and follow sets (and why the rounds that merge follow sets settle), the grammar file notation (`src/notation.rs`, `src/grammar_file.rs`) and
  the LL(1) parse table (`src/parse_table.rs`).
- Parsing (`src/parser.rs`): the decisions of the table driven parser, one step at a
  time, and the syntax tree that semantic actions build (`src/syntax_tree.rs`,
  `src/semantic_action.rs`).
- Symbol tables (`src/symbol_table/`): entries for classes, functions, parameters,
  variables and temporaries, lookups, inheritance searches, the checks made once the
  global table is complete (`src/symbol_table/visitor.rs`), and the tables laid out as
  text (`src/symbol_table/format_table.rs`).
- Type checking (`src/type_check.rs`): the decisions taken at each node of the syntax
  tree, such as whether operand types agree, which overload a call selects, whether the
  arguments fit it, and whether a function returns what it declares. The walk over the
  syntax tree that gathers the types, and the temporaries and labels it names, are not
  part of the library.

Each public function states what it computes in its contract; the laws that relate
several functions are public proof functions whose names start with `law_`.

`app/` holds what the library leaves out: reading a grammar from a stream, driving the
parser over a token stream while writing the derivation and the errors, and reporting
the errors of the symbol table checks.
