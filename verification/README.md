# fer

The syntax and intermediate layers of the Fer language, verified with Verus.

- `lex`, `scan`, `lex_facts`: the lexer, specified as a byte-level state machine (`spec_next`).
- `lossless`, `lossless_cst`: a token stream that keeps every byte of trivia, and the
  association of CST nodes with contiguous token ranges.
- `parse`, `grammar`, `cst`: the recursive-descent parser over an append-only node arena;
  every parse step terminates, keeps the arena well formed and names a node of the
  kind its grammar rule produces.
- `layout`, `spacing`, `indent`, `formatter`: the formatter. Its result is pinned by
  `spec_format`, and it changes nothing but spaces and tabs.
- `strings`, `text`, `utf8_facts`: string literal decoding and UTF-8 facts.
- `hir`, `lowering`: the HIR arena and the lowering of a CST into it; every expression
  lowers to a tree that mirrors the syntax tree (`tree_lowered`).
- `runtime`: the exact integer arithmetic, text predicates and messages of the evaluator.

`app/` holds the evaluator's value type and the operators on floating-point numbers.
