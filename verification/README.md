# ts_ty

The type model of a TypeScript analyzer, written in Verus with its contracts
proved.

- `src/ty/` — types as plain values (`Ty`) and the arena that stores the
  composite ones: unions and how adding to them normalises (`union`,
  `union_laws`), intersections, function and constructor signatures and the
  callables a type offers (`callable`), interfaces (`interface`), annotated
  types read in a type scope (`ctx`), and the `Target extends Pattern` rules
  with the `infer` types they bind (`matching`, `matching_laws`).
- `src/scope/` — variable, control-flow, try and call scopes: entering and
  leaving calls, returned and thrown values.
- `src/nodes/` — what the analysis does for classes, import and export
  declarations, unary, logical, member, chained and sequence expressions, each node
  described by plain values: the steps to take, in order, or the type that
  joins the types of the node's parts. Walking the syntax tree and
  evaluating the parts is left to the caller.
- `src/builtins/` — the `Boolean` and `String` prototypes.
- `src/collections.rs` — the `rustc_hash` sets and maps the model keeps its
  literal sets and symbol-keyed tables in.
- `tests/` — scenarios run against the compiled library.
- `app/` — what turns `oxc` syntax nodes into the plain values the library
  plans on, and property names keyed by numbers.

Every public function states in its `ensures` what it returns and how it
changes the analyzer; the laws (commutativity of union, reflexivity of
matching, leaving a call undoing entering it, ...) are proof functions.
