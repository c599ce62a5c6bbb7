# semantic_analysis

The name-resolution, type-inference and type-layout core of the margarine
compiler's semantic analysis, written in Verus with its behaviour stated as
contracts and proved.

Layout of `src/`:

- `namespace.rs` — namespaces and their symbol tables, visibility and the
  parent chain that decides who may see private symbols.
- `scope.rs` — lexical scopes and the lookups that walk them outwards
  (variables with closure captures, symbols, generics, loops, functions),
  including the namespace-fence rules.
- `syms/` — the symbol table: symbols, generic lists, inference variables and
  closures (`sym_map.rs`), the builtin table (`builtins.rs`), and types
  (`ty.rs`), with the occurs check and instantiation proved for every map in
  which no type contains itself.
- `types/` — the earlier type system: its symbol table and unifier
  (`symbol_map.rs`, `ty.rs`, with the ranks that make every variable chain
  finite), and the layout pass that computes sizes, alignments, field offsets
  and enum tags, reporting each type that cannot be laid out: a cycle
  with its path, a type that failed before, a size that overflows
  (`ty_builder.rs`, `ty_map.rs`, `ty_sym.rs`).
- `errors.rs` — the errors of name resolution and type checking, and what
  is reported for each (headline and highlighted notes).
- `lib.rs` — loop/control-flow tracking, per-node type information and the
  error list.
- `llvm_codegen.rs` — compilation targets and their triples, and the variable
  environment of the code generator.
- `codegen.rs` — the slot, block and variable bookkeeping of the bytecode
  generator.

The layout pass keeps its partial types in an `sti` hash map and rounds
offsets with `sti::num::ceil_to_multiple_pow2`; both are reached through
trusted wrappers whose contracts restate what `sti` does.
