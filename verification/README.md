# servex

Generates a web service from a data model.

A model file (`.modelx`) declares tables and their fields:

```text
@http @db
table user {
  @doc key id: Integer
  name: String
}
```

- `src/modelx.rs`: the model types, the grammar of model files and the
  verified parser (`ModelxParser::parse`, `Modelx::parse`).
- `src/modelx_laws.rs`: what the parser promises as a whole: the last
  declaration of a name wins, names keep the order of first declaration,
  the parser reads exactly the text that the grammar writes, and of two
  sources joined by a line break the second overrides the first.
- `src/corex.rs`: the code generators (`Model`, `DB`, `Resources`, `Http`),
  each specified by the exact source text it yields.
- `src/expand.rs`: the whole generated program for an application struct.
- `src/rust_names.rs`: whether the names of a model can stand where the
  generated Rust puts them: Rust identifiers as `unicode-ident` decides,
  and types and expressions as `syn` decides.
- `src/text.rs`: character classes and Rust string literals.
- `src/handlerx.rs`: handler contexts and the ordered handler registry, with
  the steps of a run and the law that handlers run in order up to the first
  failure.
- `app/handlerx.rs`: the handler API that generated services name as
  `handlerx`: the asynchronous handler trait and a registry of such
  handlers with `new`, `register` and `exec`, whose run follows the
  library's registry steps.
- `app/lib.rs`: reading model files, and turning generated source into a
  token stream.
