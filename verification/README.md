# leaf_codegen

The code generator behind the attributes and derives of the leaf framework: components and
beans, configuration and its binding, conditions and profiles, advice and the concerns round a
method, event listeners and schedules, message catalogs, gRPC routes, the entry point of an
application, and the tables that a build puts together (the order of auto-configurations, the
packages that take part, the documented configuration prefixes).

- `src/` is the library, written in Verus. Items of source come in as plain values, attributes
  as source text, and what is generated goes out as source text. The contract of each function
  gives that text exactly, or the message for the author of a faulty attribute. What holds of
  several functions together stands as a public proof function beside them: that folding a
  condition keeps its meaning, that a plan of auto-configurations keeps the edges and is the
  same for any order of the entries, that the text of a profile expression reads back, and so
  on.
- `src/syntax.rs` and `src/chars.rs` hold the calls into `syn`, `proc_macro2` and the character
  tables of the standard library.
- `app/` is ordinary Rust around the library: it turns the items of `syn` into those of the
  library and the generated text into token streams, and gives the errors `Display` and `Error`.
- `tests/` runs the library.
