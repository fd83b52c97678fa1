# dampen_core

The core of a declarative UI toolkit whose user interfaces are written in XML:
the document parser, the widget tree and its attributes, binding expressions,
handler dependency analysis, themes and style classes with their inheritance,
and helpers for code generation. The library in `src/` is verified with Verus.

- `src/parser`: reading a document (XML records, widget tree, attribute values,
  interpolations, versions, deprecated attributes, colors, canvas children).
- `src/expr`: the binding-expression syntax tree and its tokenizer.
- `src/ir`: widget kinds, attributes, layout and style keywords, name maps,
  themes, style classes and their inheritance rules.
- `src/handler`: handler signatures and the handler call graph (cycle checks).
- `src/state`: the theme context (which theme is active, and how it changes).
- `src/schema`: the attributes each widget accepts.
- `src/codegen`: code-generation settings, checks and text transformations,
  and handler inventories read from Rust source.

`app/` holds what stays outside the verified library: values with
floating-point fields (styles, layout, palettes, binding values and their
evaluation), runtime registries and shared state, file I/O, and token
generation with `quote!`.
