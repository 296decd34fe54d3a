# adequate_booru_viewer

The rules of a booru viewer, written in Verus and proved against their contracts:
the Boolean tag query and its edits, the saved-filter language, the filter library and
its names, the query evaluator over roaring bitmaps, the date spool, the media queue,
the warm-up pager, and the small decisions of the workbench.

Layout:

- `src/` — the verified library. `model.rs` holds posts, tags, ratings and the query
  tree with their views; `filter_expression.rs` the saved-filter language (`lex`, the
  parser, `render`); `filter_laws.rs` and `query_laws.rs` the laws that relate several
  functions (a canonical query, rendered, parses back to itself; rendering a query whose
  atoms read back, parsing that text and rendering again gives the same text; toggling twice restores a
  node that is not a double negation; a typed query written out reads back the same when
  none of its words opens with `++` or `+-`; stripping is idempotent); `surface_laws.rs`
  the render, parse, render law; `evaluate.rs` the query evaluator;
  the other modules the configuration, filter bank, dates, worker queue, paths and
  workbench rules.
- `tests/` — tests on concrete values, run against the compiled library.
- `app/` — a command-line front end that reads and writes the TOML files through serde
  and prints a filter library; the serialised copies of the library's types live there.
