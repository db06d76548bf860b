# webgal_lsp

The verified core of a language server for WebGAL scenes, written in Verus.
Every function under `src/` carries a contract that Verus proves; the few
calls into std that vstd leaves without a specification go through small
wrappers in `src/std_ext.rs` and the counters' map modules.

## Layout

- `src/count/`, `src/ranked_count.rs`: counters (multisets) backed by a hash
  map, a B-tree map and sorted arrays, with their laws in `count/laws.rs`.
- `src/path_tree/`: a tree of named folders and items addressed by
  `/`-separated paths, with entries, iteration and the laws that relate
  `insert`, `get` and `remove`.
- `src/json/`: lenient JSON tokenizing, locating the cursor in a document,
  completion from a value or a schema, and highlighting.
- `src/text.rs`, `src/encode.rs`, `src/position.rs`, `src/semantic.rs`:
  characters and their UTF-8 and UTF-16 lengths, column conversions between
  the two, and semantic tokens: laying out the highlights of a range of
  lines and re-encoding them for editors.
- `src/command.rs`, `src/comment.rs`, `src/argument.rs`: completion of the
  command that opens a scene line (speakers, commands, templates), of
  `nolint` comments, and of argument values from fixed lists.
- `src/scene_highlight.rs`: highlight classes of a scene and the parts of a
  line that are highlighted from their text alone.
- `src/scene.rs`, `src/diagnose.rs`: parsed statements as the services read
  them (`SentenceData`), the identifiers a statement names, and the
  resource diagnostics of a statement against a project's resources, in
  the two styles that the servers report them (`ReportStyle`).
- `src/watch.rs`: what a change of a watched file asks of the workspace
  (load or drop a project, update or remove a resource); the server does
  the work.
- `src/project/`: file-system results, directory listings, path errors, and
  what is known of a variable: its places and the kind of value it holds.
- `app/`: LSP and serde forms of the library's values, and the file event
  kinds of LSP.
- `tests/`: tests run against the compiled library.

## Outside this library

The library starts from statements that are already parsed: the scene
parser, the syntax and format diagnostics, formatting, per-statement
highlighting, inlay hints, hover documents, the project-wide variable type
inference and the language server loop (which loads projects and reads
files as `watch.rs` decides) are not part of it. Counters over
`String` keys run, but their contracts assume a key type with vstd's hash or
order model, which vstd gives to the integer types and not to `String`.
