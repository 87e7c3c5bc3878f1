# ronix

Rendering of serde's data model as Nix expressions, verified with Verus.

- `src/` is the verified library. `NixSerializer` renders scalars
  (booleans, integers, characters, strings, bytes, unit) and starts the
  collectors for compound values: `NixSeqSerializer` (lists, tuples),
  `NixMapSerializer` (maps) and `NixStructSerializer` (structs). Each
  collector takes the already rendered text of its parts, produced by the
  child serializer it hands out one nesting level deeper, and formats the
  final Nix list or attribute set. `escape_nix_string` writes Nix string
  literals; the proof that Nix reads them back unchanged is in
  `helpers.rs`; `reindent.rs` proves that rendering one level deeper only
  re-indents the text, and `map.rs` states what a map collector holds
  after a run of key/value calls. RON text is parsed through `ron` in
  `convert.rs`.
- `app/` drives the library through serde's `Serializer` traits
  (`to_nix`, `to_nix_module`, `ron_to_nix`, `ron_to_nix_module`), formats
  floats, and holds the clap-based command-line helper.
- `tests/` exercises the library on concrete values.
