# dupes

Duplicate-code detection over normalized syntax trees, with its logic
verified by Verus.

Functions, methods and closures are normalized: identifiers become
positional placeholders, literal values are erased (their kind is kept),
control flow is kept as it is. Equal normal forms share a fingerprint and
form exact-duplicate groups (a fingerprint is FNV-1a over an explicit byte
encoding of the tree, so it is the same on every platform and toolchain);
normal forms that are merely alike are compared with a Dice coefficient over
matching nodes, the elements of blocks, tuples and arrays aligned across
insertions and gaps, and joined into near-duplicate groups. An ignore list suppresses groups by fingerprint.

## Layout

- `src/` — the verified library.
  - `node`, `reindex`, `similarity`, `stable_hash`, `fingerprint`: normalized
    trees, their canonical renumbering, their similarity, the stable hash and
    the fingerprints.
  - `rust_syntax`, `rust_parse`, `rust_normal_form`, `rust_normalizer`,
    `rust_units`, `rust_renaming`: the Rust syntax that normalization reads,
    the call into syn that parses a source text, its normal form, the code
    units of a file, and why renaming changes nothing.
  - `ts_normal_form`, `ts_normalizer`, `mapping`, `kind_table`, `python`:
    normalization of a concrete syntax tree driven by a table of node kinds,
    and the Python table.
  - `extractor`, `grouper`, `near_groups`, `union_find`, `analysis`: sub-units,
    exact and near grouping, statistics, and the analysis pipeline.
  - `ignore`, `config`, `cli`, `scanner`, `text`: the ignore list, settings,
    the commands' decisions, the scan's decisions, and text helpers.
- `app/` — the command line: arguments, the walk of the file system, reading
  files, turning syn's tree into the library's, node for node, the
  configuration and ignore files, and the text and JSON reports.
- `tests/` — tests of the library on concrete inputs.
