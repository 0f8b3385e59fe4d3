# zenith

The verified core of the Zenith document toolchain, written in Verus.

- `src/` is the library. Every function states its behaviour in
  `requires` / `ensures` and Verus proves it: the block-level markdown
  parser, diagnostic policies and their config files, brand contracts,
  component-library packs and their listing, data contexts loaded from JSON
  or CSV, the `fonts` listing, locked-asset hashes, page selection, and
  spread compositing and PNG encoding. Calls into `kdl`, `serde_json`,
  `csv`, `sha2` and `tiny-skia` sit behind small trusted wrappers whose
  contracts name what the outside code returns.
- `tests/` exercises the library on concrete inputs.
- `app/` is the ordinary Rust around the library: a `zenith` binary whose
  `library list` command is wired end to end, and the file, environment
  and argument plumbing (config files, data files, project packs, OS font
  directories, `clap` argument types) that the other commands call the
  library with. The document parser, validator, renderer and bundled font
  provider those commands also need are not part of this project, so their
  commands are not wired.
