# ddnet_kit

Verified core logic of a handful of game-engine helpers, written in Verus.

- `src/filesys.rs`: the request protocol of a file system whose operations the
  host answers (request ids, parameter slots, polling, error kinds).
- `src/module_merge.rs`: merging a module override into a base module
  (functions of impl blocks and traits, `use` items, enums and structs),
  with the laws of what a merge keeps, replaces and adds.
- `src/merge_twice.rs`: merging the same override a second time changes
  nothing (where the override has no `use` items and keeps no replaced
  functions, and no two base traits both hold a function it replaces).
- `src/sources.rs`, `src/syntax.rs`: parsing token streams with `syn`,
  taking the last base item and the override apart into the merge's model,
  and putting the merged item together from the parsed pieces.
- `src/macro_source.rs`: the path of the base source file an override names.
- `src/sound_layers.rs`: re-indexing sound layers when a sound is removed.
- `src/ninja.rs`: the loading order of a ninja skin's numbered parts.

`app/` holds the glue that Verus does not see: the host calls, reading and
lexing the base source files of module overrides, the dynamic editor library,
the editor UI and the floating-point canvas helpers. `tests/` runs the library on concrete values.

The merge parses tokens through `src/syntax.rs`, whose functions call the
`syn` parser and are trusted; `src/sources.rs` takes the parsed items apart
into the merge's model, keeping each parsed piece in a store, and puts the
merged item together again from those pieces in the order the verified
merge gives.
