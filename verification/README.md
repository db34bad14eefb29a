# map_info

Browsing Left 4 Dead 2 `.vpk` addon files from the terminal, with the
decisions of the program proved correct by Verus.

## Layout

- `src/` — the verified library.
  - `vpk.rs`: the VPK version 1 directory reader (header, extension /
    directory / file tree, inline file data); its result is specified by
    `read_vpk`.
  - `mission.rs`: the KeyValues tokenizer and the reader of the map codes
    listed under `modes` → `coop`.
  - `search.rs`: the command line searches (by file name, by map code) as
    state machines, the map code index, the groups of files sharing a code.
  - `app/`: the two-pane interface: key handling (`event_handler.rs`),
    list paging and scrolling, sorting, duplicate detection, and what the
    drawing code decides (wrapping, highlighting, dialog rows).
  - `text.rs`: small string operations (ordering, sorting, decoding).
- `app/` — the program: terminal input and output, file system access, the
  fuzzy scores (floating point), clipboard and drawing.
- `tests/` — tests of the library on concrete values.

Verify with Verus on `src/lib.rs`; the laws of the library are the public
`proof fn`s next to the functions they speak of.
