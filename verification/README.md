# rxplain

Explains Rust compiler diagnostics from the compiler's own evidence and plans
repairs that are verified in an isolated copy of a project before any file is
touched.

## Layout

- `src/` — the library, verified with Verus. Every public function states in
  its contract what it returns, over spec functions and views:
  - `diagnostics`, `analyzer`, `explain`, `context`: normalising rustc
    messages, extracting locations and types, span-aware explanations,
    source excerpts.
  - `patch`, `lines`, `fixer`: edits and their application to file text,
    machine-applicable compiler fixes.
  - `repair`, `repair_context`, `transform`: candidate repairs from compiler
    suggestions and from the structure of the source, their stable ranking,
    patch signatures and the history that guards the repair loop.
  - `engine`: the repair run as a state machine from outcomes of outside work
    to the next action, with its invariant proved for every transition.
  - `verification`: the verification oracle's modes.
  - `text`, `order`, `sorting`, `unicode`: string, ordering and stable-sort
    specifications shared by the rest.
- `app/` — the command-line program: argument handling, running cargo, file
  access, the isolated workspace, terminal output and JSON.
- `tests/` — tests of the library on concrete values.

## Collections

Where a set or map is keyed by strings (the history of tried patch
signatures, the set that removes duplicate candidates, the files of a patch
preview, the source texts of a repair context, the per-file grouping of
fixes), the library keeps a `Vec` and states as an invariant what the ordered
or hashed collection would have given: no entry twice, ascending order where
order is shown, the last entry for a key wins. vstd's specifications of
`BTreeSet`, `BTreeMap` and `HashMap` let nothing be proved of lookups by a
`String` key, so with those collections these contracts could not be stated.
