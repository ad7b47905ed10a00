# puml_tooling

Tooling that turns PlantUML diagrams and C++ class information into
traceability artefacts, written in Verus: the library's logic carries
`requires`/`ensures` contracts that Verus proves.

## Layout

- `src/` — the verified library.
  - `parser_core/` — the parse tree (`ParseNode`, `Rule`) that the diagram
    parsers read, shared arrow and note handling.
  - `class_diagram/`, `sequence/`, `activity/`, `component_diagram/` — one
    parser per diagram kind, from a parse tree to the diagram's syntax tree.
  - `preprocessor/` — `!include` expansion (cycles, include-once, sub blocks)
    and procedure (macro) expansion.
  - `cpp/`, `visitor/` — C++ type rendering, callables and the decisions of
    the AST visitors, working on plain values read from the AST.
  - `fta.rs`, `idmap.rs`, `lobster.rs`, `linker.rs`, `linker_input.rs` — fault
    trees, identifier maps, trace items and the linking of diagrams.
  - `cli.rs`, `golden.rs`, `coverage.rs`, `text.rs` — run planning and
    messages, comparisons, and text helpers.
- `tests/` — tests of the library.
- `app/` — the command-line program: argument handling, files, JSON output.

Each public function states what it returns over spec-level models of its
inputs; laws that span several functions are public proof functions (named
`lemma_...`) beside the code they speak of.

## Checking

Verus verifies `src/`; the tests run against the compiled library.
