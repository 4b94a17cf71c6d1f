# requirements_core

A requirements manager's core, written in Verus: requirements with
human-readable identifiers, their relationships, comments and history, the
registry of projects, and what the command-line and graphical front ends do
with them. Every function under `src/` carries a contract; Verus proves
each one except the few marked `#[verifier::external_body]`, which make the
calls into std (case mapping, appending a character, debug formatting),
`uuid` and `chrono`. Their contracts are trusted, not proved, and each one's
doc comment says what it claims of the call.

## Layout

- `src/` — the verified library.
  - `model.rs`, `requirement.rs`, `comment.rs`, `thread.rs`: the data model.
  - `store.rs`, `numbering.rs`, `catalog.rs`, `relations.rs`, `graph.rs`,
    `features.rs`, `prefixes.rs`, `typedefs.rs`, `access.rs`: the store of a
    project and its rules (identifiers, relationships and their validation,
    cycles, features, prefixes, custom types).
  - `registry.rs`: the registry of projects.
  - `listing.rs`, `treeview.rs`, `presets.rs`: what the requirements list
    shows, in which order, and saved views.
  - `editing.rs`, `actions.rs`, `forms.rs`: what the editor's forms and
    commands do to the store.
  - `settings.rs`: settings of the graphical front end that hold no floats.
  - `cli.rs`: the commands of the command-line front end, as data.
  - `text.rs`, `order.rs`, `clock.rs`: text helpers, the text order, and
    the calls for identifiers and time.
- `tests/` — tests run against the compiled library.
- `app/` — what the library cannot hold: YAML files, the environment, the
  command-line parser and the settings file of the graphical front end.
