# northstar

The foundation layer of the Northstar sandbox — asset identity, the `.nspkg`
filename grammar, the experimental chunked container codec, the asset loader's
decisions, the editor view and workspace models, and the developer tooling's
computations — written in Verus, with behaviour stated in `requires`/`ensures`
and proved. The exceptions are few and named in their doc comments: the
calls into `std` (a character's `Debug` text, UTF-8 decoding, path
components), whose contracts are trusted, and the `View` and
`WorkspaceHandle` trait methods that workspaces and views implement.

## Layout

- `src/` — the verified library.
  - `ident`, `package_id`, `puid`, `category`, `key`: identity segments and the
    identities built from them.
  - `filename`: the `.nspkg` filename grammar and classifier.
  - `wire`, `container`, `roundtrip`, `chunk`, `version`: the container codec,
    with the proof that decoding an encoded container gives it back.
  - `catalog`, `registry`, `load`, `testing`: package catalogs, the
    category/asset-type registry, the loader's checks and reference paths, and
    two trivial asset categories.
  - `editor`, `view`, `editor_ui`, `ui_model`: editor view identity and
    lifecycle, and the editor UI workspace model (panels, tabs, widgets, focus,
    split tree).
  - `phase`, `plugin`, `time`, `diagnostics`: startup phases, the engine
    plugins as values, the simulation clock modes, build provenance.
  - `cli`, `launcher`: what the developer CLI computes, and the launcher's
    decisions and status lines.
  - `text`: string helpers, including decimal formatting and the calls into
    `std` for a character's `Debug` text and UTF-8 decoding.
- `tests/` — tests run against the compiled library.
- `app/` — the `northstar-dev` command-line tool (file I/O, printing), plus the
  floating-point parts: workspace layout geometry and the simulation clock's
  time scale.
