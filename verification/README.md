# zellig

A command-line tool that translates text and localization files (JSON, TOML,
YAML, Markdown, gettext PO, XLIFF) through a choice of translation services.

The library under `src/` is written in Verus; every function in it is checked
against its `requires`/`ensures` contract.

- `formats/` — the file formats: which strings a file offers for translation,
  with the id that finds each again, and the file rebuilt with translations
  put in.  `tree.rs` holds the structured documents (JSON, TOML, YAML) as a
  tree; `po.rs`, `markdown.rs` and `xliff.rs` edit the text in place.
- `translator/` — each service's settings checks, request signatures and
  addresses, and how its answers are read.
- `tui.rs` — the terminal interface's state and what keys, pastes and
  finished tasks do to it.
- `cli.rs`, `config.rs`, `manager.rs`, `output.rs`, `stats.rs`,
  `language_detector.rs`, `error.rs` — the command line's decisions, the
  settings and their defaults, the model hub and cache names, messages, counts.
- `text.rs` — the string model shared by the rest: chars, UTF-8 byte offsets,
  lines, trimming, ordering.

Laws that hold across functions are public proof functions named `law_*`.

`app/` is the program around the library: it reads the command line, the
configuration and the files, sends the requests, and prints.  `tests/` runs
the library on concrete inputs.
