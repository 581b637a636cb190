# beancount_budget_tool

Budget reports over Beancount ledgers: monthly or cumulative plan-versus-actual
per bucket, parent roll-up, asset-account locations, comparisons between two
ranges, and text, Markdown, CSV and JSON renderings.

Layout:

- `src/` is the library, written in Verus. Each public function carries a
  contract over a mathematical model (strings as `Seq<char>`, maps as `Map`,
  amounts as exact decimals), and the laws that tie functions together stand
  there as public proof functions.
  - `text`, `strmap`, `amount`, `util`: strings, ordered maps, exact decimals,
    bucket paths and months.
  - `ledger`, `config`, `template`: reading ledger text, budget keys, mappings
    and budget templates.
  - `budget`, `scoped`: collecting bucket flows and summarising them.
  - `report`, `detail`, `compare`: the renderings.
  - `cli`, `run`, `tui`: option handling, run decisions and the state machine
    of the terminal viewer.
- `app/` is the program around it: argument parsing, files, YAML and TOML
  input, exported files and the terminal user interface.
- `tests/` runs the library on concrete ledgers and budgets.
