# sq — SPARQL client for a QLever endpoint, verified with Verus

`sq` queries a SPARQL endpoint from the shell: it defaults the endpoint,
injects the `PREFIX` declarations a query uses, shrinks IRIs back to prefixed
names in human output, ships built-in queries (`any`, `graphs`, `classes`,
`count`, `about`, `desc`, `preds`), and guards updates behind `sq update`.

## Layout

- `src/` — the library, verified by Verus. Every decision the command makes
  lives here with a contract:
  - `text`, `scan` — character sequences: whitespace, words, searching,
    joining, case mapping.
  - `map` — `SortedMap`, a string-keyed map kept in ascending key order.
  - `prefixes` — the standard prefix set, `PREFIX` injection, the reverse
    table and IRI shrinking, with their laws.
  - `query` — query kinds, the destructive-update guard, the built-in
    queries.
  - `config` — merging config files and resolving the endpoint.
  - `cli` — flags found among trailing arguments, the subcommand plan, output
    choices, the query text.
  - `render` — terms, TSV/CSV lines, table cells, read and update plans.
  - `json` — pretty-printing JSON results through `serde_json`.
  - `error` — the errors and their messages.
- `app/` — the program around it: argument parsing, config files, the
  environment, HTTP, and printing.
- `tests/` — tests of the library on concrete values.
