# oapi

A command-line client for OpenAPI (swagger) JSON documents: a document is
registered under a short name, and its operations are then called like shell
commands (operationIds become kebab-case commands, path parameters become
positional arguments, query and header parameters become `--kebab-case`
flags).

## Layout

- `src/` is the library, verified with Verus: every public function states in
  its contract, over a mathematical model (`Seq<char>`, `JsonV`, ...), the
  result it returns or the error it stops with.
  - `text` — character-level helpers (search, trim, decimal numbers, padding);
  - `json` — the JSON value, its model and its compact text;
  - `jq` — the `--jq` path selection;
  - `bind` — percent-encoding and the typed `-F key=value` body fields;
  - `output` — masking of credentials and the printed forms of responses;
  - `openapi` — kebab-case names, `$ref` pointers, the operations of a
    document and its base URL;
  - `registry` — the stored `{"source", "fetched_at", "spec"}` document and the
    `oapi ls` listing;
  - `util` — registry names and file locations;
  - `http` — methods, header lines, prepared requests, success statuses;
  - `cli` and `call` — the command line: options, `connect`, `schema`, `api`
    and operation calls, worked out as plain values before anything is sent.
- `app/` is the program around it: environment, files, standard input, the
  network (ureq) and conversion between `serde_json::Value` and the library's
  `Json`.
- `tests/` runs the library on concrete values.

Besides the contracts, `src/` proves properties of the library as a whole,
such as: reading back a saved entry gives the entry that was saved; the
listing is sorted by name and lists every entry; a kebab-case name never
starts or ends with `-`, and for an ASCII name it keeps the name's letters
and is unchanged by a second application; a path joined with `.` selects from
each value its first part selects; a percent-encoded text holds only URL-safe bytes;
`--header` never takes the list of headers past sixteen.
