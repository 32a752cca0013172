# gqldiff

Diffs two GraphQL SDL schema documents and reports the changes that can
break an existing client: removed types, enums, fields and enum values,
changed field type signatures, new required arguments, and arguments that
became required. Additions are never reported.

```bash
gqldiff old-schema.graphql new-schema.graphql
```

prints `no breaking changes` (exit 0) or one line per breaking change
(exit 1).

## Layout

- `src/` is the library, verified with Verus.
  - `classes.rs`: the Unicode whitespace and word classes the scanner uses.
  - `text.rs`: strings as character sequences, code point order.
  - `scan.rs`: runs of a character class, character search.
  - `clean.rs`: removal of descriptions, string values, comments and
    directive usages.
  - `grammar.rs`: declaration headers, brace matching, fields, arguments,
    enum values.
  - `schema.rs`: the schema model, its name-ordered tables, and
    `parse_schema`, whose result is stated exactly by `parse_spec`. Each
    table is a `Vec` kept sorted by name, with each name once (a type
    invariant), rather than a `BTreeMap<String, _>`: vstd specifies
    `BTreeMap` only for keys whose ordering it models, and `String` is not
    one of them, so a map keyed by names could not carry the proofs. The
    sorted `Vec` gives the same lookups, the same replace-on-insert, and the
    same name order when walked.
  - `diff.rs`: `Change`, `describe`, and `diff_schemas`, stated exactly by
    `diff_spec`.
  - `laws.rs`: proved properties of the diff: a schema has no change against
    itself, additions are never reported, and a change is reported exactly
    when it is breaking.
- `app/main.rs` is the command-line program: argument handling, file
  reading, printing and the exit code.
- `tests/` holds the tests, among them one that reads generated documents
  both with the library and with the `regex` crate driven by the
  corresponding patterns, and checks that the readings agree.
