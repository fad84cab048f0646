# maximum_league

The verified core of the Maximum League desktop companion for the League of
Legends client (LCU).

- `src/` — the library, verified with Verus:
  - `text` — character-level string operations (trim, split, replace, search,
    UTF-8 byte previews) with exact specifications;
  - `number` — decimal parsing with the outcome of `str::parse` for `u16` and
    `i64`, decimal formatting, and their round trip;
  - `credentials` — LCU port and auth token from the lockfile or the client's
    command line (through `regex`);
  - `client` — request framing: endpoint URL, Basic authorization (through
    `base64`), HTTP status reading;
  - `status`, `draft`, `champions`, `mastery`, `debug` — what the LCU and
    Community Dragon replies mean for each frontend command.
- `app/` — the commands themselves: process list, lockfile, HTTP (`reqwest`),
  JSON decoding and encoding (`serde`, `serde_json`).
- `tests/` — tests of the library on concrete values.
