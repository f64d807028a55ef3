# present

A picker that asks a human to choose one of a list of options and hands the
choice back as a clean value (plain text or one JSON line), plus a form that
fills in the arguments of a shelf module's command line before running it.

The library under `src/` is verified with Verus:

- `text`: trimming, decimal numbers, `usize` parsing, search, split and join;
- `ask`: checking a request, the numbered prompt, reading a pick, choosing
  where the pick comes from, and what stdout receives;
- `form`: the command-line tokenizer and the parameter form;
- `shelf`: finding modules on the shelf and reading `sheol search`;
- `tui`: the key handling of the full-screen picker and shelf browser;
- `progress`: the text of the progress strip;
- `protocol`, `error`, `cli`, `json`: the values, failures, routes and JSON
  text that cross the process boundary.

`app/` is the binary: command-line parsing, terminal drawing, stdin, the
`sheol` subprocess, running the filled command, and the JSON decoding of
requests, updates and shelf listings.
