# snatch

`snatch` looks into the sessions of a coding assistant: it lists them, searches them, compares
them, exports them and tells what can be learned from them. This crate holds what its commands
decide, compute and write, with contracts that Verus proves.

## Layout

- `src/` is the library. Every function has a contract over mathematical models (`Seq<char>` for a
  text, `Seq<Seq<char>>` for lines, `JsonView` for a JSON value), and is proved against it.
  - `text`, `order`, `names`, `json`, `time`, `patterns` are the ground that the commands stand on.
  - `model`, `provider`, `host`, `error` are the data that they share.
  - `commands` has one module for each command.
- `tests/` runs the library on concrete values.
- `app/` is the program around it: arguments, files, the terminal, the clipboard, the clock, and
  numbers with a fraction.

## What is trusted

The library calls `chrono` for the calendar, `regex` for patterns, `similar` for the steps between
two texts, `serde_json` for the text of a JSON string, and four functions of the standard library
on strings. Each of these calls stands behind one small function whose contract is believed, not
proved; its comment says what is believed.

The names of the assistant (what it is called, which models it has) are data: see `host`.
