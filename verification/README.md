# smart-rg

A shim that stands in front of ripgrep. A search for code, such as `useState(`, is answered by
ripgrep and filtered by ast-grep, which tells code from comments and strings. Every other search goes
to ripgrep as it is.

- `src/` is the library: what the shim decides, stated in contracts and proved with Verus.
  The modules named `*_laws` state what holds of every call.
- `app/` is the program around it: it runs ripgrep and ast-grep, prints, and keeps the log in SQLite.
- `tests/` runs the library on concrete values.

Two things hold of every search. No match is hidden in silence: ripgrep's matches are shown unless
ast-grep looked into their file and did not confirm them, and then a notice says how many are
missing. And the shim never answers a different question: a flag that ast-grep cannot honour sends the
whole call to ripgrep.

What the proofs rest on is named where it is used: the contracts of `serde_json`'s reading functions
(`src/json.rs`), of the character classes of `char` (`src/chars.rs`), and of `String::push`
(`src/text.rs`).
