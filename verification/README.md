# squid

A line-oriented markup language: a tokenizer that classifies each input line
(headings `# `, `## `, `### `, quotes `> `, list items `- ` and `. `, dividers
`---`, decorators `[name]`, blank lines and text), a parser that groups the lines
into blocks (headings, paragraphs, quotes), and an HTML renderer with a
customisable `Format`.

Layout:

- `src/` — the library, verified with Verus. Each public function states what it
  returns over mathematical models (`Seq<char>` for text, sequences of input
  lines, block and event views); the laws of the library are public proof
  functions beside the functions they relate.
- `tests/` — scenarios, run against the compiled library.
- `app/` — what stays outside the verified library: `Display`/`Error` for the
  error type, `Iterator` adaptors, reading files, and an example custom format.
