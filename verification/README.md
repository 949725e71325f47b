# javafmt

A Java source formatter in the style of google-java-format, written in Verus.
The library in `src/` is verified; `app/` holds the command-line tool, the
benchmark and reference-comparison harnesses, and everything else that reads
files, the environment or runs other programs.

## Layout

- `src/lexer.rs`: the lexer; its tokens tile the input.
- `src/syntax.rs`, `src/parser.rs`, `src/cst.rs`, `src/comments.rs`,
  `src/ir.rs`: the parsed file, its top-level outline and the printer's input.
- `src/printer/`: the token printer (`engine.rs`) and the scanners it asks
  (`analysis.rs`), operator reading (`symbols.rs`), comment and javadoc
  normalization (`output.rs`).
- `src/declarations.rs`: modifier order and wrapping of multi-variable
  declarations on the printed text.
- `src/doc.rs`, `src/layout.rs`: a document IR and its renderer.
- `src/source_file.rs`: the file formatter, with the package/import path.
- `src/compat.rs`: line endings and the ordering of top-level imports.
- `src/emit.rs`: trailing-whitespace trimming.
- `src/suite.rs`, `src/bench.rs`: the tallies of the reference suite and the
  settings of the benchmark.

## What is proved

Besides the contract of each function, among others:

- the lexer's tokens tile the input exactly;
- the printer's output has no run of three newlines, ends with a newline,
  and differs from the meaningful tokens of its input only in spaces and
  line breaks, each block comment taken as normalized at the indentation
  it was printed at;
- the printer's output is exactly the finished text (runs of blank lines
  cut, a final newline) of a run of the printer over the tokens, each step
  related to the state before it as `token_step` describes.
  `format_tokens`, `print` and the token path of `format_str` state this
  in their public contracts. What a step fixes, given the state before it:
  for a literal, the text written and the whole state after it; for a word
  outside a switch label, the text written (a space where the previous
  token asks for one, the line's indentation, the word, its line breaks)
  and the whole printer state after it (what the word announces, the word
  as the previous token, the close of an annotation), though not whether
  the text then ends at the start of a line; for an operator, the text
  written for most kinds (generic angle brackets, `++`, `--`, `...`, `,`,
  `)` and `;` tight, binary operators spaced, `+`, `-`, `!`, `~` by context,
  `{` and `}` with their line breaks and indentation) and that it becomes
  the previous token; for binary, prefix and postfix operators, `?` and
  angle brackets, the exact text and the whole state after it. The rest of the state after
  other operators (`{`, `}`, `(`, `)`, `;`, `,`, `:`, `=`, `.`, `[`, `]`,
  `::`, `@`, `+`, `-`: indentation, open blocks, pending flags,
  continuations) is not stated,
  nor the state after a comment or a switch label, nor their text beyond
  its visible characters; so the contracts do not fix the printed text as
  a whole;
- emitting (trimming trailing blanks and ending with a newline) is
  idempotent, and CRLF output reads back as the text it was written from;
- sorting of import lines yields a sorted permutation;
- rendering a document of hard lines yields its flat text at every width;
- trimming leaves no trailing blanks and keeps every other character.
