# libyaml_safer

A YAML 1.1 parser and emitter in safe Rust, verified with Verus: a reader
that decodes UTF-8 and UTF-16 input, a scanner that turns characters into
tokens, a parser that turns tokens into events, a composer that builds
documents of nodes, and an emitter that writes events (or whole documents)
back as YAML text in UTF-8 or UTF-16.

Every function is proved free of panics and overflow and to keep the
invariants of its data. How far the contracts go differs by part:

- Fully stated: character classes, decoding steps, simple keys and
  indentation, the analysis of scalars, the output encoding, the event
  constructors and the test-suite format; the writing of each scalar style
  where no line is folded.
- Stated in terms of the tokens: the parser records the tokens it takes,
  and a document start carries exactly the `%YAML` and `%TAG` values taken,
  in order, and a node event is the one its anchor, tag and content tokens
  give (tags resolved against the `%TAG` directives). Where the token at
  the head of the queue is settled, the next event is stated for the
  stream-start, document-start, document-end and node states.
- Stated for the cases that decide on the next token or character: the
  scanner on fully decoded input for the token queued by each first
  character, names, numbers, directives, anchors, tags and tag handles,
  URIs and their escapes (one UTF-8 character per run of escapes), quoted
  scalars on one line (with spaces, pairs of quotes and one-character
  escapes), plain scalars on one line, and characters that cannot start a
  token.
- Not stated: the values of folded, literal and multi-line scalars, the
  tokens of input that is still to be scanned, the documents that the
  composer builds, and the text that events and whole documents are
  written as; the tests check them on examples.

## Layout

- `src/` — the verified library.
  - `types.rs`, `token.rs`, `event.rs`, `error.rs`: the data the stages hand
    each other, and errors with their messages.
  - `chars.rs`, `text.rs`: character classes and small string operations.
  - `reader.rs`: byte-order-mark detection and UTF-8 / UTF-16 decoding.
  - `scanner.rs`: tokens, simple keys, indentation and the scalar scanners.
  - `parser.rs`: the event state machine, directives and tag resolution.
  - `document.rs`: documents, nodes, and the composer (`Document::load`).
  - `emitter.rs`, `emit.rs`, `analysis.rs`, `write.rs`, `writer.rs`: the
    emitter's state, its state machine, the analysis of anchors, tags and
    scalars, the writing of each scalar style, and the output encoding.
  - `dumper.rs`: writes a whole document, with anchors for shared nodes.
  - `api.rs`: the free-function interface (`yaml_parser_new`, ...).
  - `suite.rs`: the one-line-per-event text format of the YAML test suite.
- `tests/` — tests of the library on concrete inputs.
- `app/` — the two test-suite programs, which read files and write to
  standard output around the library.
