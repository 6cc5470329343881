# creole

A parser for the Creole wiki markup, verified with Verus.

`parser::creoles` turns a text into a list of blocks (`creole::ICreole`):
paragraph lines with inline markup (bold, italic, links, images, forced line
breaks), headings, horizontal rules, unformatted blocks, tables and nested
bullet and numbered lists. `parser::try_creoles` also gives the unparsed rest.

Layout:

- `src/creole.rs`: the node type and its mathematical model.
- `src/grammar.rs`: the grammar as spec functions over character sequences;
  every parser's contract says it computes exactly these functions.
- `src/inline.rs`, `src/parser.rs`: the executable parsers and the public
  entry points, whose results use the `nom::IResult` type. The contracts
  say exactly when an entry point fails, but not what the error holds:
  nom's error type is opaque to the verifier. That a failure reports nom's
  error kind at the position where the markup stops matching is checked by
  the tests only, not proved.
- `take_while_parser_fail` and `collect_opt_pair1` take a `grammar::Markup`
  that says what their steps look for: inline markup, or blocks other than
  paragraph lines.
- `src/laws.rs`: properties proved of the grammar for all inputs.
- `src/shape.rs`: the well-formedness of every parsed tree, proved for all inputs.
- `app/`: the demonstration program and a serde-enabled copy of the node type.
