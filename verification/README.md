# fbx

Reading of FBX binary documents (FBX 7.4 and later), verified with Verus.

- `src/low`: what the bytes of a document mean.
- `src/pull_parser`: a pull parser. `v7400::from_reader` makes one;
  `Parser::next_event` hands out the start and the end of nodes, and
  `Attributes::visit_next` shows attributes to a visitor.
  `v7400/laws.rs`, `v7400/visits.rs` and `v7400/grammar.rs` hold what is proved of
  events, visits and documents as a whole.
- `src/dom`: the tree that a loaded document is kept in.
- `app`: readers of the system, messages, and floating point numbers.
