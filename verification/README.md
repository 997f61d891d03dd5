# TamaWiki

A collaborative wiki: documents are edited concurrently by several
participants over WebSockets, and concurrent edits are reconciled by
operational transformation. The library in `src/` is verified with Verus;
`app/` is the server around it.

## Layout

- `src/document/`: documents, operations and events (`mod.rs`), their
  mathematical model (`model.rs`), the transformation of edits against
  concurrent edits (`transform_model.rs`, `transform.rs`), and the proofs
  that both orders of application converge (`grid.rs`, `squares.rs`,
  `laws.rs`).
- `src/store/`: the in-memory event store, its model and its laws.
- `src/session/`: document sessions, the session manager, participants,
  the messages exchanged with clients, and what each incoming frame of a
  connection means.
- `src/service/`: request routing, document pages, query strings, the
  WebSocket handshake and error pages.
- `tests/`: tests of the library, run with the real outside crates.
- `app/`: the HTTP and WebSocket server (hyper, tokio-tungstenite, tera,
  clap), which hands plain values to the library and performs its I/O.

## Main results

- Two concurrent edits from different participants, both accepted by a
  document, converge: each edit transformed against the other is accepted,
  and both orders of application give the same content and participants,
  and, where neither inserts nothing, the same authors' cursors
  (`document::laws::lemma_concurrent_edits_converge`). The same result is
  stated for the library's own values, where `Event::transform` and
  `Document::apply` are called on them
  (`document::laws::lemma_documents_converge`).
- Writing a client's edit, transformed against the events stored since the
  client last read, keeps the document's history applicable
  (`session::laws::lemma_transformed_edit_keeps_history`).
- `Document::apply` applies all operations of an edit or none, and keeps
  every cursor within the content.
- Participant ids are counted per document: while a document's session
  keeps a participant, the next one to join gets the id one past the number
  of joins of that document (`session::manager::lemma_ids_per_document`).
- The store returns exactly the events pushed, numbered from 1, and a
  document's content at any sequence id is the accumulated application of
  its events up to it.
