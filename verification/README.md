# inkmlrs

A library for InkML ink documents and the pen-input state of a small drawing
program, with its behaviour stated in Verus contracts and proved.

- `src/inkml.rs` — the document tree (`Ink`, `Trace`, `TraceGroup`, `Traces`),
  adding strokes, and the breadth-first walk (`NodeIter`), with the proof that
  the walk visits every node exactly once.
- `src/write.rs` — the XML events that serialise a document (each element
  once, nested as in the document), with the proof that they are properly
  nested.
- `src/xml_io.rs` — the event types, and the calls into `xml-rs` that read
  events from bytes and write events to bytes.
- `src/parse.rs` — the state machine that rebuilds a document from reader
  events, and its statement on values (`build_step`, `build`).
- `src/read_back.rs` — the proof that feeding the builder the reader events
  that stand for a written document rebuilds that document.
- `src/state.rs` — the pen-input decisions (recording, flushing and
  committing strokes).
- `src/render.rs` — the renderer's queue of stroke vertices and their sections.
- `app/` — the `ggez` program around the library: windowing, file I/O, and the
  floating-point vertex text.
