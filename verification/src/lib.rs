//! InkML documents: the trace tree, its breadth-first walk, the event
//! sequence that serialises it, the state machine that rebuilds it from
//! XML reader events, the pen-input state of the drawing program, and the
//! renderer's stroke queue.
pub mod error;
pub mod inkml;
pub mod parse;
pub mod read_back;
pub mod render;
pub mod state;
pub mod write;
pub mod xml_io;
