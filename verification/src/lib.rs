//! Pretty, human-readable rendering of hierarchical tracing data: spans and
//! the events observed inside them, either streamed line by line or printed
//! as one tree when the root span closes.
pub mod clock;
pub mod extension;
pub mod fields;
pub mod format;
pub mod laws;
pub mod layer;
pub mod layout;
pub mod markup;
pub mod record;
pub mod store;
pub mod sub;
pub mod text;
pub mod tree;
pub mod visit;
