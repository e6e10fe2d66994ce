//! The items that a subscriber needs, under one path.
pub use crate::clock::SpanExtTiming;
pub use crate::extension::SpanExtension;
pub use crate::format::PrettyConsoleLayer;
pub use crate::visit::EventVisitor;
pub use crate::visit::SpanExtAttrs;
