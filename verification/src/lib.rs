//! A line-oriented text buffer for screenplay documents, a classifier that
//! infers the role of each line from its shape and its predecessor, and the
//! editing session that an editor builds on the two.

pub mod buffer;
pub mod editor;
pub mod laws;
pub mod model;
pub mod parser;
pub mod processed;
pub mod scan;
pub mod settings;
pub mod text;

pub use buffer::Document;
pub use editor::{Editor, Motion};
pub use model::{Cursor, DocumentPath, LineKind, ParsedLine, Position};
pub use parser::parse_document;
pub use processed::{ProcessedView, ProcessedVisualLine};
pub use settings::PersistentSettings;
