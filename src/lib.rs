//! Incremental writer for PDF documents: numbered indirect objects, a
//! cross-reference table of their byte offsets, and a trailer.
pub mod canvas;
pub mod layout;
pub mod text;
pub mod writer;

pub use canvas::Canvas;
pub use writer::Pdf;
