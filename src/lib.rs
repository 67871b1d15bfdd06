pub mod bytes;
pub mod chunk;
pub mod codec;
pub mod document;
pub mod encoder;
pub mod error;
pub mod filter;
pub mod glitch;
pub mod header;
pub mod parser;
pub mod png;
pub mod scan_line;

pub use crate::document::ScanLineEdit;
pub use crate::error::PngError;
pub use crate::filter::FilterType;
pub use crate::glitch::{GlitchContext, PngGlitch};
pub use crate::scan_line::{MemoryRange, ScanLine};
