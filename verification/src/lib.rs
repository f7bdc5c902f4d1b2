//! A deterministic renderer for chains of causal errors.
//!
//! The crate turns a chain of error messages, an optional span-context text
//! and an optional captured stack-trace text into one precisely indented
//! block: every chain entry gets a numbered, right-aligned label, every
//! continuation line of a multi-line message is indented to line up under
//! the label, and the optional sections follow with exact separators.

pub mod error;
pub mod indent;
pub mod laws;
pub mod render;
pub mod span_trace;
pub mod text;

pub use error::ErrorImpl;
pub use indent::Indented;
pub use render::ErrorInfo;
pub use render::RootCauseFirst;
pub use render::RootCauseLast;
