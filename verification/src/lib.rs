//! Symbol-table construction and dotted-path resolution for simple C
//! `typedef struct` declarations.
//!
//! The crate scans header text for struct declarations, scans usage text for
//! top-level variable declarations and dotted field-access expressions, and
//! resolves each access path to the terminal type that backs it.

pub mod catalog;
pub mod extract;
pub mod paths;
pub mod resolve;
pub mod text;
