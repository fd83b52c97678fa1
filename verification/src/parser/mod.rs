//! The document parser: from markup to the widget tree.

pub mod attribute_standard;
pub mod canvas;
pub mod document;
pub mod color_validator;
pub mod error;
pub mod includes;
pub mod tree;
pub mod values;
pub mod xml;
pub mod version;

pub use error::{ParseError, ParseErrorKind};
