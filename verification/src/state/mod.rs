//! Runtime state kept while an application runs.

pub mod theme_context;

pub use theme_context::ThemeContext;
