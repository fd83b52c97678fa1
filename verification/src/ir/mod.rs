//! Intermediate representation of parsed documents.

pub mod layout;
pub mod menu;
pub mod name_map;
pub mod node;

pub mod style;
pub mod theme;

use vstd::prelude::*;

pub use layout::{Alignment, Breakpoint, Direction, Justification, Position};
pub use node::{
    AttributeMap, AttributeValue, BreakpointAttributes, EventBinding, EventKind, InterpolatedPart,
    StateAttributes, WidgetKind, WidgetNode,
};


verus! {

/// A source location: byte range plus 1-based line and column.
#[derive(Debug, Clone, Copy, PartialEq, Eq)]
pub struct Span {
    pub start: usize,
    pub end: usize,
    pub line: u32,
    pub column: u32,
}

impl Span {
    pub fn new(start: usize, end: usize, line: u32, column: u32) -> (res: Span)
        ensures
            res == (Span { start, end, line, column }),
    {
        Span { start, end, line, column }
    }
}

impl Default for Span {
    fn default() -> (res: Span)
        ensures
            res == (Span { start: 0, end: 0, line: 0, column: 0 }),
    {
        Span { start: 0, end: 0, line: 0, column: 0 }
    }
}

/// Schema version of a document: major and minor number.
#[derive(Debug, Clone, Copy, PartialEq, Eq)]
pub struct SchemaVersion {
    pub major: u16,
    pub minor: u16,
}

impl SchemaVersion {
    /// `self > other` in (major, minor) lexicographic order.
    pub open spec fn spec_newer_than(self, other: SchemaVersion) -> bool {
        self.major > other.major || (self.major == other.major && self.minor > other.minor)
    }

    pub fn newer_than(&self, other: &SchemaVersion) -> (res: bool)
        ensures
            res == self.spec_newer_than(*other),
    {
        self.major > other.major || (self.major == other.major && self.minor > other.minor)
    }
}

impl Default for SchemaVersion {
    /// Files without an explicit version are version 1.0.
    fn default() -> (res: SchemaVersion)
        ensures
            res == (SchemaVersion { major: 1, minor: 0 }),
    {
        SchemaVersion { major: 1, minor: 0 }
    }
}

} // verus!
