//! Layout enums and their attribute-value parsers.

use crate::text::{concat3, keyword_of, spec_keyword, str_eq};
use vstd::prelude::*;

verus! {

/// Widget alignment on the cross axis.
#[derive(Debug, Clone, Copy, PartialEq, Eq, Hash)]
pub enum Alignment {
    Start,
    Center,
    End,
    Stretch,
}

/// Widget justification on the main axis.
#[derive(Debug, Clone, Copy, PartialEq, Eq, Hash)]
pub enum Justification {
    Start,
    Center,
    End,
    SpaceBetween,
    SpaceAround,
    SpaceEvenly,
}

/// Layout direction.
#[derive(Debug, Clone, Copy, PartialEq, Eq, Hash)]
pub enum Direction {
    Horizontal,
    HorizontalReverse,
    Vertical,
    VerticalReverse,
}

/// Positioning scheme.
#[derive(Debug, Clone, Copy, PartialEq, Eq, Hash)]
pub enum Position {
    Relative,
    Absolute,
}

/// Responsive breakpoint.
#[derive(Debug, Clone, Copy, PartialEq, Eq, Hash)]
pub enum Breakpoint {
    Mobile,
    Tablet,
    Desktop,
}

pub open spec fn alignment_named(k: Seq<char>) -> Option<Alignment> {
    if k == "start"@ {
        Some(Alignment::Start)
    } else if k == "center"@ {
        Some(Alignment::Center)
    } else if k == "end"@ {
        Some(Alignment::End)
    } else if k == "stretch"@ {
        Some(Alignment::Stretch)
    } else {
        None
    }
}

pub open spec fn justification_named(k: Seq<char>) -> Option<Justification> {
    if k == "start"@ {
        Some(Justification::Start)
    } else if k == "center"@ {
        Some(Justification::Center)
    } else if k == "end"@ {
        Some(Justification::End)
    } else if k == "space_between"@ {
        Some(Justification::SpaceBetween)
    } else if k == "space_around"@ {
        Some(Justification::SpaceAround)
    } else if k == "space_evenly"@ {
        Some(Justification::SpaceEvenly)
    } else {
        None
    }
}

pub open spec fn direction_named(k: Seq<char>) -> Option<Direction> {
    if k == "horizontal"@ {
        Some(Direction::Horizontal)
    } else if k == "horizontal_reverse"@ {
        Some(Direction::HorizontalReverse)
    } else if k == "vertical"@ {
        Some(Direction::Vertical)
    } else if k == "vertical_reverse"@ {
        Some(Direction::VerticalReverse)
    } else {
        None
    }
}

pub open spec fn position_named(k: Seq<char>) -> Option<Position> {
    if k == "relative"@ {
        Some(Position::Relative)
    } else if k == "absolute"@ {
        Some(Position::Absolute)
    } else {
        None
    }
}

pub open spec fn breakpoint_named(k: Seq<char>) -> Option<Breakpoint> {
    if k == "mobile"@ {
        Some(Breakpoint::Mobile)
    } else if k == "tablet"@ {
        Some(Breakpoint::Tablet)
    } else if k == "desktop"@ {
        Some(Breakpoint::Desktop)
    } else {
        None
    }
}

/// The error text for a value that names no variant: `prefix`, the raw value, `suffix`.
pub open spec fn quoted_error(prefix: Seq<char>, s: Seq<char>, suffix: Seq<char>) -> Seq<char> {
    prefix + s + suffix
}

/// What a keyword parser returns: the named variant, or the error text around `s`.
pub open spec fn keyword_result<T>(
    found: Option<T>,
    res: Result<T, String>,
    s: Seq<char>,
    prefix: Seq<char>,
    suffix: Seq<char>,
) -> bool {
    match found {
        Some(v) => res == Ok::<T, String>(v),
        None => res matches Err(m) && m@ == quoted_error(prefix, s, suffix),
    }
}

impl Alignment {
    /// Parses `start`, `center`, `end` or `stretch`, ignoring case and surrounding whitespace.
    pub fn parse(s: &str) -> (res: Result<Alignment, String>)
        ensures
            keyword_result(
                alignment_named(spec_keyword(s@)),
                res,
                s@,
                "Invalid alignment: '"@,
                "'. Expected start, center, end, or stretch"@,
            ),
    {
        let k = keyword_of(s);
        let k = k.as_str();
        if str_eq(k, "start") {
            Ok(Alignment::Start)
        } else if str_eq(k, "center") {
            Ok(Alignment::Center)
        } else if str_eq(k, "end") {
            Ok(Alignment::End)
        } else if str_eq(k, "stretch") {
            Ok(Alignment::Stretch)
        } else {
            Err(concat3("Invalid alignment: '", s, "'. Expected start, center, end, or stretch"))
        }
    }
}

impl Justification {
    /// Parses the six justification keywords, ignoring case and surrounding whitespace.
    pub fn parse(s: &str) -> (res: Result<Justification, String>)
        ensures
            keyword_result(
                justification_named(spec_keyword(s@)),
                res,
                s@,
                "Invalid justification: '"@,
                "'. Expected start, center, end, space_between, space_around, or space_evenly"@,
            ),
    {
        let k = keyword_of(s);
        let k = k.as_str();
        if str_eq(k, "start") {
            Ok(Justification::Start)
        } else if str_eq(k, "center") {
            Ok(Justification::Center)
        } else if str_eq(k, "end") {
            Ok(Justification::End)
        } else if str_eq(k, "space_between") {
            Ok(Justification::SpaceBetween)
        } else if str_eq(k, "space_around") {
            Ok(Justification::SpaceAround)
        } else if str_eq(k, "space_evenly") {
            Ok(Justification::SpaceEvenly)
        } else {
            Err(
                concat3(
                    "Invalid justification: '",
                    s,
                    "'. Expected start, center, end, space_between, space_around, or space_evenly",
                ),
            )
        }
    }
}

impl Direction {
    /// Parses the four direction keywords, ignoring case and surrounding whitespace.
    pub fn parse(s: &str) -> (res: Result<Direction, String>)
        ensures
            keyword_result(
                direction_named(spec_keyword(s@)),
                res,
                s@,
                "Invalid direction: '"@,
                "'. Expected horizontal, horizontal_reverse, vertical, or vertical_reverse"@,
            ),
    {
        let k = keyword_of(s);
        let k = k.as_str();
        if str_eq(k, "horizontal") {
            Ok(Direction::Horizontal)
        } else if str_eq(k, "horizontal_reverse") {
            Ok(Direction::HorizontalReverse)
        } else if str_eq(k, "vertical") {
            Ok(Direction::Vertical)
        } else if str_eq(k, "vertical_reverse") {
            Ok(Direction::VerticalReverse)
        } else {
            Err(
                concat3(
                    "Invalid direction: '",
                    s,
                    "'. Expected horizontal, horizontal_reverse, vertical, or vertical_reverse",
                ),
            )
        }
    }
}

impl Position {
    /// Parses `relative` or `absolute`, ignoring case and surrounding whitespace.
    pub fn parse(s: &str) -> (res: Result<Position, String>)
        ensures
            keyword_result(
                position_named(spec_keyword(s@)),
                res,
                s@,
                "Invalid position: '"@,
                "'. Expected relative or absolute"@,
            ),
    {
        let k = keyword_of(s);
        let k = k.as_str();
        if str_eq(k, "relative") {
            Ok(Position::Relative)
        } else if str_eq(k, "absolute") {
            Ok(Position::Absolute)
        } else {
            Err(concat3("Invalid position: '", s, "'. Expected relative or absolute"))
        }
    }
}

impl Breakpoint {
    /// Parses `mobile`, `tablet` or `desktop`, ignoring case and surrounding whitespace.
    pub fn parse(s: &str) -> (res: Result<Breakpoint, String>)
        ensures
            keyword_result(
                breakpoint_named(spec_keyword(s@)),
                res,
                s@,
                "Invalid breakpoint: '"@,
                "'. Expected mobile, tablet, or desktop"@,
            ),
    {
        let k = keyword_of(s);
        let k = k.as_str();
        if str_eq(k, "mobile") {
            Ok(Breakpoint::Mobile)
        } else if str_eq(k, "tablet") {
            Ok(Breakpoint::Tablet)
        } else if str_eq(k, "desktop") {
            Ok(Breakpoint::Desktop)
        } else {
            Err(concat3("Invalid breakpoint: '", s, "'. Expected mobile, tablet, or desktop"))
        }
    }
}

} // verus!
