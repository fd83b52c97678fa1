//! Border line styles.

use crate::ir::layout::keyword_result;
use crate::text::{concat3, keyword_of, spec_keyword, str_eq};
use vstd::prelude::*;

verus! {

/// How an image fills its box.
#[derive(Debug, Clone, Copy, PartialEq, Eq, Hash)]
pub enum ImageFit {
    Fill,
    Contain,
    Cover,
    ScaleDown,
}

/// Shape of a radial gradient.
#[derive(Debug, Clone, Copy, PartialEq, Eq, Hash)]
pub enum RadialShape {
    Circle,
    Ellipse,
}

/// Border line style.
#[derive(Debug, Clone, Copy, PartialEq, Eq, Hash)]
pub enum BorderStyle {
    Solid,
    Dashed,
    Dotted,
}

pub open spec fn border_style_named(k: Seq<char>) -> Option<BorderStyle> {
    if k == "solid"@ {
        Some(BorderStyle::Solid)
    } else if k == "dashed"@ {
        Some(BorderStyle::Dashed)
    } else if k == "dotted"@ {
        Some(BorderStyle::Dotted)
    } else {
        None
    }
}

impl BorderStyle {
    /// Parses `solid`, `dashed` or `dotted`, ignoring case and surrounding whitespace.
    pub fn parse(s: &str) -> (res: Result<BorderStyle, String>)
        ensures
            keyword_result(
                border_style_named(spec_keyword(s@)),
                res,
                s@,
                "Invalid border style: '"@,
                "'. Expected solid, dashed, or dotted"@,
            ),
    {
        let k = keyword_of(s);
        let k = k.as_str();
        if str_eq(k, "solid") {
            Ok(BorderStyle::Solid)
        } else if str_eq(k, "dashed") {
            Ok(BorderStyle::Dashed)
        } else if str_eq(k, "dotted") {
            Ok(BorderStyle::Dotted)
        } else {
            Err(concat3("Invalid border style: '", s, "'. Expected solid, dashed, or dotted"))
        }
    }
}

} // verus!
