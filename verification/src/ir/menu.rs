//! Dropdown menu placement.

use crate::text::{spec_to_lowercase, str_eq, str_to_lowercase};
use vstd::prelude::*;

verus! {

/// Position of a dropdown menu relative to its trigger.
#[derive(Debug, Clone, Copy, PartialEq, Eq, Hash)]
pub enum MenuPosition {
    Bottom,
    Top,
    Left,
    Right,
}

impl Default for MenuPosition {
    fn default() -> (res: MenuPosition)
        ensures
            res == MenuPosition::Bottom,
    {
        MenuPosition::Bottom
    }
}

pub open spec fn menu_position_named(k: Seq<char>) -> Option<MenuPosition> {
    if k == "bottom"@ {
        Some(MenuPosition::Bottom)
    } else if k == "top"@ {
        Some(MenuPosition::Top)
    } else if k == "left"@ {
        Some(MenuPosition::Left)
    } else if k == "right"@ {
        Some(MenuPosition::Right)
    } else {
        None
    }
}

impl MenuPosition {
    /// Parses `bottom`, `top`, `left` or `right`, ignoring case (whitespace is not trimmed).
    pub fn parse(s: &str) -> (res: Option<MenuPosition>)
        ensures
            res == menu_position_named(spec_to_lowercase(s@)),
    {
        let k = str_to_lowercase(s);
        let k = k.as_str();
        if str_eq(k, "bottom") {
            Some(MenuPosition::Bottom)
        } else if str_eq(k, "top") {
            Some(MenuPosition::Top)
        } else if str_eq(k, "left") {
            Some(MenuPosition::Left)
        } else if str_eq(k, "right") {
            Some(MenuPosition::Right)
        } else {
            None
        }
    }
}

} // verus!
