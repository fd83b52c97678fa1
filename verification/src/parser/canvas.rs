//! Which widgets may stand inside a canvas.

use crate::ir::node::{nodes_view, node_view, SpecNode, WidgetKind, WidgetNode};
use crate::ir::Span;
use crate::parser::attribute_standard::{kind_debug, widget_kind_debug};
use crate::parser::error::{perr, ParseError, ParseErrorKind, SpecParseError};
use crate::text::{push_str, to_owned_string};
use vstd::prelude::*;

verus! {

/// Shapes, and the control-flow elements, may stand inside a canvas.
pub open spec fn spec_is_canvas_shape(kind: WidgetKind) -> bool {
    match kind {
        WidgetKind::CanvasRect | WidgetKind::CanvasCircle | WidgetKind::CanvasLine
        | WidgetKind::CanvasText | WidgetKind::CanvasGroup | WidgetKind::For | WidgetKind::If => true,
        _ => false,
    }
}

pub fn is_canvas_shape(kind: &WidgetKind) -> (res: bool)
    ensures
        res == spec_is_canvas_shape(*kind),
{
    match kind {
        WidgetKind::CanvasRect | WidgetKind::CanvasCircle | WidgetKind::CanvasLine
        | WidgetKind::CanvasText | WidgetKind::CanvasGroup | WidgetKind::For | WidgetKind::If => true,
        _ => false,
    }
}

/// The first widget, from child `i` on and descending into groups, that may
/// not stand inside a canvas.
pub open spec fn first_invalid_canvas_child(cs: Seq<SpecNode>, i: int) -> Option<(WidgetKind, Span)>
    decreases cs, cs.len() - i,
{
    if i < 0 || i >= cs.len() {
        None
    } else if !spec_is_canvas_shape(cs[i].kind) {
        Some((cs[i].kind, cs[i].span))
    } else if cs[i].kind is CanvasGroup {
        match {
            proof {
                assert(decreases_to!(cs => cs[i]));
                assert(decreases_to!(cs[i] => cs[i].children));
            }
            first_invalid_canvas_child(cs[i].children, 0)
        } {
            Some(x) => Some(x),
            None => first_invalid_canvas_child(cs, i + 1),
        }
    } else {
        first_invalid_canvas_child(cs, i + 1)
    }
}

pub open spec fn invalid_canvas_child_error(w: (WidgetKind, Span)) -> SpecParseError {
    perr(
        ParseErrorKind::InvalidChild,
        "Invalid child for Canvas: "@ + kind_debug(w.0)
            + ". Only shapes (rect, circle, line, text, group) are allowed."@,
        w.1,
        Some("Remove this widget or move it outside the <canvas>"@),
    )
}

/// Checks that every child of a canvas, and of its groups, is a shape.
pub fn validate_canvas_children(children: &[WidgetNode], span: Span) -> (res: Result<(), ParseError>)
    ensures
        match first_invalid_canvas_child(nodes_view(children@), 0) {
            None => res is Ok,
            Some(w) => res matches Err(e) && e@ == invalid_canvas_child_error(w),
        },
    decreases children@,
{
    let mut i: usize = 0;
    while i < children.len()
        invariant
            i <= children@.len(),
            first_invalid_canvas_child(nodes_view(children@), 0) == first_invalid_canvas_child(nodes_view(children@), i as int),
        decreases children.len() - i,
    {
        let child = &children[i];
        assert(nodes_view(children@)[i as int] == node_view(children@[i as int]));
        if !is_canvas_shape(&child.kind) {
            let mut msg = to_owned_string("Invalid child for Canvas: ");
            let d = widget_kind_debug(&child.kind);
            push_str(&mut msg, d.as_str());
            push_str(&mut msg, ". Only shapes (rect, circle, line, text, group) are allowed.");
            return Err(
                ParseError::new(
                    ParseErrorKind::InvalidChild,
                    msg,
                    child.span,
                    Some(to_owned_string("Remove this widget or move it outside the <canvas>")),
                ),
            );
        }
        if matches!(child.kind, WidgetKind::CanvasGroup) {
            proof {
                assert(decreases_to!(children@ => children@[i as int]));
                assert(decreases_to!(children@[i as int] => children@[i as int].children));
                assert(decreases_to!(children@[i as int].children => children@[i as int].children@));
            }
            assert(node_view(*child).children =~= nodes_view(child.children@));
            match validate_canvas_children(child.children.as_slice(), child.span) {
                Err(e) => {
                    return Err(e);
                },
                Ok(()) => {},
            }
        }
        i = i + 1;
    }
    Ok(())
}

} // verus!
