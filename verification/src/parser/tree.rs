//! From XML records to widget nodes.

use crate::expr::ast::{BindingExpr, Expr, LiteralExpr, SpecExpr, SpecLiteral};
use crate::expr::tokenizer::{spec_tokenize, tokenize_binding_expr};
use crate::ir::layout::{breakpoint_named, Breakpoint};
use crate::ir::node::{
    binding_opt_view, events_view, node_view, nodes_view, string_opt_view, AttributeMap,
    AttributeValue, BreakpointAttributes, EventBinding, EventKind, SpecAttr, SpecEvent, SpecNode,
    StateAttributes, WidgetKind, WidgetNode,
};
use crate::ir::theme::{widget_state_named, WidgetState};
use crate::ir::Span;
use crate::parser::attribute_standard::{kind_debug, kind_display, normalize_attributes, spec_normalize, widget_kind_debug};
use crate::parser::canvas::{first_invalid_canvas_child, invalid_canvas_child_error};
use crate::parser::color_validator::starts_with;
use crate::parser::error::{opt_view, perr, ParseError, ParseErrorKind, SpecParseError};
use crate::parser::values::{
    calculate_line_col, checked_line_col, find_char, lemma_first_index_bounds, lemma_utf8_prefix_mono,
    line_col, line_col_fits, parse_attribute_value, prefix_bytes, spec_attribute_value, spec_line_col,
};
use crate::parser::version::first_index;
use crate::parser::xml::{XmlAttribute, XmlDocument, XmlNamespace, XmlRecord};
use crate::text::{
    byte_offset, char_is_whitespace, first_non_ws_from, i64_to_decimal, lemma_utf8_prefix_len_bound, push_str,
    spec_is_whitespace, spec_signed_decimal, spec_trim, str_chars, str_eq, string_from_chars,
    to_owned_string, trim_str, u64_to_decimal, utf8_prefix_len, spec_decimal,
};
use vstd::prelude::*;

verus! {

// ---------------------------------------------------------------------------
// Tag names
// ---------------------------------------------------------------------------

/// The widget a tag name stands for.
pub open spec fn kind_of_tag(t: Seq<char>) -> Option<WidgetKind> {
    if t == "column"@ { Some(WidgetKind::Column) }
    else if t == "row"@ { Some(WidgetKind::Row) }
    else if t == "container"@ { Some(WidgetKind::Container) }
    else if t == "scrollable"@ { Some(WidgetKind::Scrollable) }
    else if t == "stack"@ { Some(WidgetKind::Stack) }
    else if t == "text"@ { Some(WidgetKind::Text) }
    else if t == "image"@ { Some(WidgetKind::Image) }
    else if t == "svg"@ { Some(WidgetKind::Svg) }
    else if t == "button"@ { Some(WidgetKind::Button) }
    else if t == "text_input"@ { Some(WidgetKind::TextInput) }
    else if t == "checkbox"@ { Some(WidgetKind::Checkbox) }
    else if t == "slider"@ { Some(WidgetKind::Slider) }
    else if t == "pick_list"@ { Some(WidgetKind::PickList) }
    else if t == "toggler"@ { Some(WidgetKind::Toggler) }
    else if t == "space"@ { Some(WidgetKind::Space) }
    else if t == "rule"@ { Some(WidgetKind::Rule) }
    else if t == "radio"@ { Some(WidgetKind::Radio) }
    else if t == "combobox"@ { Some(WidgetKind::ComboBox) }
    else if t == "progress_bar"@ { Some(WidgetKind::ProgressBar) }
    else if t == "tooltip"@ { Some(WidgetKind::Tooltip) }
    else if t == "grid"@ { Some(WidgetKind::Grid) }
    else if t == "canvas"@ { Some(WidgetKind::Canvas) }
    else if t == "rect"@ { Some(WidgetKind::CanvasRect) }
    else if t == "circle"@ { Some(WidgetKind::CanvasCircle) }
    else if t == "line"@ { Some(WidgetKind::CanvasLine) }
    else if t == "canvas_text"@ { Some(WidgetKind::CanvasText) }
    else if t == "group"@ { Some(WidgetKind::CanvasGroup) }
    else if t == "float"@ { Some(WidgetKind::Float) }
    else if t == "for"@ { Some(WidgetKind::For) }
    else if t == "if"@ { Some(WidgetKind::If) }
    else { None }
}

/// Every tag that `WidgetKind::all_standard` lists is recognised by the tag
/// table of the tree builder (`kind_of_tag`), so an element with such a tag is
/// never refused as an unknown widget.
pub proof fn lemma_standard_tags_are_known()
    ensures
        forall|i: int|
            0 <= i < crate::ir::node::standard_widget_names().len() ==> (#[trigger] kind_of_tag(
                crate::ir::node::standard_widget_names()[i],
            )) is Some,
        forall|n: Seq<char>| #[trigger] crate::ir::node::standard_widget_names().contains(n) ==> kind_of_tag(n) is Some,
{
    let names = crate::ir::node::standard_widget_names();
    assert(kind_of_tag(names[0]) is Some);
    assert(kind_of_tag(names[1]) is Some);
    assert(kind_of_tag(names[2]) is Some);
    assert(kind_of_tag(names[3]) is Some);
    assert(kind_of_tag(names[4]) is Some);
    assert(kind_of_tag(names[5]) is Some);
    assert(kind_of_tag(names[6]) is Some);
    assert(kind_of_tag(names[7]) is Some);
    assert(kind_of_tag(names[8]) is Some);
    assert(kind_of_tag(names[9]) is Some);
    assert(kind_of_tag(names[10]) is Some);
    assert(kind_of_tag(names[11]) is Some);
    assert(kind_of_tag(names[12]) is Some);
    assert(kind_of_tag(names[13]) is Some);
    assert(kind_of_tag(names[14]) is Some);
    assert(kind_of_tag(names[15]) is Some);
    assert(kind_of_tag(names[16]) is Some);
    assert(kind_of_tag(names[17]) is Some);
    assert(kind_of_tag(names[18]) is Some);
    assert(kind_of_tag(names[19]) is Some);
    assert(kind_of_tag(names[20]) is Some);
    assert(kind_of_tag(names[21]) is Some);
    assert(kind_of_tag(names[22]) is Some);
    assert(kind_of_tag(names[23]) is Some);
    assert(kind_of_tag(names[24]) is Some);
    assert forall|n: Seq<char>| #[trigger] names.contains(n) implies kind_of_tag(n) is Some by {
        let k = choose|k: int| 0 <= k < names.len() && names[k] == n;
        assert(kind_of_tag(names[k]) is Some);
    }
}

fn widget_kind_of(t: &str) -> (res: Option<WidgetKind>)
    ensures
        res == kind_of_tag(t@),
{
    if str_eq(t, "column") { Some(WidgetKind::Column) }
    else if str_eq(t, "row") { Some(WidgetKind::Row) }
    else if str_eq(t, "container") { Some(WidgetKind::Container) }
    else if str_eq(t, "scrollable") { Some(WidgetKind::Scrollable) }
    else if str_eq(t, "stack") { Some(WidgetKind::Stack) }
    else if str_eq(t, "text") { Some(WidgetKind::Text) }
    else if str_eq(t, "image") { Some(WidgetKind::Image) }
    else if str_eq(t, "svg") { Some(WidgetKind::Svg) }
    else if str_eq(t, "button") { Some(WidgetKind::Button) }
    else if str_eq(t, "text_input") { Some(WidgetKind::TextInput) }
    else if str_eq(t, "checkbox") { Some(WidgetKind::Checkbox) }
    else if str_eq(t, "slider") { Some(WidgetKind::Slider) }
    else if str_eq(t, "pick_list") { Some(WidgetKind::PickList) }
    else if str_eq(t, "toggler") { Some(WidgetKind::Toggler) }
    else if str_eq(t, "space") { Some(WidgetKind::Space) }
    else if str_eq(t, "rule") { Some(WidgetKind::Rule) }
    else if str_eq(t, "radio") { Some(WidgetKind::Radio) }
    else if str_eq(t, "combobox") { Some(WidgetKind::ComboBox) }
    else if str_eq(t, "progress_bar") { Some(WidgetKind::ProgressBar) }
    else if str_eq(t, "tooltip") { Some(WidgetKind::Tooltip) }
    else if str_eq(t, "grid") { Some(WidgetKind::Grid) }
    else if str_eq(t, "canvas") { Some(WidgetKind::Canvas) }
    else if str_eq(t, "rect") { Some(WidgetKind::CanvasRect) }
    else if str_eq(t, "circle") { Some(WidgetKind::CanvasCircle) }
    else if str_eq(t, "line") { Some(WidgetKind::CanvasLine) }
    else if str_eq(t, "canvas_text") { Some(WidgetKind::CanvasText) }
    else if str_eq(t, "group") { Some(WidgetKind::CanvasGroup) }
    else if str_eq(t, "float") { Some(WidgetKind::Float) }
    else if str_eq(t, "for") { Some(WidgetKind::For) }
    else if str_eq(t, "if") { Some(WidgetKind::If) }
    else { None }
}

pub open spec fn valid_widgets_text() -> Seq<char> {
    "Valid widgets are: column, row, container, scrollable, stack, text, image, svg, button, text_input, checkbox, slider, pick_list, toggler, space, rule, radio, combobox, progress_bar, tooltip, grid, canvas, float, for, if"@
}

// ---------------------------------------------------------------------------
// Attribute names
// ---------------------------------------------------------------------------

/// The prefix declared for namespace `uri` at the element (the first
/// declaration with that URI), or the empty text.
pub open spec fn prefix_for(nss: Seq<XmlNamespace>, uri: Seq<char>, k: int) -> Seq<char>
    decreases nss.len() - k,
{
    if k < 0 || k >= nss.len() {
        Seq::empty()
    } else if nss[k].uri@ == uri {
        match nss[k].prefix {
            Some(p) => p@,
            None => Seq::empty(),
        }
    } else {
        prefix_for(nss, uri, k + 1)
    }
}

/// The name an attribute is known by: state-namespace attributes keep their
/// prefix (`hover:background`), others go by their local name.
pub open spec fn attr_full_name(rec: XmlRecord, a: XmlAttribute) -> Seq<char> {
    match a.namespace {
        Some(ns) => if starts_with(ns@, "urn:dampen:state"@) {
            prefix_for(rec.namespaces@, ns@, 0) + ":"@ + a.name@
        } else {
            a.name@
        },
        None => a.name@,
    }
}

fn namespace_prefix(nss: &Vec<XmlNamespace>, uri: &str) -> (res: String)
    ensures
        res@ == prefix_for(nss@, uri@, 0),
{
    let mut k: usize = 0;
    while k < nss.len()
        invariant
            k <= nss@.len(),
            prefix_for(nss@, uri@, 0) == prefix_for(nss@, uri@, k as int),
        decreases nss.len() - k,
    {
        if str_eq(nss[k].uri.as_str(), uri) {
            return match &nss[k].prefix {
                Some(p) => p.clone(),
                None => String::new(),
            };
        }
        k = k + 1;
    }
    String::new()
}

fn str_starts_with(s: &str, p: &str) -> (res: bool)
    ensures
        res == starts_with(s@, p@),
{
    let sc = str_chars(s);
    let pc = str_chars(p);
    if pc.len() > sc.len() {
        return false;
    }
    let mut i: usize = 0;
    while i < pc.len()
        invariant
            i <= pc.len() <= sc.len(),
            sc@ == s@,
            pc@ == p@,
            forall|j: int| 0 <= j < i ==> sc@[j] == pc@[j],
        decreases pc.len() - i,
    {
        if sc[i] != pc[i] {
            assert(sc@.subrange(0, pc@.len() as int)[i as int] != pc@[i as int]);
            return false;
        }
        i = i + 1;
    }
    assert(sc@.subrange(0, pc@.len() as int) =~= pc@);
    true
}

fn attribute_name(rec: &XmlRecord, a: &XmlAttribute) -> (res: String)
    ensures
        res@ == attr_full_name(*rec, *a),
{
    match &a.namespace {
        Some(ns) => {
            if str_starts_with(ns.as_str(), "urn:dampen:state") {
                let mut s = namespace_prefix(&rec.namespaces, ns.as_str());
                push_str(&mut s, ":");
                push_str(&mut s, a.name.as_str());
                s
            } else {
                a.name.clone()
            }
        },
        None => a.name.clone(),
    }
}

// ---------------------------------------------------------------------------
// Events
// ---------------------------------------------------------------------------

/// The event an `on_*` attribute stands for on a widget of kind `kind`.
pub open spec fn event_kind_of(name: Seq<char>, kind: WidgetKind) -> Option<EventKind> {
    if name == "on_click"@ {
        Some(if kind is Canvas { EventKind::CanvasClick } else { EventKind::Click })
    } else if name == "on_press"@ {
        Some(EventKind::Press)
    } else if name == "on_release"@ {
        Some(if kind is Canvas { EventKind::CanvasRelease } else { EventKind::Release })
    } else if name == "on_drag"@ {
        Some(EventKind::CanvasDrag)
    } else if name == "on_move"@ {
        Some(EventKind::CanvasMove)
    } else if name == "on_change"@ {
        Some(EventKind::Change)
    } else if name == "on_input"@ {
        Some(EventKind::Input)
    } else if name == "on_submit"@ {
        Some(EventKind::Submit)
    } else if name == "on_select"@ {
        Some(EventKind::Select)
    } else if name == "on_toggle"@ {
        Some(EventKind::Toggle)
    } else if name == "on_scroll"@ {
        Some(EventKind::Scroll)
    } else {
        None
    }
}

/// The attribute that binds a handler to an event.
pub open spec fn event_attribute(e: EventKind) -> Seq<char> {
    match e {
        EventKind::Click | EventKind::CanvasClick => "on_click"@,
        EventKind::Press => "on_press"@,
        EventKind::Release | EventKind::CanvasRelease => "on_release"@,
        EventKind::CanvasDrag => "on_drag"@,
        EventKind::CanvasMove => "on_move"@,
        EventKind::Change => "on_change"@,
        EventKind::Input => "on_input"@,
        EventKind::Submit => "on_submit"@,
        EventKind::Select => "on_select"@,
        EventKind::Toggle => "on_toggle"@,
        EventKind::Scroll => "on_scroll"@,
    }
}

/// An event attribute is read as the event it names: the kind found for an
/// `on_*` attribute is one whose attribute is that very name (so distinct
/// names give distinct kinds), every event's attribute is recognised on
/// every widget, and clicks and releases are canvas events exactly on a canvas.
pub proof fn lemma_event_attribute_names(name: Seq<char>, kind: WidgetKind)
    ensures
        event_kind_of(name, kind) matches Some(e) ==> event_attribute(e) == name,
        forall|e: EventKind| #[trigger] event_kind_of(event_attribute(e), kind) is Some,
        event_kind_of(name, kind) matches Some(e) ==> ((e is CanvasClick || e is CanvasRelease) ==> kind is Canvas),
        event_kind_of(name, kind) matches Some(e) ==> ((e is Click || e is Release) ==> !(kind is Canvas)),
{
}

fn event_kind(name: &str, kind: &WidgetKind) -> (res: Option<EventKind>)
    ensures
        res == event_kind_of(name@, *kind),
{
    let canvas = matches!(kind, WidgetKind::Canvas);
    if str_eq(name, "on_click") {
        Some(if canvas { EventKind::CanvasClick } else { EventKind::Click })
    } else if str_eq(name, "on_press") {
        Some(EventKind::Press)
    } else if str_eq(name, "on_release") {
        Some(if canvas { EventKind::CanvasRelease } else { EventKind::Release })
    } else if str_eq(name, "on_drag") {
        Some(EventKind::CanvasDrag)
    } else if str_eq(name, "on_move") {
        Some(EventKind::CanvasMove)
    } else if str_eq(name, "on_change") {
        Some(EventKind::Change)
    } else if str_eq(name, "on_input") {
        Some(EventKind::Input)
    } else if str_eq(name, "on_submit") {
        Some(EventKind::Submit)
    } else if str_eq(name, "on_select") {
        Some(EventKind::Select)
    } else if str_eq(name, "on_toggle") {
        Some(EventKind::Toggle)
    } else if str_eq(name, "on_scroll") {
        Some(EventKind::Scroll)
    } else {
        None
    }
}

/// First position, from `i` on, whose character is not `c` (or the length).
pub open spec fn lead_end(s: Seq<char>, c: char, i: int) -> int
    decreases s.len() - i,
{
    if i < 0 || i >= s.len() || s[i] != c {
        i
    } else {
        lead_end(s, c, i + 1)
    }
}

/// One past the last position before `j` whose character is not `c` (or 0).
pub open spec fn trail_end(s: Seq<char>, c: char, j: int) -> int
    decreases j,
{
    if j <= 0 || j > s.len() || s[j - 1] != c {
        j
    } else {
        trail_end(s, c, j - 1)
    }
}

/// `s` without leading and trailing `c` (`str::trim_matches`).
pub open spec fn strip_char(s: Seq<char>, c: char) -> Seq<char> {
    let a = lead_end(s, c, 0);
    let b = trail_end(s, c, s.len() as int);
    if a >= b {
        Seq::empty()
    } else {
        s.subrange(a, b)
    }
}

proof fn lemma_lead_end(s: Seq<char>, c: char, i: int)
    requires
        0 <= i <= s.len(),
    ensures
        i <= lead_end(s, c, i) <= s.len(),
        lead_end(s, c, i) < s.len() ==> s[lead_end(s, c, i)] != c,
    decreases s.len() - i,
{
    if i < s.len() && s[i] == c {
        lemma_lead_end(s, c, i + 1);
    }
}

proof fn lemma_trail_end(s: Seq<char>, c: char, j: int)
    requires
        0 <= j <= s.len(),
    ensures
        0 <= trail_end(s, c, j) <= j,
    decreases j,
{
    if j > 0 && s[j - 1] == c {
        lemma_trail_end(s, c, j - 1);
    }
}

fn strip_chars(s: &[char], c: char) -> (res: Vec<char>)
    ensures
        res@ == strip_char(s@, c),
{
    let mut a: usize = 0;
    while a < s.len() && s[a] == c
        invariant
            a <= s@.len(),
            lead_end(s@, c, 0) == lead_end(s@, c, a as int),
        decreases s.len() - a,
    {
        a = a + 1;
    }
    let mut b: usize = s.len();
    while b > 0 && s[b - 1] == c
        invariant
            b <= s@.len(),
            trail_end(s@, c, s@.len() as int) == trail_end(s@, c, b as int),
        decreases b,
    {
        b = b - 1;
    }
    if a >= b {
        return Vec::new();
    }
    let mut out: Vec<char> = Vec::new();
    let mut k: usize = a;
    while k < b
        invariant
            a <= k <= b <= s@.len(),
            out@ == s@.subrange(a as int, k as int),
        decreases b - k,
    {
        out.push(s[k]);
        k = k + 1;
    }
    out
}

/// The handler name and parameter of an event attribute value:
/// `handler`, `handler:{expression}` or `handler:'text'`. A parameter that
/// does not parse leaves the whole value as the handler name.
pub open spec fn spec_event_value(v: Seq<char>) -> (Seq<char>, Option<(SpecExpr, Span)>) {
    let c = first_index(v, ':');
    if c < 0 || c >= v.len() {
        (v, None)
    } else {
        let h = v.subrange(0, c);
        let ps = v.subrange(c + 1, v.len() as int);
        let cb = utf8_prefix_len(v, c);
        if ps.len() >= 2 && ps[0] == '\'' && ps.last() == '\'' {
            (
                h,
                Some(
                    (
                        SpecExpr::Literal(SpecLiteral::Str(ps.subrange(1, ps.len() - 1))),
                        Span {
                            start: (cb + 1) as usize,
                            end: (cb + 1 + utf8_prefix_len(ps, ps.len() as int)) as usize,
                            line: 1,
                            column: (cb + 1) as u32,
                        },
                    ),
                ),
            )
        } else {
            let clean = strip_char(strip_char(ps, '{'), '}');
            match spec_tokenize(clean) {
                Ok(e) => (
                    h,
                    Some(
                        (
                            e,
                            Span {
                                start: 0,
                                end: utf8_prefix_len(clean, clean.len() as int) as usize,
                                line: 1,
                                column: 1,
                            },
                        ),
                    ),
                ),
                Err(_) => (v, None),
            }
        }
    }
}

proof fn lemma_utf8_total_of_sub(s: Seq<char>, a: int, b: int)
    requires
        0 <= a <= b <= s.len(),
    ensures
        utf8_prefix_len(s.subrange(a, b), b - a) <= 4 * s.len(),
{
    lemma_utf8_prefix_len_bound(s.subrange(a, b), b - a);
}

fn parse_event_value(value: &str) -> (res: (String, Option<BindingExpr>))
    requires
        utf8_prefix_len(value@, value@.len() as int) + 1 <= u32::MAX,
        4 * value@.len() + 2 <= usize::MAX,
    ensures
        (res.0@, binding_opt_view(res.1)) == spec_event_value(value@),
{
    let v = str_chars(value);
    let c = find_char(v.as_slice(), 0, ':');
    assert(v@.subrange(0, v@.len() as int) =~= v@);
    proof {
        lemma_first_index_bounds(v@, ':');
    }
    if c >= v.len() {
        return (to_owned_string(value), None);
    }
    let ps = &v.as_slice()[c + 1..v.len()];
    assert(ps@ =~= v@.subrange(c + 1, v@.len() as int));
    let handler = string_from_chars(&v.as_slice()[0..c]);
    assert(handler@ =~= v@.subrange(0, c as int));
    proof {
        lemma_utf8_prefix_len_bound(v@, c as int);
        lemma_utf8_prefix_mono(v@, c as int, v@.len() as int);
        lemma_utf8_total_of_sub(v@, c + 1, v@.len() as int);
    }
    let cb = prefix_bytes(v.as_slice(), c);
    if ps.len() >= 2 && ps[0] == '\'' && ps[ps.len() - 1] == '\'' {
        let inner = string_from_chars(&ps[1..ps.len() - 1]);
        assert(inner@ =~= ps@.subrange(1, ps@.len() - 1));
        let pb = prefix_bytes(ps, ps.len());
        proof {
            lemma_utf8_prefix_len_bound(ps@, ps@.len() as int);
        }
        let expr = BindingExpr {
            expr: Expr::Literal(LiteralExpr::String(inner)),
            span: Span::new(cb as usize + 1, cb as usize + 1 + pb as usize, 1, cb as u32 + 1),
        };
        return (handler, Some(expr));
    }
    let s1 = strip_chars(ps, '{');
    let clean = strip_chars(s1.as_slice(), '}');
    let clean_str = string_from_chars(clean.as_slice());
    proof {
        lemma_lead_end(ps@, '{', 0);
        lemma_trail_end(ps@, '{', ps@.len() as int);
        lemma_lead_end(s1@, '}', 0);
        lemma_trail_end(s1@, '}', s1@.len() as int);
        lemma_utf8_prefix_len_bound(clean@, clean@.len() as int);
    }
    match tokenize_binding_expr(clean_str.as_str(), 0, 1, 1) {
        Ok(expr) => (handler, Some(expr)),
        Err(_) => (to_owned_string(value), None),
    }
}

// ---------------------------------------------------------------------------
// Splitting names
// ---------------------------------------------------------------------------

/// `s.split_once(c)`.
pub open spec fn split_once(s: Seq<char>, c: char) -> Option<(Seq<char>, Seq<char>)> {
    let k = first_index(s, c);
    if 0 <= k < s.len() {
        Some((s.subrange(0, k), s.subrange(k + 1, s.len() as int)))
    } else {
        None
    }
}

fn split_once_at(s: &str, c: char) -> (res: Option<(String, String)>)
    ensures
        match split_once(s@, c) {
            Some((a, b)) => res matches Some(p) && p.0@ == a && p.1@ == b,
            None => res is None,
        },
{
    let v = str_chars(s);
    let k = find_char(v.as_slice(), 0, c);
    assert(v@.subrange(0, v@.len() as int) =~= v@);
    proof {
        lemma_first_index_bounds(v@, c);
    }
    if k >= v.len() {
        return None;
    }
    let a = string_from_chars(&v.as_slice()[0..k]);
    let b = string_from_chars(&v.as_slice()[k + 1..v.len()]);
    assert(a@ =~= v@.subrange(0, k as int));
    assert(b@ =~= v@.subrange(k + 1, v@.len() as int));
    Some((a, b))
}

// ---------------------------------------------------------------------------
// Class lists
// ---------------------------------------------------------------------------

/// End of the run of non-whitespace characters starting at `i`.
pub open spec fn word_end(s: Seq<char>, i: int) -> int
    decreases s.len() - i,
{
    if i < 0 || i >= s.len() || spec_is_whitespace(s[i]) {
        i
    } else {
        word_end(s, i + 1)
    }
}

pub proof fn lemma_word_end(s: Seq<char>, i: int)
    requires
        0 <= i <= s.len(),
    ensures
        i <= word_end(s, i) <= s.len(),
        forall|j: int| i <= j < word_end(s, i) ==> !spec_is_whitespace(#[trigger] s[j]),
    decreases s.len() - i,
{
    if i < s.len() && !spec_is_whitespace(s[i]) {
        lemma_word_end(s, i + 1);
    }
}

pub proof fn lemma_first_non_ws(s: Seq<char>, i: int)
    requires
        0 <= i <= s.len(),
    ensures
        i <= first_non_ws_from(s, i) <= s.len(),
        first_non_ws_from(s, i) < s.len() ==> !spec_is_whitespace(s[first_non_ws_from(s, i)]),
    decreases s.len() - i,
{
    if i < s.len() && spec_is_whitespace(s[i]) {
        lemma_first_non_ws(s, i + 1);
    }
}

/// The whitespace-separated words of `s` from position `i` (`str::split_whitespace`).
pub open spec fn words_from(s: Seq<char>, i: int) -> Seq<Seq<char>>
    decreases s.len() - i,
{
    if i < 0 || i > s.len() {
        Seq::empty()
    } else {
        let a = first_non_ws_from(s, i);
        if a >= s.len() {
            Seq::empty()
        } else {
            let b = word_end(s, a);
            proof {
                lemma_first_non_ws(s, i);
                lemma_word_end(s, a);
                assert(word_end(s, a) == word_end(s, a + 1));
                lemma_word_end(s, a + 1);
            }
            seq![s.subrange(a, b)] + words_from(s, b)
        }
    }
}

fn split_whitespace(s: &str) -> (res: Vec<String>)
    ensures
        res@.map_values(|w: String| w@) == words_from(s@, 0),
{
    let v = str_chars(s);
    let mut out: Vec<String> = Vec::new();
    let mut i: usize = 0;
    assert(out@.map_values(|w: String| w@) =~= Seq::<Seq<char>>::empty());
    loop
        invariant_except_break
            i <= v@.len(),
            v@ == s@,
            out@.map_values(|w: String| w@) + words_from(v@, i as int) == words_from(v@, 0),
        ensures
            out@.map_values(|w: String| w@) == words_from(v@, 0),
            v@ == s@,
        decreases v@.len() - i,
    {
        let ghost i0 = i as int;
        while i < v.len() && char_is_whitespace(v[i])
            invariant
                i0 <= i <= v@.len(),
                first_non_ws_from(v@, i0) == first_non_ws_from(v@, i as int),
            decreases v.len() - i,
        {
            i = i + 1;
        }
        if i >= v.len() {
            assert(words_from(v@, i0) =~= Seq::<Seq<char>>::empty());
            assert(out@.map_values(|w: String| w@) =~= out@.map_values(|w: String| w@) + words_from(v@, i0));
            break;
        }
        let a = i;
        proof {
            lemma_word_end(v@, a as int);
        }
        while i < v.len() && !char_is_whitespace(v[i])
            invariant
                a <= i <= v@.len(),
                word_end(v@, a as int) == word_end(v@, i as int),
            decreases v.len() - i,
        {
            i = i + 1;
        }
        let ghost before = out@.map_values(|w: String| w@);
        out.push(string_from_chars(&v.as_slice()[a..i]));
        assert(out@.map_values(|w: String| w@) =~= before.push(v@.subrange(a as int, i as int)));
        assert(words_from(v@, i0) == seq![v@.subrange(a as int, i as int)] + words_from(v@, i as int));
        assert(out@.map_values(|w: String| w@) + words_from(v@, i as int) =~= before + words_from(v@, i0));
    }
    out
}

// ---------------------------------------------------------------------------
// Size limits under which positions and spans fit their integer types
// ---------------------------------------------------------------------------

/// An attribute value of an element whose span starts at byte `start` and
/// column `col`: byte offsets into the value fit `usize` and columns `u32`.
pub open spec fn value_fits(start: usize, col: nat, v: Seq<char>) -> bool {
    &&& start + 4 * v.len() + 2 <= usize::MAX
    &&& col + utf8_prefix_len(v, v.len() as int) <= u32::MAX
}

/// The line and column of the record's start fit `u32`, and so do the
/// positions computed inside its attribute values.
pub open spec fn record_fits(r: XmlRecord, src: Seq<char>) -> bool {
    &&& line_col_fits(src, r.start as int)
    &&& forall|k: int|
        0 <= k < r.attributes@.len() ==> value_fits(
            r.start,
            spec_line_col(src, r.start as int).1,
            (#[trigger] r.attributes@[k]).value@,
        )
}

/// Every position and span computed for the document fits its integer type.
pub open spec fn doc_fits(doc: XmlDocument, src: Seq<char>) -> bool {
    forall|i: int| 0 <= i < doc.nodes@.len() ==> record_fits(#[trigger] doc.nodes@[i], src)
}

/// Checks `doc_fits`.
pub fn document_fits(doc: &XmlDocument, source: &str) -> (res: bool)
    ensures
        res == doc_fits(*doc, source@),
{
    let mut i: usize = 0;
    while i < doc.nodes.len()
        invariant
            i <= doc.nodes@.len(),
            forall|j: int| 0 <= j < i ==> record_fits(#[trigger] doc.nodes@[j], source@),
        decreases doc.nodes.len() - i,
    {
        let r = &doc.nodes[i];
        let col = match checked_line_col(source, r.start) {
            Some((_, c)) => c,
            None => {
                proof {
                    assert(!record_fits(doc.nodes@[i as int], source@));
                }
                return false;
            },
        };
        let mut k: usize = 0;
        while k < r.attributes.len()
            invariant
                k <= r.attributes@.len(),
                i < doc.nodes@.len(),
                *r == doc.nodes@[i as int],
                line_col_fits(source@, r.start as int),
                col == spec_line_col(source@, r.start as int).1,
                forall|j: int| 0 <= j < i ==> record_fits(#[trigger] doc.nodes@[j], source@),
                forall|m: int| 0 <= m < k ==> value_fits(r.start, col as nat, (#[trigger] r.attributes@[m]).value@),
            decreases r.attributes.len() - k,
        {
            let cs = str_chars(r.attributes[k].value.as_str());
            let n = cs.len();
            let b = byte_offset(&cs, n);
            if n > (usize::MAX - 2) / 4 || r.start > usize::MAX - 2 - 4 * n || b > (4294967295u32 - col) as u128 {
                proof {
                    assert(!value_fits(r.start, col as nat, r.attributes@[k as int].value@));
                    assert(!record_fits(doc.nodes@[i as int], source@));
                }
                return false;
            }
            k = k + 1;
        }
        i = i + 1;
    }
    true
}

// ---------------------------------------------------------------------------
// Attributes of an element
// ---------------------------------------------------------------------------

/// What the attributes of an element have produced so far.
pub struct AttrAcc {
    pub id: Option<Seq<char>>,
    pub attrs: Map<Seq<char>, SpecAttr>,
    pub events: Seq<SpecEvent>,
    pub bps: Map<Breakpoint, Map<Seq<char>, SpecAttr>>,
    pub states: Map<WidgetState, Map<Seq<char>, SpecAttr>>,
}

pub open spec fn empty_acc() -> AttrAcc {
    AttrAcc {
        id: None,
        attrs: Map::empty(),
        events: Seq::empty(),
        bps: Map::new(|b: Breakpoint| true, |b: Breakpoint| Map::<Seq<char>, SpecAttr>::empty()),
        states: Map::new(|s: WidgetState| true, |s: WidgetState| Map::<Seq<char>, SpecAttr>::empty()),
    }
}

/// A name `prefix-rest` whose prefix names a breakpoint.
pub open spec fn bp_prefixed(name: Seq<char>) -> Option<(Breakpoint, Seq<char>)> {
    match split_once(name, '-') {
        Some((p, r)) => match breakpoint_named(crate::text::spec_keyword(p)) {
            Some(bp) => Some((bp, r)),
            None => None,
        },
        None => None,
    }
}

/// A name `prefix:rest` whose prefix names a widget state.
pub open spec fn state_prefixed(name: Seq<char>) -> Option<(WidgetState, Seq<char>)> {
    match split_once(name, ':') {
        Some((p, r)) => match widget_state_named(crate::text::spec_keyword(p)) {
            Some(st) => Some((st, r)),
            None => None,
        },
        None => None,
    }
}

/// One attribute: `id`; an event (`on_*`); a breakpoint-prefixed attribute
/// (`mobile-spacing`); a state-prefixed one (`hover:background`); or a plain one.
pub open spec fn attr_step(acc: AttrAcc, kind: WidgetKind, rec: XmlRecord, a: XmlAttribute, span: Span) -> Result<AttrAcc, SpecParseError> {
    let name = attr_full_name(rec, a);
    let value = a.value@;
    if name == "id"@ {
        Ok(AttrAcc { id: Some(value), ..acc })
    } else if starts_with(name, "on_"@) && event_kind_of(name, kind) is Some {
        let (h, param) = spec_event_value(value);
        Ok(AttrAcc { events: acc.events.push((event_kind_of(name, kind)->0, h, param, span)), ..acc })
    } else if bp_prefixed(name) is Some {
        let (bp, rest) = bp_prefixed(name)->0;
        match spec_attribute_value(value, span) {
            Err(e) => Err(e),
            Ok(v) => Ok(AttrAcc { bps: acc.bps.insert(bp, acc.bps[bp].insert(rest, v)), ..acc }),
        }
    } else if state_prefixed(name) is Some {
        let (st, rest) = state_prefixed(name)->0;
        match spec_attribute_value(value, span) {
            Err(e) => Err(e),
            Ok(v) => Ok(AttrAcc { states: acc.states.insert(st, acc.states[st].insert(rest, v)), ..acc }),
        }
    } else {
        match spec_attribute_value(value, span) {
            Err(e) => Err(e),
            Ok(v) => Ok(AttrAcc { attrs: acc.attrs.insert(name, v), ..acc }),
        }
    }
}

/// The first `k` attributes of `rec`, in order.
pub open spec fn process_attrs(kind: WidgetKind, rec: XmlRecord, span: Span, k: int) -> Result<AttrAcc, SpecParseError>
    decreases k,
{
    if k <= 0 {
        Ok(empty_acc())
    } else {
        match process_attrs(kind, rec, span, k - 1) {
            Err(e) => Err(e),
            Ok(acc) => attr_step(acc, kind, rec, rec.attributes@[k - 1], span),
        }
    }
}

proof fn lemma_process_err(kind: WidgetKind, rec: XmlRecord, span: Span, m: int, n: int)
    requires
        0 <= m <= n,
        process_attrs(kind, rec, span, m) is Err,
    ensures
        process_attrs(kind, rec, span, n) == process_attrs(kind, rec, span, m),
    decreases n - m,
{
    if m < n {
        lemma_process_err(kind, rec, span, m, n - 1);
    }
}

pub open spec fn acc_view(
    id: Option<String>,
    attributes: AttributeMap,
    events: Seq<EventBinding>,
    bp: BreakpointAttributes,
    st: StateAttributes,
) -> AttrAcc {
    AttrAcc {
        id: string_opt_view(id),
        attrs: attributes@,
        events: events_view(events),
        bps: Map::new(|b: Breakpoint| true, |b: Breakpoint| bp.spec_get(b)),
        states: Map::new(|s: WidgetState| true, |s: WidgetState| st.spec_get(s)),
    }
}

// ---------------------------------------------------------------------------
// Widget-specific attribute checks
// ---------------------------------------------------------------------------

pub open spec fn missing_attribute(kind: WidgetKind, name: Seq<char>, span: Span, suggestion: Seq<char>) -> SpecParseError {
    perr(ParseErrorKind::MissingAttribute, kind_debug(kind) + " widget requires '"@ + name + "' attribute"@, span, Some(suggestion))
}

pub open spec fn spec_require(kind: WidgetKind, name: Seq<char>, m: Map<Seq<char>, SpecAttr>, span: Span, suggestion: Seq<char>) -> Result<(), SpecParseError> {
    if m.dom().contains(name) {
        Ok(())
    } else {
        Err(missing_attribute(kind, name, span, suggestion))
    }
}

pub open spec fn spec_require_non_empty(kind: WidgetKind, name: Seq<char>, m: Map<Seq<char>, SpecAttr>, span: Span, suggestion: Seq<char>) -> Result<(), SpecParseError> {
    if m.dom().contains(name) && m[name] is Static && spec_trim(m[name]->Static_0).len() > 0 {
        Ok(())
    } else {
        Err(perr(ParseErrorKind::MissingAttribute, kind_debug(kind) + " widget requires '"@ + name + "' attribute to be non-empty"@, span, Some(suggestion)))
    }
}

pub open spec fn spec_numeric_range(kind: WidgetKind, name: Seq<char>, m: Map<Seq<char>, SpecAttr>, span: Span, lo: i32, hi: i32) -> Result<(), SpecParseError> {
    if m.dom().contains(name) && m[name] is Static && crate::text::spec_parse_i32(m[name]->Static_0) is Some {
        let v = crate::text::spec_parse_i32(m[name]->Static_0)->0;
        if lo <= v <= hi {
            Ok(())
        } else {
            Err(perr(
                ParseErrorKind::InvalidValue,
                name + " for "@ + kind_debug(kind) + " "@ + name + " must be between "@ + spec_signed_decimal(lo as int)
                    + " and "@ + spec_signed_decimal(hi as int) + ", found "@ + spec_signed_decimal(v as int),
                span,
                Some("Use "@ + name + " value between "@ + spec_signed_decimal(lo as int) + " and "@ + spec_signed_decimal(hi as int)),
            ))
        }
    } else {
        Ok(())
    }
}

/// Checks the attributes each kind of widget needs. Shape attributes
/// (transforms and sizes, which are numbers with fractions) are checked by
/// the style layer.
pub open spec fn spec_validate_widget_attributes(kind: WidgetKind, m: Map<Seq<char>, SpecAttr>, span: Span) -> Result<(), SpecParseError> {
    match kind {
        WidgetKind::ComboBox | WidgetKind::PickList => spec_require_non_empty(kind, "options"@, m, span, "Add a comma-separated list: options=\"Option1,Option2\""@),
        WidgetKind::Canvas => match spec_numeric_range(kind, "width"@, m, span, 50, 4000) {
            Err(e) => Err(e),
            Ok(_) => spec_numeric_range(kind, "height"@, m, span, 50, 4000),
        },
        WidgetKind::Grid => match spec_require(kind, "columns"@, m, span, "Add columns attribute: columns=\"5\""@) {
            Err(e) => Err(e),
            Ok(_) => spec_numeric_range(kind, "columns"@, m, span, 1, 20),
        },
        WidgetKind::Tooltip => spec_require(kind, "message"@, m, span, "Add message attribute: message=\"Help text\""@),
        WidgetKind::For => match spec_require(kind, "each"@, m, span, "Add each attribute: each=\"item\""@) {
            Err(e) => Err(e),
            Ok(_) => spec_require(kind, "in"@, m, span, "Add in attribute: in=\"{items}\""@),
        },
        _ => Ok(()),
    }
}

fn require_attribute(kind: &WidgetKind, name: &str, attributes: &AttributeMap, span: Span, suggestion: &str) -> (res: Result<(), ParseError>)
    ensures
        match spec_require(*kind, name@, attributes@, span, suggestion@) {
            Ok(()) => res is Ok,
            Err(e) => res matches Err(r) && r@ == e,
        },
{
    if !attributes.contains_key(name) {
        let mut msg = widget_kind_debug(kind);
        push_str(&mut msg, " widget requires '");
        push_str(&mut msg, name);
        push_str(&mut msg, "' attribute");
        return Err(ParseError::new(ParseErrorKind::MissingAttribute, msg, span, Some(to_owned_string(suggestion))));
    }
    Ok(())
}

fn require_non_empty_attribute(kind: &WidgetKind, name: &str, attributes: &AttributeMap, span: Span, suggestion: &str) -> (res: Result<(), ParseError>)
    ensures
        match spec_require_non_empty(*kind, name@, attributes@, span, suggestion@) {
            Ok(()) => res is Ok,
            Err(e) => res matches Err(r) && r@ == e,
        },
{
    match attributes.get(name) {
        Some(AttributeValue::Static(value)) => {
            let t = trim_str(value.as_str());
            if t.as_str().unicode_len() > 0 {
                return Ok(());
            }
        },
        _ => {},
    }
    let mut msg = widget_kind_debug(kind);
    push_str(&mut msg, " widget requires '");
    push_str(&mut msg, name);
    push_str(&mut msg, "' attribute to be non-empty");
    Err(ParseError::new(ParseErrorKind::MissingAttribute, msg, span, Some(to_owned_string(suggestion))))
}

fn validate_numeric_range(kind: &WidgetKind, name: &str, attributes: &AttributeMap, span: Span, lo: i32, hi: i32) -> (res: Result<(), ParseError>)
    ensures
        match spec_numeric_range(*kind, name@, attributes@, span, lo, hi) {
            Ok(()) => res is Ok,
            Err(e) => res matches Err(r) && r@ == e,
        },
{
    match attributes.get(name) {
        Some(AttributeValue::Static(value_str)) => {
            match crate::text::parse_i32(value_str.as_str()) {
                Some(v) => {
                    if lo <= v && v <= hi {
                        return Ok(());
                    }
                    let los = i64_to_decimal(lo as i64);
                    let his = i64_to_decimal(hi as i64);
                    let vs = i64_to_decimal(v as i64);
                    let kd = widget_kind_debug(kind);
                    let mut msg = to_owned_string(name);
                    push_str(&mut msg, " for ");
                    push_str(&mut msg, kd.as_str());
                    push_str(&mut msg, " ");
                    push_str(&mut msg, name);
                    push_str(&mut msg, " must be between ");
                    push_str(&mut msg, los.as_str());
                    push_str(&mut msg, " and ");
                    push_str(&mut msg, his.as_str());
                    push_str(&mut msg, ", found ");
                    push_str(&mut msg, vs.as_str());
                    let mut sug = to_owned_string("Use ");
                    push_str(&mut sug, name);
                    push_str(&mut sug, " value between ");
                    push_str(&mut sug, los.as_str());
                    push_str(&mut sug, " and ");
                    push_str(&mut sug, his.as_str());
                    Err(ParseError::new(ParseErrorKind::InvalidValue, msg, span, Some(sug)))
                },
                None => Ok(()),
            }
        },
        _ => Ok(()),
    }
}

/// Checks the attributes a widget of this kind needs.
pub fn validate_widget_attributes(kind: &WidgetKind, attributes: &AttributeMap, span: Span) -> (res: Result<(), ParseError>)
    ensures
        match spec_validate_widget_attributes(*kind, attributes@, span) {
            Ok(()) => res is Ok,
            Err(e) => res matches Err(r) && r@ == e,
        },
{
    match kind {
        WidgetKind::ComboBox | WidgetKind::PickList => require_non_empty_attribute(
            kind,
            "options",
            attributes,
            span,
            "Add a comma-separated list: options=\"Option1,Option2\"",
        ),
        WidgetKind::Canvas => {
            match validate_numeric_range(kind, "width", attributes, span, 50, 4000) {
                Err(e) => Err(e),
                Ok(()) => validate_numeric_range(kind, "height", attributes, span, 50, 4000),
            }
        },
        WidgetKind::Grid => {
            match require_attribute(kind, "columns", attributes, span, "Add columns attribute: columns=\"5\"") {
                Err(e) => Err(e),
                Ok(()) => validate_numeric_range(kind, "columns", attributes, span, 1, 20),
            }
        },
        WidgetKind::Tooltip => require_attribute(kind, "message", attributes, span, "Add message attribute: message=\"Help text\""),
        WidgetKind::For => {
            match require_attribute(kind, "each", attributes, span, "Add each attribute: each=\"item\"") {
                Err(e) => Err(e),
                Ok(()) => require_attribute(kind, "in", attributes, span, "Add in attribute: in=\"{items}\""),
            }
        },
        _ => Ok(()),
    }
}

/// A tooltip wraps exactly one widget.
pub open spec fn spec_tooltip_children(n: nat, span: Span) -> Result<(), SpecParseError> {
    if n == 0 {
        Err(perr(ParseErrorKind::InvalidValue, "Tooltip widget must have exactly one child widget"@, span, Some("Wrap a single widget in <tooltip></tooltip>"@)))
    } else if n > 1 {
        Err(perr(ParseErrorKind::InvalidValue, "Tooltip widget must have exactly one child, found "@ + spec_decimal(n), span, Some("Wrap only one widget in <tooltip></tooltip>"@)))
    } else {
        Ok(())
    }
}

fn validate_tooltip_children(children: &[WidgetNode], span: Span) -> (res: Result<(), ParseError>)
    ensures
        match spec_tooltip_children(children@.len(), span) {
            Ok(()) => res is Ok,
            Err(e) => res matches Err(r) && r@ == e,
        },
{
    if children.len() == 0 {
        return Err(ParseError::new(
            ParseErrorKind::InvalidValue,
            to_owned_string("Tooltip widget must have exactly one child widget"),
            span,
            Some(to_owned_string("Wrap a single widget in <tooltip></tooltip>")),
        ));
    }
    if children.len() > 1 {
        let mut msg = to_owned_string("Tooltip widget must have exactly one child, found ");
        let n = u64_to_decimal(children.len() as u64);
        push_str(&mut msg, n.as_str());
        return Err(ParseError::new(ParseErrorKind::InvalidValue, msg, span, Some(to_owned_string("Wrap only one widget in <tooltip></tooltip>"))));
    }
    Ok(())
}

/// A canvas draws either with a program or with child shapes.
pub open spec fn spec_canvas_children(m: Map<Seq<char>, SpecAttr>, children: Seq<SpecNode>, span: Span) -> Result<(), SpecParseError> {
    if m.dom().contains("program"@) && children.len() > 0 {
        Err(perr(
            ParseErrorKind::InvalidValue,
            "Canvas cannot have both a 'program' attribute and child shapes"@,
            span,
            Some("Remove the 'program' attribute to use declarative shapes, or remove children to use a custom program"@),
        ))
    } else {
        match first_invalid_canvas_child(children, 0) {
            None => Ok(()),
            Some(w) => Err(invalid_canvas_child_error(w)),
        }
    }
}

fn validate_canvas_node(attributes: &AttributeMap, children: &[WidgetNode], span: Span) -> (res: Result<(), ParseError>)
    ensures
        match spec_canvas_children(attributes@, nodes_view(children@), span) {
            Ok(()) => res is Ok,
            Err(e) => res matches Err(r) && r@ == e,
        },
{
    if attributes.contains_key("program") && children.len() > 0 {
        return Err(ParseError::new(
            ParseErrorKind::InvalidValue,
            to_owned_string("Canvas cannot have both a 'program' attribute and child shapes"),
            span,
            Some(to_owned_string("Remove the 'program' attribute to use declarative shapes, or remove children to use a custom program")),
        ));
    }
    crate::parser::canvas::validate_canvas_children(children, span)
}

// ---------------------------------------------------------------------------
// Splitting prefixed names
// ---------------------------------------------------------------------------

fn breakpoint_split(name: &str) -> (res: Option<(Breakpoint, String)>)
    ensures
        match bp_prefixed(name@) {
            Some((bp, r)) => res matches Some(p) && p.0 == bp && p.1@ == r,
            None => res is None,
        },
{
    match split_once_at(name, '-') {
        Some((p, r)) => match Breakpoint::parse(p.as_str()) {
            Ok(bp) => Some((bp, r)),
            Err(_) => None,
        },
        None => None,
    }
}

fn state_split(name: &str) -> (res: Option<(WidgetState, String)>)
    ensures
        match state_prefixed(name@) {
            Some((st, r)) => res matches Some(p) && p.0 == st && p.1@ == r,
            None => res is None,
        },
{
    match split_once_at(name, ':') {
        Some((p, r)) => match WidgetState::from_prefix(p.as_str()) {
            Some(st) => Some((st, r)),
            None => None,
        },
        None => None,
    }
}

// ---------------------------------------------------------------------------
// Elements
// ---------------------------------------------------------------------------

/// The span of a record: its byte range, and the line and column of its start.
pub open spec fn node_span(rec: XmlRecord, src: Seq<char>) -> Span {
    Span {
        start: rec.start,
        end: rec.end,
        line: spec_line_col(src, rec.start as int).0 as u32,
        column: spec_line_col(src, rec.start as int).1 as u32,
    }
}

pub proof fn lemma_node_span_bounds(rec: XmlRecord, src: Seq<char>)
    requires
        line_col_fits(src, rec.start as int),
    ensures
        1 <= spec_line_col(src, rec.start as int).0 <= u32::MAX,
        1 <= spec_line_col(src, rec.start as int).1 <= u32::MAX,
{
    let k = crate::parser::values::chars_before(src, rec.start as int, 0);
    crate::parser::values::lemma_chars_before_bounds(src, rec.start as int, 0);
    crate::parser::values::lemma_line_col_positive(src.subrange(0, k));
    assert(line_col(src.subrange(0, k)).0 <= u32::MAX);
}

fn get_span(rec: &XmlRecord, source: &str) -> (res: Span)
    requires
        line_col_fits(source@, rec.start as int),
    ensures
        res == node_span(*rec, source@),
{
    let (line, col) = calculate_line_col(source, rec.start);
    Span::new(rec.start, rec.end, line, col)
}

pub open spec fn expected_element_error() -> SpecParseError {
    perr(ParseErrorKind::XmlSyntax, "Expected element node"@, Span { start: 0, end: 0, line: 1, column: 1 }, None)
}

/// The widget node of record `i`, with its subtree.
pub open spec fn spec_parse_node(doc: XmlDocument, src: Seq<char>, i: int) -> Result<SpecNode, SpecParseError>
    decreases doc.nodes@.len() - i, doc.nodes@.len() - i + 1,
{
    if i < 0 || i >= doc.nodes@.len() {
        Err(expected_element_error())
    } else {
        let rec = doc.nodes@[i];
        if !rec.is_element() {
            Err(expected_element_error())
        } else {
            let span = node_span(rec, src);
            match kind_of_tag(rec.name@) {
                None => Err(perr(ParseErrorKind::UnknownWidget, "Unknown widget: "@ + rec.name@, span, Some(valid_widgets_text()))),
                Some(kind) => match process_attrs(kind, rec, span, rec.attributes@.len() as int) {
                    Err(e) => Err(e),
                    Ok(acc) => match spec_children(doc, src, i, i + 1) {
                        Err(e) => Err(e),
                        Ok(children) => finish_node(kind, acc, children, span),
                    },
                },
            }
        }
    }
}

/// The element children of record `i` among records `j..`, in order.
pub open spec fn spec_children(doc: XmlDocument, src: Seq<char>, i: int, j: int) -> Result<Seq<SpecNode>, SpecParseError>
    decreases doc.nodes@.len() - i, doc.nodes@.len() - j,
{
    if i < 0 || j <= i || j >= doc.nodes@.len() {
        Ok(Seq::empty())
    } else if doc.nodes@[j].parent == Some(i as usize) && doc.nodes@[j].is_element() {
        match spec_parse_node(doc, src, j) {
            Err(e) => Err(e),
            Ok(n) => match spec_children(doc, src, i, j + 1) {
                Err(e) => Err(e),
                Ok(rest) => Ok(seq![n] + rest),
            },
        }
    } else {
        spec_children(doc, src, i, j + 1)
    }
}

/// Classes, theme reference, child checks, renaming of deprecated
/// attributes and the widget's own attribute checks, in that order.
pub open spec fn finish_node(kind: WidgetKind, acc: AttrAcc, children: Seq<SpecNode>, span: Span) -> Result<SpecNode, SpecParseError> {
    let classes = if acc.attrs.dom().contains("class"@) && acc.attrs["class"@] is Static {
        words_from(acc.attrs["class"@]->Static_0, 0)
    } else {
        Seq::empty()
    };
    let theme_ref = if acc.attrs.dom().contains("theme"@) {
        Some(acc.attrs["theme"@])
    } else {
        None
    };
    let tip = if kind is Tooltip {
        spec_tooltip_children(children.len(), span)
    } else {
        Ok(())
    };
    let canvas = if kind is Canvas {
        spec_canvas_children(acc.attrs, children, span)
    } else {
        Ok(())
    };
    let attrs = spec_normalize(acc.attrs, kind_display(kind), 4).0;
    if tip is Err {
        Err(tip->Err_0)
    } else if canvas is Err {
        Err(canvas->Err_0)
    } else {
        match spec_validate_widget_attributes(kind, attrs, span) {
            Err(e) => Err(e),
            Ok(_) => Ok(
                SpecNode {
                    kind,
                    id: acc.id,
                    attributes: attrs,
                    events: acc.events,
                    children,
                    span,
                    theme_ref,
                    classes,
                    breakpoints: acc.bps,
                    states: acc.states,
                },
            ),
        }
    }
}

pub open spec fn prepend_nodes(xs: Seq<SpecNode>, r: Result<Seq<SpecNode>, SpecParseError>) -> Result<Seq<SpecNode>, SpecParseError> {
    match r {
        Ok(rest) => Ok(xs + rest),
        Err(e) => Err(e),
    }
}

type Attrs = (Option<String>, AttributeMap, Vec<EventBinding>, BreakpointAttributes, StateAttributes);

#[verifier::rlimit(60)]
fn process_attributes(kind: &WidgetKind, rec: &XmlRecord, span: Span) -> (res: Result<Attrs, ParseError>)
    requires
        forall|k: int|
            0 <= k < rec.attributes@.len() ==> value_fits(rec.start, span.column as nat, (#[trigger] rec.attributes@[k]).value@),
        span.start == rec.start,
        span.column >= 1,
    ensures
        match process_attrs(*kind, *rec, span, rec.attributes@.len() as int) {
            Ok(acc) => res matches Ok(t) && acc_view(t.0, t.1, t.2@, t.3, t.4) == acc,
            Err(e) => res matches Err(r) && r@ == e,
        },
{
    let mut id: Option<String> = None;
    let mut attributes = AttributeMap::new();
    let mut events: Vec<EventBinding> = Vec::new();
    let mut bps = BreakpointAttributes::new();
    let mut states = StateAttributes::new();
    assert(acc_view(id, attributes, events@, bps, states) =~= empty_acc()) by {
        assert(events_view(events@) =~= Seq::<SpecEvent>::empty());
        assert(Map::new(|b: Breakpoint| true, |b: Breakpoint| bps.spec_get(b)) =~= Map::new(|b: Breakpoint| true, |b: Breakpoint| Map::<Seq<char>, SpecAttr>::empty()));
        assert(Map::new(|s: WidgetState| true, |s: WidgetState| states.spec_get(s)) =~= Map::new(|s: WidgetState| true, |s: WidgetState| Map::<Seq<char>, SpecAttr>::empty()));
    }
    let mut k: usize = 0;
    while k < rec.attributes.len()
        invariant
            k <= rec.attributes@.len(),
            forall|k: int|
                0 <= k < rec.attributes@.len() ==> value_fits(rec.start, span.column as nat, (#[trigger] rec.attributes@[k]).value@),
            span.start == rec.start,
            span.column >= 1,
            process_attrs(*kind, *rec, span, k as int) == Ok::<AttrAcc, SpecParseError>(acc_view(id, attributes, events@, bps, states)),
        decreases rec.attributes.len() - k,
    {
        let a = &rec.attributes[k];
        let ghost acc = acc_view(id, attributes, events@, bps, states);
        proof {
            assert(value_fits(rec.start, span.column as nat, rec.attributes@[k as int].value@));
            lemma_utf8_prefix_len_bound(a.value@, a.value@.len() as int);
        }
        let name = attribute_name(rec, a);
        let value = a.value.as_str();
        if str_eq(name.as_str(), "id") {
            id = Some(a.value.clone());
        } else {
            let ev = if str_starts_with(name.as_str(), "on_") {
                event_kind(name.as_str(), kind)
            } else {
                None
            };
            match ev {
                Some(e) => {
                    let (h, p) = parse_event_value(value);
                    let ghost before = events@;
                    events.push(EventBinding { event: e, handler: h, param: p, span });
                    assert(events_view(events@) =~= events_view(before).push(events@[before.len() as int]@));
                },
                None => {
                    match breakpoint_split(name.as_str()) {
                        Some((bp, rest)) => {
                            let v = match parse_attribute_value(value, span) {
                                Ok(v) => v,
                                Err(e) => {
                                    proof {
                                        lemma_process_err(*kind, *rec, span, k + 1, rec.attributes@.len() as int);
                                    }
                                    return Err(e);
                                },
                            };
                            bps.insert(bp, rest, v);
                            assert(Map::new(|b: Breakpoint| true, |b: Breakpoint| bps.spec_get(b)) =~= acc.bps.insert(bp, acc.bps[bp].insert(rest@, v@)));
                        },
                        None => {
                            match state_split(name.as_str()) {
                                Some((st, rest)) => {
                                    let v = match parse_attribute_value(value, span) {
                                        Ok(v) => v,
                                        Err(e) => {
                                            proof {
                                                lemma_process_err(*kind, *rec, span, k + 1, rec.attributes@.len() as int);
                                            }
                                            return Err(e);
                                        },
                                    };
                                    states.insert(st, rest, v);
                                    assert(Map::new(|s: WidgetState| true, |s: WidgetState| states.spec_get(s)) =~= acc.states.insert(st, acc.states[st].insert(rest@, v@)));
                                },
                                None => {
                                    let v = match parse_attribute_value(value, span) {
                                        Ok(v) => v,
                                        Err(e) => {
                                            proof {
                                                lemma_process_err(*kind, *rec, span, k + 1, rec.attributes@.len() as int);
                                            }
                                            return Err(e);
                                        },
                                    };
                                    attributes.insert(name, v);
                                },
                            }
                        },
                    }
                },
            }
        }
        assert(acc_view(id, attributes, events@, bps, states) == attr_step(acc, *kind, *rec, rec.attributes@[k as int], span)->Ok_0);
        k = k + 1;
    }
    Ok((id, attributes, events, bps, states))
}

/// The widget node of record `i` of the document, with its subtree.
pub fn parse_node(doc: &XmlDocument, source: &str, i: usize) -> (res: Result<WidgetNode, ParseError>)
    requires
        i < doc.nodes@.len(),
        doc_fits(*doc, source@),
    ensures
        match spec_parse_node(*doc, source@, i as int) {
            Ok(n) => res matches Ok(w) && w@ == n,
            Err(e) => res matches Err(r) && r@ == e,
        },
    decreases doc.nodes@.len() - i, doc.nodes@.len() - i + 1,
{
    let rec = &doc.nodes[i];
    if !rec.is_element() {
        return Err(ParseError::new(ParseErrorKind::XmlSyntax, to_owned_string("Expected element node"), Span::new(0, 0, 1, 1), None));
    }
    proof {
        lemma_node_span_bounds(*rec, source@);
    }
    let span = get_span(rec, source);
    let kind = match widget_kind_of(rec.name.as_str()) {
        Some(k) => k,
        None => {
            let mut msg = to_owned_string("Unknown widget: ");
            push_str(&mut msg, rec.name.as_str());
            return Err(ParseError::new(ParseErrorKind::UnknownWidget, msg, span, Some(to_owned_string(
                "Valid widgets are: column, row, container, scrollable, stack, text, image, svg, button, text_input, checkbox, slider, pick_list, toggler, space, rule, radio, combobox, progress_bar, tooltip, grid, canvas, float, for, if",
            ))));
        },
    };
    proof {
        assert(record_fits(doc.nodes@[i as int], source@));
    }
    let (id, mut attributes, events, bps, states) = match process_attributes(&kind, rec, span) {
        Ok(t) => t,
        Err(e) => {
            return Err(e);
        },
    };
    let ghost acc = acc_view(id, attributes, events@, bps, states);
    let classes = match attributes.get("class") {
        Some(AttributeValue::Static(c)) => split_whitespace(c.as_str()),
        _ => Vec::new(),
    };
    let theme_ref = match attributes.get("theme") {
        Some(v) => Some(v.duplicate()),
        None => None,
    };
    let children = match parse_children(doc, source, i) {
        Ok(c) => c,
        Err(e) => {
            return Err(e);
        },
    };
    if matches!(kind, WidgetKind::Tooltip) {
        match validate_tooltip_children(children.as_slice(), span) {
            Ok(()) => {},
            Err(e) => {
                return Err(e);
            },
        }
    }
    if matches!(kind, WidgetKind::Canvas) {
        match validate_canvas_node(&attributes, children.as_slice(), span) {
            Ok(()) => {},
            Err(e) => {
                return Err(e);
            },
        }
    }
    let _renamed = normalize_attributes(&kind, &mut attributes);
    match validate_widget_attributes(&kind, &attributes, span) {
        Ok(()) => {},
        Err(e) => {
            return Err(e);
        },
    }
    let node = WidgetNode {
        kind,
        id,
        attributes,
        events,
        children,
        span,
        theme_ref,
        classes,
        breakpoint_attributes: bps,
        inline_state_attributes: states,
    };
    proof {
        assert(node_view(node).children =~= nodes_view(node.children@));
        assert(node_view(node).breakpoints =~= acc.bps);
        assert(node_view(node).states =~= acc.states);
        if acc.attrs.dom().contains("class"@) && acc.attrs["class"@] is Static {
        } else {
            assert(node.classes@.map_values(|c: String| c@) =~= Seq::<Seq<char>>::empty());
        }
    }
    Ok(node)
}

fn parse_children(doc: &XmlDocument, source: &str, i: usize) -> (res: Result<Vec<WidgetNode>, ParseError>)
    requires
        i < doc.nodes@.len(),
        doc_fits(*doc, source@),
    ensures
        match spec_children(*doc, source@, i as int, i + 1) {
            Ok(cs) => res matches Ok(v) && nodes_view(v@) == cs,
            Err(e) => res matches Err(r) && r@ == e,
        },
    decreases doc.nodes@.len() - i, doc.nodes@.len() - i,
{
    let mut out: Vec<WidgetNode> = Vec::new();
    assert(i < doc.nodes.len());
    let mut j: usize = i + 1;
    assert(nodes_view(out@) =~= Seq::<SpecNode>::empty());
    assert(prepend_nodes(Seq::<SpecNode>::empty(), spec_children(*doc, source@, i as int, i + 1)) =~= spec_children(*doc, source@, i as int, i + 1)) by {
        if let Ok(rest) = spec_children(*doc, source@, i as int, i + 1) {
            assert(Seq::<SpecNode>::empty() + rest =~= rest);
        }
    }
    while j < doc.nodes.len()
        invariant
            i < j <= doc.nodes@.len(),
            doc_fits(*doc, source@),
            spec_children(*doc, source@, i as int, i + 1) == prepend_nodes(nodes_view(out@), spec_children(*doc, source@, i as int, j as int)),
        decreases doc.nodes.len() - j,
    {
        let r = &doc.nodes[j];
        let is_child = match r.parent {
            Some(p) => p == i,
            None => false,
        };
        if is_child && r.is_element() {
            let child = match parse_node(doc, source, j) {
                Ok(c) => c,
                Err(e) => {
                    return Err(e);
                },
            };
            let ghost before = nodes_view(out@);
            let ghost cv = child@;
            out.push(child);
            proof {
                assert(nodes_view(out@) =~= before.push(cv));
                if let Ok(rest) = spec_children(*doc, source@, i as int, j + 1) {
                    assert(before + (seq![cv] + rest) =~= before.push(cv) + rest);
                }
            }
        }
        j = j + 1;
    }
    proof {
        assert(spec_children(*doc, source@, i as int, j as int) == Ok::<Seq<SpecNode>, SpecParseError>(Seq::empty()));
        assert(nodes_view(out@) + Seq::<SpecNode>::empty() =~= nodes_view(out@));
    }
    Ok(out)
}

/// Reading the bindings of an attribute value gives no unknown-widget error.
proof fn lemma_interp_not_unknown(rem: Seq<char>, span: Span)
    ensures
        crate::parser::values::interp_parts(rem, span) matches Err(e) ==> e.kind != ParseErrorKind::UnknownWidget,
    decreases rem.len(), 1nat,
{
    let sp = first_index(rem, '{');
    if 0 <= sp < rem.len() {
        let after = rem.subrange(sp, rem.len() as int);
        let e = first_index(after, '}');
        if 0 <= e < after.len() {
            lemma_binding_not_unknown(rem, sp, sp + e, span);
        }
    }
}

proof fn lemma_binding_not_unknown(rem: Seq<char>, sp: int, ee: int, span: Span)
    ensures
        crate::parser::values::binding_parts(rem, sp, ee, span) matches Err(e) ==> e.kind != ParseErrorKind::UnknownWidget,
    decreases rem.len(), 0nat,
{
    if 0 <= sp < ee < rem.len() {
        lemma_interp_not_unknown(rem.subrange(ee + 1, rem.len() as int), span);
    }
}

/// Reading attributes gives no unknown-widget error.
proof fn lemma_attrs_not_unknown(kind: WidgetKind, rec: XmlRecord, span: Span, k: int)
    ensures
        process_attrs(kind, rec, span, k) matches Err(e) ==> e.kind != ParseErrorKind::UnknownWidget,
    decreases k,
{
    if k > 0 {
        lemma_attrs_not_unknown(kind, rec, span, k - 1);
        lemma_interp_not_unknown(rec.attributes@[k - 1].value@, span);
    }
}

/// Every element of `doc` is named after a widget kind.
pub open spec fn all_tags_known(doc: XmlDocument) -> bool {
    forall|j: int| 0 <= j < doc.nodes@.len() && #[trigger] doc.nodes@[j].is_element() ==> kind_of_tag(doc.nodes@[j].name@) is Some
}

proof fn lemma_node_not_unknown(doc: XmlDocument, src: Seq<char>, i: int)
    requires
        all_tags_known(doc),
    ensures
        spec_parse_node(doc, src, i) matches Err(e) ==> e.kind != ParseErrorKind::UnknownWidget,
    decreases doc.nodes@.len() - i, doc.nodes@.len() - i + 1,
{
    if 0 <= i < doc.nodes@.len() && doc.nodes@[i].is_element() {
        let rec = doc.nodes@[i];
        let span = node_span(rec, src);
        let kind = kind_of_tag(rec.name@)->0;
        lemma_attrs_not_unknown(kind, rec, span, rec.attributes@.len() as int);
        lemma_children_not_unknown(doc, src, i, i + 1);
    }
}

proof fn lemma_children_not_unknown(doc: XmlDocument, src: Seq<char>, i: int, j: int)
    requires
        all_tags_known(doc),
    ensures
        spec_children(doc, src, i, j) matches Err(e) ==> e.kind != ParseErrorKind::UnknownWidget,
    decreases doc.nodes@.len() - i, doc.nodes@.len() - j,
{
    if 0 <= i < j < doc.nodes@.len() {
        if doc.nodes@[j].parent == Some(i as usize) && doc.nodes@[j].is_element() {
            lemma_node_not_unknown(doc, src, j);
        }
        lemma_children_not_unknown(doc, src, i, j + 1);
    }
}

/// A widget tree whose elements are all named after standard widgets is never
/// refused as naming an unknown widget.
pub proof fn lemma_standard_tree_has_no_unknown_widget(doc: XmlDocument, src: Seq<char>, i: int)
    requires
        forall|j: int|
            0 <= j < doc.nodes@.len() && #[trigger] doc.nodes@[j].is_element()
                ==> crate::ir::node::standard_widget_names().contains(doc.nodes@[j].name@),
    ensures
        !(spec_parse_node(doc, src, i) matches Err(e) && e.kind == ParseErrorKind::UnknownWidget),
{
    lemma_standard_tags_are_known();
    assert forall|j: int| 0 <= j < doc.nodes@.len() && #[trigger] doc.nodes@[j].is_element()
        implies kind_of_tag(doc.nodes@[j].name@) is Some by {
        let names = crate::ir::node::standard_widget_names();
        let k = names.index_of(doc.nodes@[j].name@);
        assert(kind_of_tag(names[k]) is Some);
    }
    lemma_node_not_unknown(doc, src, i);
}

} // verus!
