//! Widget tree nodes, attribute values and event bindings.

use crate::expr::ast::{BindingExpr, SpecExpr};
use crate::ir::layout::Breakpoint;
use crate::ir::theme::WidgetState;
use crate::ir::name_map::NameMap;
use crate::ir::{SchemaVersion, Span};
use vstd::prelude::*;

verus! {

/// Every kind of widget a document can contain.
#[derive(Debug, Clone, PartialEq, Eq, Hash)]
pub enum WidgetKind {
    Column,
    Row,
    Container,
    Scrollable,
    Stack,
    Text,
    Image,
    Svg,
    Button,
    TextInput,
    Checkbox,
    Slider,
    PickList,
    Toggler,
    Space,
    Rule,
    Radio,
    ComboBox,
    ProgressBar,
    Tooltip,
    Grid,
    Canvas,
    Float,
    For,
    If,
    CanvasRect,
    CanvasCircle,
    CanvasLine,
    CanvasText,
    CanvasGroup,
    Custom(String),
}

/// The element name of each standard widget (the name itself for a custom one).
pub open spec fn widget_kind_tag(kind: WidgetKind) -> Seq<char> {
    match kind {
        WidgetKind::Column => "column"@,
        WidgetKind::Row => "row"@,
        WidgetKind::Container => "container"@,
        WidgetKind::Scrollable => "scrollable"@,
        WidgetKind::Stack => "stack"@,
        WidgetKind::Text => "text"@,
        WidgetKind::Image => "image"@,
        WidgetKind::Svg => "svg"@,
        WidgetKind::Button => "button"@,
        WidgetKind::TextInput => "text_input"@,
        WidgetKind::Checkbox => "checkbox"@,
        WidgetKind::Slider => "slider"@,
        WidgetKind::PickList => "pick_list"@,
        WidgetKind::Toggler => "toggler"@,
        WidgetKind::Space => "space"@,
        WidgetKind::Rule => "rule"@,
        WidgetKind::Radio => "radio"@,
        WidgetKind::ComboBox => "combobox"@,
        WidgetKind::ProgressBar => "progress_bar"@,
        WidgetKind::Tooltip => "tooltip"@,
        WidgetKind::Grid => "grid"@,
        WidgetKind::Canvas => "canvas"@,
        WidgetKind::Float => "float"@,
        WidgetKind::For => "for"@,
        WidgetKind::If => "if"@,
        WidgetKind::CanvasRect => "rect"@,
        WidgetKind::CanvasCircle => "circle"@,
        WidgetKind::CanvasLine => "line"@,
        WidgetKind::CanvasText => "canvas_text"@,
        WidgetKind::CanvasGroup => "group"@,
        WidgetKind::Custom(name) => name@,
    }
}

/// The names listed by `WidgetKind::all_standard`, in order.
pub open spec fn standard_widget_names() -> Seq<Seq<char>> {
    seq![
        "column"@,
        "row"@,
        "container"@,
        "scrollable"@,
        "stack"@,
        "text"@,
        "image"@,
        "svg"@,
        "button"@,
        "text_input"@,
        "checkbox"@,
        "slider"@,
        "pick_list"@,
        "toggler"@,
        "space"@,
        "rule"@,
        "radio"@,
        "combobox"@,
        "progress_bar"@,
        "tooltip"@,
        "grid"@,
        "canvas"@,
        "float"@,
        "for"@,
        "if"@,
    ]
}

/// The schema version that introduced each widget: the canvas came with 1.1.
pub open spec fn spec_minimum_version(kind: WidgetKind) -> SchemaVersion {
    match kind {
        WidgetKind::Canvas => SchemaVersion { major: 1, minor: 1 },
        _ => SchemaVersion { major: 1, minor: 0 },
    }
}

impl WidgetKind {
    /// The tag names of the standard widgets.
    pub fn all_standard() -> (res: Vec<&'static str>)
        ensures
            res@.len() == standard_widget_names().len(),
            forall|i: int| 0 <= i < res@.len() ==> (#[trigger] res@[i])@ == standard_widget_names()[i],
    {
        let v: Vec<&'static str> = vec![
            "column",
            "row",
            "container",
            "scrollable",
            "stack",
            "text",
            "image",
            "svg",
            "button",
            "text_input",
            "checkbox",
            "slider",
            "pick_list",
            "toggler",
            "space",
            "rule",
            "radio",
            "combobox",
            "progress_bar",
            "tooltip",
            "grid",
            "canvas",
            "float",
            "for",
            "if",
        ];
        v
    }

    /// Whether this is a user-defined widget.
    pub fn is_custom(&self) -> (res: bool)
        ensures
            res == (*self is Custom),
    {
        matches!(self, WidgetKind::Custom(_))
    }

    /// The minimum schema version required for this widget type.
    pub fn minimum_version(&self) -> (res: SchemaVersion)
        ensures
            res == spec_minimum_version(*self),
    {
        match self {
            WidgetKind::Canvas => SchemaVersion { major: 1, minor: 1 },
            _ => SchemaVersion { major: 1, minor: 0 },
        }
    }

    /// A copy of this kind.
    pub fn duplicate(&self) -> (res: WidgetKind)
        ensures
            res == *self,
    {
        match self {
            WidgetKind::Column => WidgetKind::Column,
            WidgetKind::Row => WidgetKind::Row,
            WidgetKind::Container => WidgetKind::Container,
            WidgetKind::Scrollable => WidgetKind::Scrollable,
            WidgetKind::Stack => WidgetKind::Stack,
            WidgetKind::Text => WidgetKind::Text,
            WidgetKind::Image => WidgetKind::Image,
            WidgetKind::Svg => WidgetKind::Svg,
            WidgetKind::Button => WidgetKind::Button,
            WidgetKind::TextInput => WidgetKind::TextInput,
            WidgetKind::Checkbox => WidgetKind::Checkbox,
            WidgetKind::Slider => WidgetKind::Slider,
            WidgetKind::PickList => WidgetKind::PickList,
            WidgetKind::Toggler => WidgetKind::Toggler,
            WidgetKind::Space => WidgetKind::Space,
            WidgetKind::Rule => WidgetKind::Rule,
            WidgetKind::Radio => WidgetKind::Radio,
            WidgetKind::ComboBox => WidgetKind::ComboBox,
            WidgetKind::ProgressBar => WidgetKind::ProgressBar,
            WidgetKind::Tooltip => WidgetKind::Tooltip,
            WidgetKind::Grid => WidgetKind::Grid,
            WidgetKind::Canvas => WidgetKind::Canvas,
            WidgetKind::Float => WidgetKind::Float,
            WidgetKind::For => WidgetKind::For,
            WidgetKind::If => WidgetKind::If,
            WidgetKind::CanvasRect => WidgetKind::CanvasRect,
            WidgetKind::CanvasCircle => WidgetKind::CanvasCircle,
            WidgetKind::CanvasLine => WidgetKind::CanvasLine,
            WidgetKind::CanvasText => WidgetKind::CanvasText,
            WidgetKind::CanvasGroup => WidgetKind::CanvasGroup,
            WidgetKind::Custom(name) => WidgetKind::Custom(name.clone()),
        }
    }
}

impl Default for WidgetKind {
    fn default() -> (res: WidgetKind)
        ensures
            res == WidgetKind::Column,
    {
        WidgetKind::Column
    }
}

// ---------------------------------------------------------------------------
// Attribute values
// ---------------------------------------------------------------------------

/// A value that is either static or bound to the model.
#[derive(Debug, PartialEq)]
pub enum AttributeValue {
    Static(String),
    Binding(BindingExpr),
    Interpolated(Vec<InterpolatedPart>),
}

/// Part of an interpolated string.
#[derive(Debug, PartialEq)]
pub enum InterpolatedPart {
    Literal(String),
    Binding(BindingExpr),
}

/// View of an interpolated part.
pub enum SpecPart {
    Literal(Seq<char>),
    Binding((SpecExpr, Span)),
}

/// View of an attribute value.
pub enum SpecAttr {
    Static(Seq<char>),
    Binding((SpecExpr, Span)),
    Interpolated(Seq<SpecPart>),
}

impl View for InterpolatedPart {
    type V = SpecPart;

    open spec fn view(&self) -> SpecPart {
        match self {
            InterpolatedPart::Literal(s) => SpecPart::Literal(s@),
            InterpolatedPart::Binding(b) => SpecPart::Binding(b@),
        }
    }
}

pub open spec fn parts_view(v: Seq<InterpolatedPart>) -> Seq<SpecPart> {
    v.map_values(|p: InterpolatedPart| p@)
}

impl View for AttributeValue {
    type V = SpecAttr;

    open spec fn view(&self) -> SpecAttr {
        match self {
            AttributeValue::Static(s) => SpecAttr::Static(s@),
            AttributeValue::Binding(b) => SpecAttr::Binding(b@),
            AttributeValue::Interpolated(v) => SpecAttr::Interpolated(parts_view(v@)),
        }
    }
}

impl InterpolatedPart {
    pub fn duplicate(&self) -> (res: InterpolatedPart)
        ensures
            res@ == self@,
    {
        match self {
            InterpolatedPart::Literal(s) => InterpolatedPart::Literal(s.clone()),
            InterpolatedPart::Binding(b) => InterpolatedPart::Binding(b.duplicate()),
        }
    }
}

impl AttributeValue {
    pub fn duplicate(&self) -> (res: AttributeValue)
        ensures
            res@ == self@,
    {
        match self {
            AttributeValue::Static(s) => AttributeValue::Static(s.clone()),
            AttributeValue::Binding(b) => AttributeValue::Binding(b.duplicate()),
            AttributeValue::Interpolated(v) => {
                let mut out: Vec<InterpolatedPart> = Vec::new();
                let mut i: usize = 0;
                while i < v.len()
                    invariant
                        i <= v.len(),
                        parts_view(out@) =~= parts_view(v@.subrange(0, i as int)),
                    decreases v.len() - i,
                {
                    let ghost before = out@;
                    out.push(v[i].duplicate());
                    assert(parts_view(v@.subrange(0, i + 1)) =~= parts_view(
                        v@.subrange(0, i as int),
                    ).push(v@[i as int]@));
                    assert(parts_view(out@) =~= parts_view(before).push(v@[i as int]@));
                    i = i + 1;
                }
                assert(v@.subrange(0, v@.len() as int) =~= v@);
                AttributeValue::Interpolated(out)
            },
        }
    }
}

impl Default for AttributeValue {
    fn default() -> (res: AttributeValue)
        ensures
            res@ == SpecAttr::Static(Seq::empty()),
    {
        AttributeValue::Static(String::new())
    }
}

impl Default for InterpolatedPart {
    fn default() -> (res: InterpolatedPart)
        ensures
            res@ == SpecPart::Literal(Seq::empty()),
    {
        InterpolatedPart::Literal(String::new())
    }
}

// ---------------------------------------------------------------------------
// Attribute maps
// ---------------------------------------------------------------------------

/// A map from attribute names to values; each name occurs once.
pub type AttributeMap = NameMap<AttributeValue>;

// ---------------------------------------------------------------------------
// Per-breakpoint and per-state attributes
// ---------------------------------------------------------------------------

/// Attributes written with a breakpoint prefix (`mobile-spacing`), by breakpoint.
#[derive(Debug, PartialEq, Default)]
pub struct BreakpointAttributes {
    pub mobile: AttributeMap,
    pub tablet: AttributeMap,
    pub desktop: AttributeMap,
}

impl BreakpointAttributes {
    pub open spec fn spec_get(&self, bp: Breakpoint) -> Map<Seq<char>, SpecAttr> {
        match bp {
            Breakpoint::Mobile => self.mobile@,
            Breakpoint::Tablet => self.tablet@,
            Breakpoint::Desktop => self.desktop@,
        }
    }

    pub fn new() -> (res: BreakpointAttributes)
        ensures
            forall|bp: Breakpoint| #[trigger] res.spec_get(bp) == Map::<Seq<char>, SpecAttr>::empty(),
    {
        BreakpointAttributes { mobile: AttributeMap::new(), tablet: AttributeMap::new(), desktop: AttributeMap::new() }
    }

    pub fn get(&self, bp: Breakpoint) -> (res: &AttributeMap)
        ensures
            res@ == self.spec_get(bp),
    {
        match bp {
            Breakpoint::Mobile => &self.mobile,
            Breakpoint::Tablet => &self.tablet,
            Breakpoint::Desktop => &self.desktop,
        }
    }

    pub fn insert(&mut self, bp: Breakpoint, key: String, value: AttributeValue)
        ensures
            final(self).spec_get(bp) == old(self).spec_get(bp).insert(key@, value@),
            forall|b: Breakpoint| b != bp ==> #[trigger] final(self).spec_get(b) == old(self).spec_get(b),
    {
        match bp {
            Breakpoint::Mobile => self.mobile.insert(key, value),
            Breakpoint::Tablet => self.tablet.insert(key, value),
            Breakpoint::Desktop => self.desktop.insert(key, value),
        }
    }
}

/// Attributes written with a state prefix (`hover:background`), by state.
/// Turning them into style properties is left to the style layer.
#[derive(Debug, PartialEq, Default)]
pub struct StateAttributes {
    pub hover: AttributeMap,
    pub focus: AttributeMap,
    pub active: AttributeMap,
    pub disabled: AttributeMap,
}

impl StateAttributes {
    pub open spec fn spec_get(&self, st: WidgetState) -> Map<Seq<char>, SpecAttr> {
        match st {
            WidgetState::Hover => self.hover@,
            WidgetState::Focus => self.focus@,
            WidgetState::Active => self.active@,
            WidgetState::Disabled => self.disabled@,
        }
    }

    pub fn new() -> (res: StateAttributes)
        ensures
            forall|st: WidgetState| #[trigger] res.spec_get(st) == Map::<Seq<char>, SpecAttr>::empty(),
    {
        StateAttributes {
            hover: AttributeMap::new(),
            focus: AttributeMap::new(),
            active: AttributeMap::new(),
            disabled: AttributeMap::new(),
        }
    }

    pub fn get(&self, st: WidgetState) -> (res: &AttributeMap)
        ensures
            res@ == self.spec_get(st),
    {
        match st {
            WidgetState::Hover => &self.hover,
            WidgetState::Focus => &self.focus,
            WidgetState::Active => &self.active,
            WidgetState::Disabled => &self.disabled,
        }
    }

    pub fn insert(&mut self, st: WidgetState, key: String, value: AttributeValue)
        ensures
            final(self).spec_get(st) == old(self).spec_get(st).insert(key@, value@),
            forall|s: WidgetState| s != st ==> #[trigger] final(self).spec_get(s) == old(self).spec_get(s),
    {
        match st {
            WidgetState::Hover => self.hover.insert(key, value),
            WidgetState::Focus => self.focus.insert(key, value),
            WidgetState::Active => self.active.insert(key, value),
            WidgetState::Disabled => self.disabled.insert(key, value),
        }
    }
}

// ---------------------------------------------------------------------------
// Events and nodes
// ---------------------------------------------------------------------------

/// Supported event types.
#[derive(Debug, Clone, Copy, PartialEq, Eq, Hash, Structural)]
pub enum EventKind {
    Click,
    Press,
    Release,
    Change,
    Input,
    Submit,
    Select,
    Toggle,
    Scroll,
    CanvasClick,
    CanvasRelease,
    CanvasDrag,
    CanvasMove,
}

impl Default for EventKind {
    fn default() -> (res: EventKind)
        ensures
            res == EventKind::Click,
    {
        EventKind::Click
    }
}

/// An event attribute bound to a handler, with an optional parameter.
#[derive(Debug, PartialEq)]
pub struct EventBinding {
    pub event: EventKind,
    pub handler: String,
    pub param: Option<BindingExpr>,
    pub span: Span,
}

/// A node of the widget tree.
///
/// Layout and style attributes stay in `attributes`; the style layer turns
/// them, and the per-state attributes, into structured properties.
#[derive(Debug, PartialEq)]
pub struct WidgetNode {
    pub kind: WidgetKind,
    pub id: Option<String>,
    pub attributes: AttributeMap,
    pub events: Vec<EventBinding>,
    pub children: Vec<WidgetNode>,
    pub span: Span,
    pub theme_ref: Option<AttributeValue>,
    pub classes: Vec<String>,
    pub breakpoint_attributes: BreakpointAttributes,
    pub inline_state_attributes: StateAttributes,
}

impl Default for WidgetNode {
    /// An empty column.
    fn default() -> (res: WidgetNode)
        ensures
            res.kind == WidgetKind::Column,
            res.id is None,
            res.attributes@ == Map::<Seq<char>, SpecAttr>::empty(),
            res.events@.len() == 0,
            res.children@.len() == 0,
            res.span == (Span { start: 0, end: 0, line: 0, column: 0 }),
            res.theme_ref is None,
            res.classes@.len() == 0,
            forall|b: Breakpoint| #[trigger] res.breakpoint_attributes.spec_get(b) == Map::<Seq<char>, SpecAttr>::empty(),
            forall|s: WidgetState| #[trigger] res.inline_state_attributes.spec_get(s) == Map::<Seq<char>, SpecAttr>::empty(),
    {
        WidgetNode {
            kind: WidgetKind::Column,
            id: None,
            attributes: AttributeMap::new(),
            events: Vec::new(),
            children: Vec::new(),
            span: Span { start: 0, end: 0, line: 0, column: 0 },
            theme_ref: None,
            classes: Vec::new(),
            breakpoint_attributes: BreakpointAttributes::new(),
            inline_state_attributes: StateAttributes::new(),
        }
    }
}

// ---------------------------------------------------------------------------
// Attribute structures of the advanced widgets
// ---------------------------------------------------------------------------

#[derive(Debug, PartialEq)]
pub struct ComboBoxAttributes {
    pub options: Vec<String>,
    pub selected: Option<BindingExpr>,
    pub placeholder: Option<String>,
    pub on_select: Option<String>,
}

#[derive(Debug, PartialEq)]
pub struct PickListAttributes {
    pub options: Vec<String>,
    pub selected: Option<BindingExpr>,
    pub placeholder: Option<String>,
    pub on_select: Option<String>,
}

#[derive(Debug, Clone, Copy, PartialEq, Eq)]
pub enum ProgressBarStyle {
    Primary,
    Success,
    Warning,
    Danger,
    Secondary,
}

#[derive(Debug, Clone, PartialEq)]
pub struct TooltipAttributes {
    pub message: String,
    pub position: Option<TooltipPosition>,
    pub delay: Option<u64>,
}

#[derive(Debug, Clone, Copy, PartialEq, Eq)]
pub enum TooltipPosition {
    FollowCursor,
    Top,
    Bottom,
    Left,
    Right,
}

#[derive(Debug, Clone, Copy, PartialEq, Eq)]
pub enum FloatPosition {
    TopLeft,
    TopRight,
    BottomLeft,
    BottomRight,
}

// ---------------------------------------------------------------------------
// Views of events and nodes
// ---------------------------------------------------------------------------

pub open spec fn binding_opt_view(b: Option<BindingExpr>) -> Option<(SpecExpr, Span)> {
    match b {
        Some(x) => Some(x@),
        None => None,
    }
}

/// View of an event binding: event, handler name, parameter, span.
pub type SpecEvent = (EventKind, Seq<char>, Option<(SpecExpr, Span)>, Span);

impl View for EventBinding {
    type V = SpecEvent;

    open spec fn view(&self) -> SpecEvent {
        (self.event, self.handler@, binding_opt_view(self.param), self.span)
    }
}

pub open spec fn events_view(v: Seq<EventBinding>) -> Seq<SpecEvent> {
    v.map_values(|e: EventBinding| e@)
}

pub open spec fn attr_opt_view(a: Option<AttributeValue>) -> Option<SpecAttr> {
    match a {
        Some(x) => Some(x@),
        None => None,
    }
}

pub open spec fn string_opt_view(a: Option<String>) -> Option<Seq<char>> {
    match a {
        Some(x) => Some(x@),
        None => None,
    }
}

/// View of a widget node.
pub struct SpecNode {
    pub kind: WidgetKind,
    pub id: Option<Seq<char>>,
    pub attributes: Map<Seq<char>, SpecAttr>,
    pub events: Seq<SpecEvent>,
    pub children: Seq<SpecNode>,
    pub span: Span,
    pub theme_ref: Option<SpecAttr>,
    pub classes: Seq<Seq<char>>,
    pub breakpoints: Map<Breakpoint, Map<Seq<char>, SpecAttr>>,
    pub states: Map<WidgetState, Map<Seq<char>, SpecAttr>>,
}

pub open spec fn node_view(n: WidgetNode) -> SpecNode
    decreases n,
{
    SpecNode {
        kind: n.kind,
        id: string_opt_view(n.id),
        attributes: n.attributes@,
        events: events_view(n.events@),
        children: Seq::new(
            n.children@.len(),
            |i: int|
                {
                    if 0 <= i < n.children@.len() {
                        proof {
                            assert(decreases_to!(n.children => n.children@));
                        }
                        node_view(n.children@[i])
                    } else {
                        arbitrary()
                    }
                },
        ),
        span: n.span,
        theme_ref: attr_opt_view(n.theme_ref),
        classes: n.classes@.map_values(|c: String| c@),
        breakpoints: Map::new(|b: Breakpoint| true, |b: Breakpoint| n.breakpoint_attributes.spec_get(b)),
        states: Map::new(|s: WidgetState| true, |s: WidgetState| n.inline_state_attributes.spec_get(s)),
    }
}

impl View for WidgetNode {
    type V = SpecNode;

    open spec fn view(&self) -> SpecNode {
        node_view(*self)
    }
}

pub open spec fn nodes_view(v: Seq<WidgetNode>) -> Seq<SpecNode> {
    v.map_values(|n: WidgetNode| n@)
}

} // verus!
