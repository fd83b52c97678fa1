//! Which attributes each widget accepts.

use crate::ir::node::{EventKind, WidgetKind};
use crate::parser::tree::event_attribute;
use vstd::prelude::*;

verus! {

/// The views of a list of names.
pub open spec fn names(v: Seq<&'static str>) -> Seq<Seq<char>> {
    v.map_values(|s: &'static str| s@)
}

/// The attributes a widget accepts, by category.
#[derive(Debug, Clone, PartialEq, Eq)]
pub struct WidgetSchema {
    /// Attributes that must be present.
    pub required: Vec<&'static str>,
    /// Attributes that may be present.
    pub optional: Vec<&'static str>,
    /// Event handler attributes.
    pub events: Vec<&'static str>,
    /// Styling attributes.
    pub style_attributes: Vec<&'static str>,
    /// Layout attributes.
    pub layout_attributes: Vec<&'static str>,
}

/// View of a schema: the five lists of names.
pub struct SpecSchema {
    pub required: Seq<Seq<char>>,
    pub optional: Seq<Seq<char>>,
    pub events: Seq<Seq<char>>,
    pub style_attributes: Seq<Seq<char>>,
    pub layout_attributes: Seq<Seq<char>>,
}

impl View for WidgetSchema {
    type V = SpecSchema;

    open spec fn view(&self) -> SpecSchema {
        SpecSchema {
            required: names(self.required@),
            optional: names(self.optional@),
            events: names(self.events@),
            style_attributes: names(self.style_attributes@),
            layout_attributes: names(self.layout_attributes@),
        }
    }
}

/// All names of a schema, category by category.
pub open spec fn schema_names(s: SpecSchema) -> Seq<Seq<char>> {
    s.required + s.optional + s.events + s.style_attributes + s.layout_attributes
}

pub open spec fn spec_common_style() -> Seq<Seq<char>> {
    seq!["background"@, "color"@, "border_color"@, "border_width"@, "border_radius"@, "border_style"@, "shadow"@, "opacity"@, "transform"@, "style"@, "text_color"@, "shadow_color"@, "shadow_offset"@, "shadow_blur_radius"@]
}

pub open spec fn spec_common_layout() -> Seq<Seq<char>> {
    seq!["width"@, "height"@, "min_width"@, "max_width"@, "min_height"@, "max_height"@, "padding"@, "spacing"@, "align_items"@, "justify_content"@, "align"@, "align_x"@, "align_y"@, "align_self"@, "direction"@, "position"@, "top"@, "right"@, "bottom"@, "left"@, "z_index"@, "class"@, "theme"@, "theme_ref"@]
}

pub open spec fn spec_common_events() -> Seq<Seq<char>> {
    seq!["on_click"@, "on_press"@, "on_release"@, "on_change"@, "on_input"@, "on_submit"@, "on_select"@, "on_toggle"@, "on_scroll"@]
}

/// Styling attributes shared by most widgets.
pub fn common_style_attributes() -> (res: Vec<&'static str>)
    ensures
        names(res@) == spec_common_style(),
{
    let v: Vec<&'static str> = vec!["background", "color", "border_color", "border_width", "border_radius", "border_style", "shadow", "opacity", "transform", "style", "text_color", "shadow_color", "shadow_offset", "shadow_blur_radius"];
    assert(names(v@) =~= spec_common_style());
    v
}

/// Layout attributes shared by most widgets.
pub fn common_layout_attributes() -> (res: Vec<&'static str>)
    ensures
        names(res@) == spec_common_layout(),
{
    let v: Vec<&'static str> = vec!["width", "height", "min_width", "max_width", "min_height", "max_height", "padding", "spacing", "align_items", "justify_content", "align", "align_x", "align_y", "align_self", "direction", "position", "top", "right", "bottom", "left", "z_index", "class", "theme", "theme_ref"];
    assert(names(v@) =~= spec_common_layout());
    v
}

/// Event attributes shared by most interactive widgets.
pub fn common_events() -> (res: Vec<&'static str>)
    ensures
        names(res@) == spec_common_events(),
{
    let v: Vec<&'static str> = vec!["on_click", "on_press", "on_release", "on_change", "on_input", "on_submit", "on_select", "on_toggle", "on_scroll"];
    assert(names(v@) =~= spec_common_events());
    v
}

/// The schema of each widget kind; canvas shapes and custom widgets accept no declared attributes.
pub open spec fn spec_widget_schema(kind: WidgetKind) -> SpecSchema {
    match kind {
        WidgetKind::Text => SpecSchema {
            required: seq!["value"@],
            optional: seq!["size"@, "weight"@, "color"@],
            events: spec_common_events(),
            style_attributes: spec_common_style(),
            layout_attributes: spec_common_layout(),
        },
        WidgetKind::Image => SpecSchema {
            required: seq!["src"@],
            optional: seq!["width"@, "height"@, "fit"@, "filter_method"@, "path"@],
            events: spec_common_events(),
            style_attributes: spec_common_style(),
            layout_attributes: spec_common_layout(),
        },
        WidgetKind::Button => SpecSchema {
            required: Seq::empty(),
            optional: seq!["label"@, "enabled"@],
            events: seq!["on_click"@, "on_press"@, "on_release"@],
            style_attributes: spec_common_style(),
            layout_attributes: spec_common_layout(),
        },
        WidgetKind::TextInput => SpecSchema {
            required: Seq::empty(),
            optional: seq!["placeholder"@, "value"@, "password"@, "icon"@, "size"@],
            events: seq!["on_input"@, "on_submit"@, "on_change"@, "on_paste"@],
            style_attributes: spec_common_style(),
            layout_attributes: spec_common_layout(),
        },
        WidgetKind::Checkbox => SpecSchema {
            required: Seq::empty(),
            optional: seq!["checked"@, "label"@, "icon"@, "size"@],
            events: seq!["on_toggle"@],
            style_attributes: spec_common_style(),
            layout_attributes: spec_common_layout(),
        },
        WidgetKind::Radio => SpecSchema {
            required: seq!["label"@, "value"@],
            optional: seq!["selected"@, "disabled"@, "size"@, "text_size"@, "text_line_height"@, "text_shaping"@],
            events: seq!["on_select"@],
            style_attributes: spec_common_style(),
            layout_attributes: spec_common_layout(),
        },
        WidgetKind::Slider => SpecSchema {
            required: Seq::empty(),
            optional: seq!["min"@, "max"@, "value"@, "step"@],
            events: seq!["on_change"@, "on_release"@],
            style_attributes: spec_common_style(),
            layout_attributes: spec_common_layout(),
        },
        WidgetKind::Column | WidgetKind::Row | WidgetKind::Container => SpecSchema {
            required: Seq::empty(),
            optional: Seq::empty(),
            events: spec_common_events(),
            style_attributes: spec_common_style(),
            layout_attributes: spec_common_layout(),
        },
        WidgetKind::Scrollable => SpecSchema {
            required: Seq::empty(),
            optional: Seq::empty(),
            events: seq!["on_scroll"@],
            style_attributes: spec_common_style(),
            layout_attributes: spec_common_layout(),
        },
        WidgetKind::Stack => SpecSchema {
            required: Seq::empty(),
            optional: Seq::empty(),
            events: spec_common_events(),
            style_attributes: spec_common_style(),
            layout_attributes: spec_common_layout(),
        },
        WidgetKind::Svg => SpecSchema {
            required: seq!["src"@],
            optional: seq!["width"@, "height"@, "path"@],
            events: spec_common_events(),
            style_attributes: spec_common_style(),
            layout_attributes: spec_common_layout(),
        },
        WidgetKind::PickList => SpecSchema {
            required: Seq::empty(),
            optional: seq!["placeholder"@, "selected"@, "options"@],
            events: seq!["on_select"@],
            style_attributes: spec_common_style(),
            layout_attributes: spec_common_layout(),
        },
        WidgetKind::Toggler => SpecSchema {
            required: Seq::empty(),
            optional: seq!["checked"@, "active"@, "label"@],
            events: seq!["on_toggle"@],
            style_attributes: spec_common_style(),
            layout_attributes: spec_common_layout(),
        },
        WidgetKind::Space | WidgetKind::Rule => SpecSchema {
            required: Seq::empty(),
            optional: Seq::empty(),
            events: Seq::empty(),
            style_attributes: spec_common_style(),
            layout_attributes: spec_common_layout(),
        },
        WidgetKind::ComboBox => SpecSchema {
            required: Seq::empty(),
            optional: seq!["placeholder"@, "value"@, "options"@],
            events: seq!["on_input"@, "on_select"@],
            style_attributes: spec_common_style(),
            layout_attributes: spec_common_layout(),
        },
        WidgetKind::ProgressBar => SpecSchema {
            required: Seq::empty(),
            optional: seq!["value"@, "min"@, "max"@, "style"@],
            events: Seq::empty(),
            style_attributes: spec_common_style(),
            layout_attributes: spec_common_layout(),
        },
        WidgetKind::Tooltip => SpecSchema {
            required: Seq::empty(),
            optional: seq!["message"@, "position"@, "delay"@],
            events: spec_common_events(),
            style_attributes: spec_common_style(),
            layout_attributes: Seq::empty(),
        },
        WidgetKind::Grid => SpecSchema {
            required: Seq::empty(),
            optional: seq!["columns"@],
            events: spec_common_events(),
            style_attributes: spec_common_style(),
            layout_attributes: spec_common_layout(),
        },
        WidgetKind::Canvas => SpecSchema {
            required: Seq::empty(),
            optional: seq!["program"@],
            events: seq!["on_draw"@],
            style_attributes: spec_common_style(),
            layout_attributes: spec_common_layout(),
        },
        WidgetKind::Float => SpecSchema {
            required: Seq::empty(),
            optional: Seq::empty(),
            events: spec_common_events(),
            style_attributes: spec_common_style(),
            layout_attributes: spec_common_layout(),
        },
        WidgetKind::For => SpecSchema {
            required: seq!["each"@, "in"@],
            optional: seq!["template"@],
            events: Seq::empty(),
            style_attributes: spec_common_style(),
            layout_attributes: spec_common_layout(),
        },
        WidgetKind::If => SpecSchema {
            required: seq!["condition"@],
            optional: Seq::empty(),
            events: Seq::empty(),
            style_attributes: spec_common_style(),
            layout_attributes: spec_common_layout(),
        },
        WidgetKind::CanvasRect | WidgetKind::CanvasCircle | WidgetKind::CanvasLine | WidgetKind::CanvasText | WidgetKind::CanvasGroup | WidgetKind::Custom(_) => SpecSchema {
            required: Seq::empty(),
            optional: Seq::empty(),
            events: Seq::empty(),
            style_attributes: Seq::empty(),
            layout_attributes: Seq::empty(),
        },
    }
}

/// The validation schema of a widget kind.
#[verifier::rlimit(40)]
pub fn get_widget_schema(kind: &WidgetKind) -> (res: WidgetSchema)
    ensures
        res@ == spec_widget_schema(*kind),
{
    let s = match kind {
        WidgetKind::Text => WidgetSchema {
            required: vec!["value"],
            optional: vec!["size", "weight", "color"],
            events: common_events(),
            style_attributes: common_style_attributes(),
            layout_attributes: common_layout_attributes(),
        },
        WidgetKind::Image => WidgetSchema {
            required: vec!["src"],
            optional: vec!["width", "height", "fit", "filter_method", "path"],
            events: common_events(),
            style_attributes: common_style_attributes(),
            layout_attributes: common_layout_attributes(),
        },
        WidgetKind::Button => WidgetSchema {
            required: Vec::new(),
            optional: vec!["label", "enabled"],
            events: vec!["on_click", "on_press", "on_release"],
            style_attributes: common_style_attributes(),
            layout_attributes: common_layout_attributes(),
        },
        WidgetKind::TextInput => WidgetSchema {
            required: Vec::new(),
            optional: vec!["placeholder", "value", "password", "icon", "size"],
            events: vec!["on_input", "on_submit", "on_change", "on_paste"],
            style_attributes: common_style_attributes(),
            layout_attributes: common_layout_attributes(),
        },
        WidgetKind::Checkbox => WidgetSchema {
            required: Vec::new(),
            optional: vec!["checked", "label", "icon", "size"],
            events: vec!["on_toggle"],
            style_attributes: common_style_attributes(),
            layout_attributes: common_layout_attributes(),
        },
        WidgetKind::Radio => WidgetSchema {
            required: vec!["label", "value"],
            optional: vec!["selected", "disabled", "size", "text_size", "text_line_height", "text_shaping"],
            events: vec!["on_select"],
            style_attributes: common_style_attributes(),
            layout_attributes: common_layout_attributes(),
        },
        WidgetKind::Slider => WidgetSchema {
            required: Vec::new(),
            optional: vec!["min", "max", "value", "step"],
            events: vec!["on_change", "on_release"],
            style_attributes: common_style_attributes(),
            layout_attributes: common_layout_attributes(),
        },
        WidgetKind::Column | WidgetKind::Row | WidgetKind::Container => WidgetSchema {
            required: Vec::new(),
            optional: Vec::new(),
            events: common_events(),
            style_attributes: common_style_attributes(),
            layout_attributes: common_layout_attributes(),
        },
        WidgetKind::Scrollable => WidgetSchema {
            required: Vec::new(),
            optional: Vec::new(),
            events: vec!["on_scroll"],
            style_attributes: common_style_attributes(),
            layout_attributes: common_layout_attributes(),
        },
        WidgetKind::Stack => WidgetSchema {
            required: Vec::new(),
            optional: Vec::new(),
            events: common_events(),
            style_attributes: common_style_attributes(),
            layout_attributes: common_layout_attributes(),
        },
        WidgetKind::Svg => WidgetSchema {
            required: vec!["src"],
            optional: vec!["width", "height", "path"],
            events: common_events(),
            style_attributes: common_style_attributes(),
            layout_attributes: common_layout_attributes(),
        },
        WidgetKind::PickList => WidgetSchema {
            required: Vec::new(),
            optional: vec!["placeholder", "selected", "options"],
            events: vec!["on_select"],
            style_attributes: common_style_attributes(),
            layout_attributes: common_layout_attributes(),
        },
        WidgetKind::Toggler => WidgetSchema {
            required: Vec::new(),
            optional: vec!["checked", "active", "label"],
            events: vec!["on_toggle"],
            style_attributes: common_style_attributes(),
            layout_attributes: common_layout_attributes(),
        },
        WidgetKind::Space | WidgetKind::Rule => WidgetSchema {
            required: Vec::new(),
            optional: Vec::new(),
            events: Vec::new(),
            style_attributes: common_style_attributes(),
            layout_attributes: common_layout_attributes(),
        },
        WidgetKind::ComboBox => WidgetSchema {
            required: Vec::new(),
            optional: vec!["placeholder", "value", "options"],
            events: vec!["on_input", "on_select"],
            style_attributes: common_style_attributes(),
            layout_attributes: common_layout_attributes(),
        },
        WidgetKind::ProgressBar => WidgetSchema {
            required: Vec::new(),
            optional: vec!["value", "min", "max", "style"],
            events: Vec::new(),
            style_attributes: common_style_attributes(),
            layout_attributes: common_layout_attributes(),
        },
        WidgetKind::Tooltip => WidgetSchema {
            required: Vec::new(),
            optional: vec!["message", "position", "delay"],
            events: common_events(),
            style_attributes: common_style_attributes(),
            layout_attributes: Vec::new(),
        },
        WidgetKind::Grid => WidgetSchema {
            required: Vec::new(),
            optional: vec!["columns"],
            events: common_events(),
            style_attributes: common_style_attributes(),
            layout_attributes: common_layout_attributes(),
        },
        WidgetKind::Canvas => WidgetSchema {
            required: Vec::new(),
            optional: vec!["program"],
            events: vec!["on_draw"],
            style_attributes: common_style_attributes(),
            layout_attributes: common_layout_attributes(),
        },
        WidgetKind::Float => WidgetSchema {
            required: Vec::new(),
            optional: Vec::new(),
            events: common_events(),
            style_attributes: common_style_attributes(),
            layout_attributes: common_layout_attributes(),
        },
        WidgetKind::For => WidgetSchema {
            required: vec!["each", "in"],
            optional: vec!["template"],
            events: Vec::new(),
            style_attributes: common_style_attributes(),
            layout_attributes: common_layout_attributes(),
        },
        WidgetKind::If => WidgetSchema {
            required: vec!["condition"],
            optional: Vec::new(),
            events: Vec::new(),
            style_attributes: common_style_attributes(),
            layout_attributes: common_layout_attributes(),
        },
        WidgetKind::CanvasRect | WidgetKind::CanvasCircle | WidgetKind::CanvasLine | WidgetKind::CanvasText | WidgetKind::CanvasGroup | WidgetKind::Custom(_) => WidgetSchema {
            required: Vec::new(),
            optional: Vec::new(),
            events: Vec::new(),
            style_attributes: Vec::new(),
            layout_attributes: Vec::new(),
        },
    };
    assert(s@.required =~= spec_widget_schema(*kind).required);
    assert(s@.optional =~= spec_widget_schema(*kind).optional);
    assert(s@.events =~= spec_widget_schema(*kind).events);
    assert(s@.style_attributes =~= spec_widget_schema(*kind).style_attributes);
    assert(s@.layout_attributes =~= spec_widget_schema(*kind).layout_attributes);
    s
}

/// Appends the names of `src` to `dst`.
fn append_names(dst: &mut Vec<&'static str>, src: &Vec<&'static str>)
    ensures
        names(final(dst)@) == names(old(dst)@) + names(src@),
{
    let mut i: usize = 0;
    while i < src.len()
        invariant
            i <= src.len(),
            names(dst@) == names(old(dst)@) + names(src@).subrange(0, i as int),
        decreases src.len() - i,
    {
        let ghost before = names(dst@);
        dst.push(src[i]);
        assert(names(dst@) =~= before.push(src@[i as int]@));
        assert(names(src@).subrange(0, i + 1) =~= names(src@).subrange(0, i as int).push(src@[i as int]@));
        i = i + 1;
    }
    assert(names(src@).subrange(0, src@.len() as int) =~= names(src@));
}

/// Appends the names of `src` that `dst` does not hold yet.
fn append_new_names(dst: &mut Vec<&'static str>, src: &Vec<&'static str>)
    requires
        names(old(dst)@).no_duplicates(),
    ensures
        names(final(dst)@).no_duplicates(),
        names(final(dst)@).to_set() == names(old(dst)@).to_set() + names(src@).to_set(),
{
    let mut i: usize = 0;
    while i < src.len()
        invariant
            i <= src.len(),
            names(dst@).no_duplicates(),
            names(dst@).to_set() == names(old(dst)@).to_set() + names(src@).subrange(0, i as int).to_set(),
        decreases src.len() - i,
    {
        let ghost before = names(dst@);
        let ghost x = src@[i as int]@;
        let mut found = false;
        let mut j: usize = 0;
        while j < dst.len()
            invariant
                j <= dst.len(),
                i < src.len(),
                x == src@[i as int]@,
                names(dst@) == before,
                found == (exists|k: int| 0 <= k < j && (#[trigger] dst@[k])@ == x),
            decreases dst.len() - j,
        {
            if crate::text::str_eq(dst[j], src[i]) {
                found = true;
            }
            proof {
                if dst@[j as int]@ == x {
                    assert(exists|k: int| 0 <= k < j + 1 && (#[trigger] dst@[k])@ == x);
                }
            }
            j = j + 1;
        }
        if !found {
            dst.push(src[i]);
            assert(names(dst@) =~= before.push(x));
            assert forall|a: int, b: int| 0 <= a < names(dst@).len() && 0 <= b < names(dst@).len() && a != b implies names(dst@)[a] != names(dst@)[b] by {
                if a < before.len() && b < before.len() {
                    assert(before[a] != before[b]);
                } else if a < before.len() {
                    assert(dst@[a]@ == before[a]);
                } else if b < before.len() {
                    assert(dst@[b]@ == before[b]);
                }
            }
        } else {
            proof {
                let k = choose|k: int| 0 <= k < dst@.len() && (#[trigger] dst@[k])@ == x;
                assert(before[k] == x);
            }
        }
        proof {
            let s_old = names(src@).subrange(0, i as int);
            let s_new = names(src@).subrange(0, i + 1);
            assert(s_new =~= s_old.push(x));
            s_old.lemma_push_to_set_commute(x);
            if !found {
                before.lemma_push_to_set_commute(x);
            } else {
                let k = choose|k: int| 0 <= k < dst@.len() && (#[trigger] dst@[k])@ == x;
                assert(before[k] == x);
                assert(before.to_set().contains(x));
                assert(before.to_set().insert(x) =~= before.to_set());
            }
            assert(names(dst@).to_set() =~= names(old(dst)@).to_set() + s_new.to_set());
        }
        i = i + 1;
    }
    assert(names(src@).subrange(0, src@.len() as int) =~= names(src@));
}

impl WidgetSchema {
    /// Every name the schema accepts, each once.
    pub fn all_valid(&self) -> (res: Vec<&'static str>)
        ensures
            names(res@).no_duplicates(),
            names(res@).to_set() == schema_names(self@).to_set(),
    {
        let mut out: Vec<&'static str> = Vec::new();
        assert(names(out@) =~= Seq::<Seq<char>>::empty());
        append_new_names(&mut out, &self.required);
        append_new_names(&mut out, &self.optional);
        append_new_names(&mut out, &self.events);
        append_new_names(&mut out, &self.style_attributes);
        append_new_names(&mut out, &self.layout_attributes);
        proof {
            let v = self@;
            vstd::seq_lib::seq_to_set_distributes_over_add(v.required, v.optional);
            vstd::seq_lib::seq_to_set_distributes_over_add(v.required + v.optional, v.events);
            vstd::seq_lib::seq_to_set_distributes_over_add(v.required + v.optional + v.events, v.style_attributes);
            vstd::seq_lib::seq_to_set_distributes_over_add(v.required + v.optional + v.events + v.style_attributes, v.layout_attributes);
            assert(Seq::<Seq<char>>::empty().to_set() =~= Set::empty());
            assert(names(out@).to_set() =~= schema_names(v).to_set());
        }
        out
    }

    /// Every name the schema lists, category by category.
    pub fn all_valid_names(&self) -> (res: Vec<&'static str>)
        ensures
            names(res@) == schema_names(self@),
    {
        let mut out: Vec<&'static str> = Vec::new();
        assert(names(out@) =~= Seq::<Seq<char>>::empty());
        append_names(&mut out, &self.required);
        append_names(&mut out, &self.optional);
        append_names(&mut out, &self.events);
        append_names(&mut out, &self.style_attributes);
        append_names(&mut out, &self.layout_attributes);
        assert(names(out@) =~= schema_names(self@));
        out
    }
}

impl WidgetKind {
    /// The validation schema for this widget kind.
    pub fn schema(&self) -> (res: WidgetSchema)
        ensures
            res@ == spec_widget_schema(*self),
    {
        get_widget_schema(self)
    }
}

/// The events an input widget raises when the user works it: a button is
/// clicked, pressed and released; text is typed, submitted and changed; a
/// checkbox or toggler is toggled; a radio, pick list or combo box selects
/// (a combo box also takes typed input); a slider changes value and is
/// released; a scrollable scrolls.
pub open spec fn raised_events(kind: WidgetKind) -> Set<EventKind> {
    match kind {
        WidgetKind::Button => set![EventKind::Click, EventKind::Press, EventKind::Release],
        WidgetKind::TextInput => set![EventKind::Input, EventKind::Submit, EventKind::Change],
        WidgetKind::Checkbox | WidgetKind::Toggler => set![EventKind::Toggle],
        WidgetKind::Radio | WidgetKind::PickList => set![EventKind::Select],
        WidgetKind::ComboBox => set![EventKind::Input, EventKind::Select],
        WidgetKind::Slider => set![EventKind::Change, EventKind::Release],
        WidgetKind::Scrollable => set![EventKind::Scroll],
        _ => Set::empty(),
    }
}

/// A widget's schema accepts the attribute of every event the widget raises,
/// so a handler can be bound to each of them.
pub proof fn lemma_schema_accepts_raised_events(kind: WidgetKind, e: EventKind)
    requires
        raised_events(kind).contains(e),
    ensures
        spec_widget_schema(kind).events.contains(event_attribute(e)),
{
    let ev = spec_widget_schema(kind).events;
    match kind {
        WidgetKind::Button => {
            assert(ev[0] == "on_click"@ && ev[1] == "on_press"@ && ev[2] == "on_release"@);
        },
        WidgetKind::TextInput => {
            assert(ev[0] == "on_input"@ && ev[1] == "on_submit"@ && ev[2] == "on_change"@);
        },
        WidgetKind::Checkbox | WidgetKind::Toggler => {
            assert(ev[0] == "on_toggle"@);
        },
        WidgetKind::Radio | WidgetKind::PickList => {
            assert(ev[0] == "on_select"@);
        },
        WidgetKind::ComboBox => {
            assert(ev[0] == "on_input"@ && ev[1] == "on_select"@);
        },
        WidgetKind::Slider => {
            assert(ev[0] == "on_change"@ && ev[1] == "on_release"@);
        },
        WidgetKind::Scrollable => {
            assert(ev[0] == "on_scroll"@);
        },
        _ => {},
    }
}

} // verus!
