//! Attribute names: deprecated spellings and their standard replacements.

use crate::ir::node::{AttributeMap, SpecAttr, WidgetKind};
use crate::ir::Span;
use crate::parser::error::{opt_view, perr, ParseError, ParseErrorKind, SpecParseError};
use crate::text::{push_str, str_eq, to_owned_string};
use vstd::prelude::*;

verus! {

/// `str`'s `Debug` output: the text quoted, with quotes, backslashes and
/// non-printable characters escaped.
pub uninterp spec fn spec_debug_str(s: Seq<char>) -> Seq<char>;

/// Formats a string with `{:?}`; the result is named `spec_debug_str`.
#[verifier::external_body]
pub(crate) fn debug_str(s: &str) -> (res: String)
    ensures
        res@ == spec_debug_str(s@),
{
    format!("{:?}", s)
}

/// The `Debug` form of a widget kind: the variant name, and for a custom
/// widget its name in quotes within `Custom(..)`.
pub open spec fn kind_debug(kind: WidgetKind) -> Seq<char> {
    match kind {
        WidgetKind::Column => "Column"@,
        WidgetKind::Row => "Row"@,
        WidgetKind::Container => "Container"@,
        WidgetKind::Scrollable => "Scrollable"@,
        WidgetKind::Stack => "Stack"@,
        WidgetKind::Text => "Text"@,
        WidgetKind::Image => "Image"@,
        WidgetKind::Svg => "Svg"@,
        WidgetKind::Button => "Button"@,
        WidgetKind::TextInput => "TextInput"@,
        WidgetKind::Checkbox => "Checkbox"@,
        WidgetKind::Slider => "Slider"@,
        WidgetKind::PickList => "PickList"@,
        WidgetKind::Toggler => "Toggler"@,
        WidgetKind::Space => "Space"@,
        WidgetKind::Rule => "Rule"@,
        WidgetKind::Radio => "Radio"@,
        WidgetKind::ComboBox => "ComboBox"@,
        WidgetKind::ProgressBar => "ProgressBar"@,
        WidgetKind::Tooltip => "Tooltip"@,
        WidgetKind::Grid => "Grid"@,
        WidgetKind::Canvas => "Canvas"@,
        WidgetKind::Float => "Float"@,
        WidgetKind::For => "For"@,
        WidgetKind::If => "If"@,
        WidgetKind::CanvasRect => "CanvasRect"@,
        WidgetKind::CanvasCircle => "CanvasCircle"@,
        WidgetKind::CanvasLine => "CanvasLine"@,
        WidgetKind::CanvasText => "CanvasText"@,
        WidgetKind::CanvasGroup => "CanvasGroup"@,
        WidgetKind::Custom(name) => "Custom("@ + spec_debug_str(name@) + ")"@,
    }
}

/// The `Debug` form of a widget kind.
pub fn widget_kind_debug(kind: &WidgetKind) -> (res: String)
    ensures
        res@ == kind_debug(*kind),
{
    let s: &str = match kind {
        WidgetKind::Column => "Column",
        WidgetKind::Row => "Row",
        WidgetKind::Container => "Container",
        WidgetKind::Scrollable => "Scrollable",
        WidgetKind::Stack => "Stack",
        WidgetKind::Text => "Text",
        WidgetKind::Image => "Image",
        WidgetKind::Svg => "Svg",
        WidgetKind::Button => "Button",
        WidgetKind::TextInput => "TextInput",
        WidgetKind::Checkbox => "Checkbox",
        WidgetKind::Slider => "Slider",
        WidgetKind::PickList => "PickList",
        WidgetKind::Toggler => "Toggler",
        WidgetKind::Space => "Space",
        WidgetKind::Rule => "Rule",
        WidgetKind::Radio => "Radio",
        WidgetKind::ComboBox => "ComboBox",
        WidgetKind::ProgressBar => "ProgressBar",
        WidgetKind::Tooltip => "Tooltip",
        WidgetKind::Grid => "Grid",
        WidgetKind::Canvas => "Canvas",
        WidgetKind::Float => "Float",
        WidgetKind::For => "For",
        WidgetKind::If => "If",
        WidgetKind::CanvasRect => "CanvasRect",
        WidgetKind::CanvasCircle => "CanvasCircle",
        WidgetKind::CanvasLine => "CanvasLine",
        WidgetKind::CanvasText => "CanvasText",
        WidgetKind::CanvasGroup => "CanvasGroup",
        WidgetKind::Custom(name) => {
            let mut out = to_owned_string("Custom(");
            let d = debug_str(name.as_str());
            push_str(&mut out, d.as_str());
            push_str(&mut out, ")");
            return out;
        },
    };
    to_owned_string(s)
}

/// The name the deprecation table uses for a widget kind: the variant name,
/// or the custom widget's own name.
pub open spec fn kind_display(kind: WidgetKind) -> Seq<char> {
    match kind {
        WidgetKind::Column => "Column"@,
        WidgetKind::Row => "Row"@,
        WidgetKind::Container => "Container"@,
        WidgetKind::Scrollable => "Scrollable"@,
        WidgetKind::Stack => "Stack"@,
        WidgetKind::Text => "Text"@,
        WidgetKind::Image => "Image"@,
        WidgetKind::Svg => "Svg"@,
        WidgetKind::Button => "Button"@,
        WidgetKind::TextInput => "TextInput"@,
        WidgetKind::Checkbox => "Checkbox"@,
        WidgetKind::Slider => "Slider"@,
        WidgetKind::PickList => "PickList"@,
        WidgetKind::Toggler => "Toggler"@,
        WidgetKind::Space => "Space"@,
        WidgetKind::Rule => "Rule"@,
        WidgetKind::Radio => "Radio"@,
        WidgetKind::ComboBox => "ComboBox"@,
        WidgetKind::ProgressBar => "ProgressBar"@,
        WidgetKind::Tooltip => "Tooltip"@,
        WidgetKind::Grid => "Grid"@,
        WidgetKind::Canvas => "Canvas"@,
        WidgetKind::Float => "Float"@,
        WidgetKind::For => "For"@,
        WidgetKind::If => "If"@,
        WidgetKind::CanvasRect => "CanvasRect"@,
        WidgetKind::CanvasCircle => "CanvasCircle"@,
        WidgetKind::CanvasLine => "CanvasLine"@,
        WidgetKind::CanvasText => "CanvasText"@,
        WidgetKind::CanvasGroup => "CanvasGroup"@,
        WidgetKind::Custom(name) => name@,
    }
}

fn widget_kind_to_string(kind: &WidgetKind) -> (res: String)
    ensures
        res@ == kind_display(*kind),
{
    let s: &str = match kind {
        WidgetKind::Column => "Column",
        WidgetKind::Row => "Row",
        WidgetKind::Container => "Container",
        WidgetKind::Scrollable => "Scrollable",
        WidgetKind::Stack => "Stack",
        WidgetKind::Text => "Text",
        WidgetKind::Image => "Image",
        WidgetKind::Svg => "Svg",
        WidgetKind::Button => "Button",
        WidgetKind::TextInput => "TextInput",
        WidgetKind::Checkbox => "Checkbox",
        WidgetKind::Slider => "Slider",
        WidgetKind::PickList => "PickList",
        WidgetKind::Toggler => "Toggler",
        WidgetKind::Space => "Space",
        WidgetKind::Rule => "Rule",
        WidgetKind::Radio => "Radio",
        WidgetKind::ComboBox => "ComboBox",
        WidgetKind::ProgressBar => "ProgressBar",
        WidgetKind::Tooltip => "Tooltip",
        WidgetKind::Grid => "Grid",
        WidgetKind::Canvas => "Canvas",
        WidgetKind::Float => "Float",
        WidgetKind::For => "For",
        WidgetKind::If => "If",
        WidgetKind::CanvasRect => "CanvasRect",
        WidgetKind::CanvasCircle => "CanvasCircle",
        WidgetKind::CanvasLine => "CanvasLine",
        WidgetKind::CanvasText => "CanvasText",
        WidgetKind::CanvasGroup => "CanvasGroup",
        WidgetKind::Custom(name) => {
            return name.clone();
        },
    };
    to_owned_string(s)
}

/// Deprecated names: (old name, new name, widgets it applies to).
pub open spec fn deprecations() -> Seq<(Seq<char>, Seq<char>, Seq<Seq<char>>)> {
    seq![
        ("path"@, "src"@, seq!["Image"@, "Svg"@]),
        ("active"@, "toggled"@, seq!["Toggler"@]),
        ("is_toggled"@, "toggled"@, seq!["Toggler"@]),
        ("secure"@, "password"@, seq!["TextInput"@]),
    ]
}

struct Deprecation {
    old_name: &'static str,
    new_name: &'static str,
    widgets: Vec<&'static str>,
}

spec fn deprecation_view(d: Deprecation) -> (Seq<char>, Seq<char>, Seq<Seq<char>>) {
    (d.old_name@, d.new_name@, d.widgets@.map_values(|w: &'static str| w@))
}

fn deprecation_table() -> (res: Vec<Deprecation>)
    ensures
        res@.len() == deprecations().len(),
        forall|i: int| 0 <= i < res@.len() ==> deprecation_view(#[trigger] res@[i]) == deprecations()[i],
{
    let v = vec![
        Deprecation { old_name: "path", new_name: "src", widgets: vec!["Image", "Svg"] },
        Deprecation { old_name: "active", new_name: "toggled", widgets: vec!["Toggler"] },
        Deprecation { old_name: "is_toggled", new_name: "toggled", widgets: vec!["Toggler"] },
        Deprecation { old_name: "secure", new_name: "password", widgets: vec!["TextInput"] },
    ];
    assert(deprecation_view(v@[0]) == deprecations()[0]);
    assert(deprecation_view(v@[1]) == deprecations()[1]);
    assert(deprecation_view(v@[2]) == deprecations()[2]);
    assert(deprecation_view(v@[3]) == deprecations()[3]);
    v
}

fn applies_to(widgets: &Vec<&'static str>, name: &str) -> (res: bool)
    ensures
        res == widgets@.map_values(|w: &'static str| w@).contains(name@),
{
    let ghost ws = widgets@.map_values(|w: &'static str| w@);
    let mut i: usize = 0;
    while i < widgets.len()
        invariant
            i <= widgets.len(),
            ws == widgets@.map_values(|w: &'static str| w@),
            forall|j: int| 0 <= j < i ==> ws[j] != name@,
        decreases widgets.len() - i,
    {
        if str_eq(widgets[i], name) {
            assert(ws[i as int] == name@);
            return true;
        }
        i = i + 1;
    }
    false
}

/// The attributes and warnings after applying the first `k` table entries.
pub open spec fn spec_normalize(m: Map<Seq<char>, SpecAttr>, name: Seq<char>, k: int) -> (
    Map<Seq<char>, SpecAttr>,
    Seq<(Seq<char>, Seq<char>)>,
)
    decreases k,
{
    if k <= 0 {
        (m, Seq::empty())
    } else {
        let (m1, w1) = spec_normalize(m, name, k - 1);
        let d = deprecations()[k - 1];
        if m1.dom().contains(d.0) && d.2.contains(name) {
            (m1.remove(d.0).insert(d.1, m1[d.0]), w1.push((d.0, d.1)))
        } else {
            (m1, w1)
        }
    }
}

/// Renames deprecated attributes of `widget_kind` to their standard names,
/// returning (old, new) for each rename.
pub fn normalize_attributes(widget_kind: &WidgetKind, attributes: &mut AttributeMap) -> (res: Vec<
    (String, String),
>)
    ensures
        ({
            let (m, w) = spec_normalize(old(attributes)@, kind_display(*widget_kind), 4);
            &&& final(attributes)@ == m
            &&& res@.map_values(|p: (String, String)| (p.0@, p.1@)) == w
        }),
{
    let table = deprecation_table();
    let name = widget_kind_to_string(widget_kind);
    let mut warnings: Vec<(String, String)> = Vec::new();
    let mut i: usize = 0;
    while i < table.len()
        invariant
            i <= table.len(),
            table@.len() == deprecations().len(),
            forall|j: int| 0 <= j < table@.len() ==> deprecation_view(#[trigger] table@[j]) == deprecations()[j],
            ({
                let (m, w) = spec_normalize(old(attributes)@, name@, i as int);
                &&& attributes@ == m
                &&& warnings@.map_values(|p: (String, String)| (p.0@, p.1@)) == w
            }),
        decreases table.len() - i,
    {
        let d = &table[i];
        assert(deprecation_view(table@[i as int]) == deprecations()[i as int]);
        let ghost wb = warnings@;
        if attributes.contains_key(d.old_name) && applies_to(&d.widgets, name.as_str()) {
            match attributes.remove(d.old_name) {
                Some(value) => {
                    attributes.insert(to_owned_string(d.new_name), value);
                    warnings.push((to_owned_string(d.old_name), to_owned_string(d.new_name)));
                    assert(warnings@.map_values(|p: (String, String)| (p.0@, p.1@)) =~= wb.map_values(
                        |p: (String, String)| (p.0@, p.1@),
                    ).push((d.old_name@, d.new_name@)));
                },
                None => {},
            }
        }
        i = i + 1;
    }
    warnings
}

/// The first table entry, from `k` on, that applies to the attributes.
pub open spec fn first_deprecated(m: Map<Seq<char>, SpecAttr>, name: Seq<char>, k: int) -> Option<int>
    decreases 4 - k,
{
    if k < 0 || k >= 4 {
        None
    } else if m.dom().contains(deprecations()[k].0) && deprecations()[k].2.contains(name) {
        Some(k)
    } else {
        first_deprecated(m, name, k + 1)
    }
}

/// Applying the first `k` renames removes each of their old names that
/// applies to the widget, and brings back no old name.
proof fn lemma_normalize_prefix(m: Map<Seq<char>, SpecAttr>, name: Seq<char>, k: int)
    requires
        0 <= k <= 4,
    ensures
        forall|j: int|
            0 <= j < 4 && !m.dom().contains(#[trigger] deprecations()[j].0) ==> !spec_normalize(m, name, k).0.dom().contains(deprecations()[j].0),
        forall|j: int|
            0 <= j < k && deprecations()[j].2.contains(name) ==> !spec_normalize(m, name, k).0.dom().contains(#[trigger] deprecations()[j].0),
    decreases k,
{
    reveal_strlit("path");
    reveal_strlit("src");
    reveal_strlit("active");
    reveal_strlit("toggled");
    reveal_strlit("is_toggled");
    reveal_strlit("secure");
    reveal_strlit("password");
    let d = deprecations();
    assert(d[0].1.len() == 3 && d[1].1.len() == 7 && d[2].1.len() == 7 && d[3].1.len() == 8);
    assert(d[0].0.len() == 4 && d[1].0.len() == 6 && d[2].0.len() == 10 && d[3].0.len() == 6);
    assert(d[1].0[0] != d[3].0[0]);
    if k > 0 {
        lemma_normalize_prefix(m, name, k - 1);
    }
}

/// With no table entry applying from `k` on, none of them applies.
proof fn lemma_none_deprecated_from(m: Map<Seq<char>, SpecAttr>, name: Seq<char>, k: int)
    requires
        0 <= k <= 4,
        first_deprecated(m, name, k) is None,
    ensures
        forall|j: int|
            k <= j < 4 ==> !(m.dom().contains(#[trigger] deprecations()[j].0) && deprecations()[j].2.contains(name)),
    decreases 4 - k,
{
    if k < 4 {
        lemma_none_deprecated_from(m, name, k + 1);
    }
}

/// Where no table entry applies, renaming changes nothing and reports nothing.
proof fn lemma_normalize_unchanged(m: Map<Seq<char>, SpecAttr>, name: Seq<char>, k: int)
    requires
        0 <= k <= 4,
        forall|j: int|
            0 <= j < 4 ==> !(m.dom().contains(#[trigger] deprecations()[j].0) && deprecations()[j].2.contains(name)),
    ensures
        spec_normalize(m, name, k) == (m, Seq::<(Seq<char>, Seq<char>)>::empty()),
    decreases k,
{
    if k > 0 {
        lemma_normalize_unchanged(m, name, k - 1);
        assert(!(m.dom().contains(deprecations()[k - 1].0) && deprecations()[k - 1].2.contains(name)));
    }
}

/// Renaming deprecated attributes is complete: whatever the attributes, the
/// normalized ones pass `validate_attributes` (no table entry applies to
/// them), and normalizing them again renames nothing and changes nothing.
pub proof fn lemma_normalized_attributes_validate(m: Map<Seq<char>, SpecAttr>, name: Seq<char>)
    ensures
        first_deprecated(spec_normalize(m, name, 4).0, name, 0) is None,
        spec_normalize(spec_normalize(m, name, 4).0, name, 4) == (
            spec_normalize(m, name, 4).0,
            Seq::<(Seq<char>, Seq<char>)>::empty(),
        ),
{
    lemma_normalize_prefix(m, name, 4);
    let n = spec_normalize(m, name, 4).0;
    reveal_with_fuel(first_deprecated, 5);
    assert(deprecations()[0].2.contains(name) ==> !n.dom().contains(deprecations()[0].0));
    assert(deprecations()[1].2.contains(name) ==> !n.dom().contains(deprecations()[1].0));
    assert(deprecations()[2].2.contains(name) ==> !n.dom().contains(deprecations()[2].0));
    assert(deprecations()[3].2.contains(name) ==> !n.dom().contains(deprecations()[3].0));
    lemma_none_deprecated_from(n, name, 0);
    lemma_normalize_unchanged(n, name, 4);
}

/// On an image or an svg, the deprecated `path` is renamed `src`: whatever
/// the other attributes, `path` goes away, its value stands under `src`, the
/// rename is the one reported, and every other attribute is kept as it was.
pub proof fn lemma_path_renamed_to_src(kind: WidgetKind, m: Map<Seq<char>, SpecAttr>)
    requires
        kind is Image || kind is Svg,
        m.dom().contains("path"@),
    ensures
        ({
            let (n, w) = spec_normalize(m, kind_display(kind), 4);
            &&& !n.dom().contains("path"@)
            &&& n.dom().contains("src"@) && n["src"@] == m["path"@]
            &&& w == seq![("path"@, "src"@)]
            &&& forall|key: Seq<char>| key != "path"@ && key != "src"@ ==> (#[trigger] n.dom().contains(key)
                == m.dom().contains(key) && (m.dom().contains(key) ==> n[key] == m[key]))
        }),
{
    reveal_strlit("Image");
    reveal_strlit("Svg");
    reveal_strlit("Toggler");
    reveal_strlit("TextInput");
    reveal_strlit("path");
    reveal_strlit("src");
    let name = kind_display(kind);
    let d = deprecations();
    assert(name.len() == 5 || name.len() == 3);
    assert(d[0].2.contains(name)) by {
        if kind is Image {
            assert(d[0].2[0] == name);
        } else {
            assert(d[0].2[1] == name);
        }
    }
    assert(!d[1].2.contains(name)) by {
        assert(d[1].2 =~= seq!["Toggler"@]);
        assert("Toggler"@.len() == 7);
    }
    assert(!d[2].2.contains(name)) by {
        assert(d[2].2 =~= seq!["Toggler"@]);
    }
    assert(!d[3].2.contains(name)) by {
        assert(d[3].2 =~= seq!["TextInput"@]);
        assert("TextInput"@.len() == 9);
    }
    reveal_with_fuel(spec_normalize, 5);
    let r0 = spec_normalize(m, name, 0);
    assert(r0 == (m, Seq::<(Seq<char>, Seq<char>)>::empty()));
    let r1 = spec_normalize(m, name, 1);
    assert(r1.1 =~= seq![("path"@, "src"@)]);
    assert(spec_normalize(m, name, 4) == r1);
    assert("path"@ != "src"@) by {
        assert("path"@.len() != "src"@.len());
    }
}

/// On a text input, the deprecated `secure` is renamed `password`: `secure`
/// goes away, its value stands under `password`, that rename is the one
/// reported, and every other attribute is kept as it was.
pub proof fn lemma_secure_renamed_to_password(m: Map<Seq<char>, SpecAttr>)
    requires
        m.dom().contains("secure"@),
    ensures
        ({
            let (n, w) = spec_normalize(m, kind_display(WidgetKind::TextInput), 4);
            &&& !n.dom().contains("secure"@)
            &&& n.dom().contains("password"@) && n["password"@] == m["secure"@]
            &&& w == seq![("secure"@, "password"@)]
            &&& forall|key: Seq<char>| key != "secure"@ && key != "password"@ ==> (#[trigger] n.dom().contains(key)
                == m.dom().contains(key) && (m.dom().contains(key) ==> n[key] == m[key]))
        }),
{
    reveal_strlit("Image");
    reveal_strlit("Svg");
    reveal_strlit("Toggler");
    reveal_strlit("TextInput");
    reveal_strlit("secure");
    reveal_strlit("password");
    let name = kind_display(WidgetKind::TextInput);
    let d = deprecations();
    assert(!d[0].2.contains(name)) by {
        assert(d[0].2 =~= seq!["Image"@, "Svg"@]);
        assert("Image"@.len() == 5 && "Svg"@.len() == 3 && "Toggler"@.len() == 7 && "TextInput"@.len() == 9);
    }
    assert(!d[1].2.contains(name)) by {
        assert(d[1].2 =~= seq!["Toggler"@]);
        assert("Toggler"@.len() == 7 && "TextInput"@.len() == 9);
    }
    assert(!d[2].2.contains(name)) by {
        assert(d[2].2 =~= seq!["Toggler"@]);
        assert("Toggler"@.len() == 7 && "TextInput"@.len() == 9);
    }
    assert(d[3].2.contains(name)) by {
        assert(d[3].2[0] == name);
    }
    reveal_with_fuel(spec_normalize, 5);
    assert(spec_normalize(m, name, 3) == (m, Seq::<(Seq<char>, Seq<char>)>::empty()));
    assert(spec_normalize(m, name, 4).1 =~= seq![("secure"@, "password"@)]);
    assert("secure"@ != "password"@) by {
        assert("secure"@.len() != "password"@.len());
    }
}

/// On a toggler, the deprecated `active` and `is_toggled` are renamed
/// `toggled`; when both are present the value of `is_toggled` wins. Both go
/// away, the renames are reported in that order, and every other attribute
/// is kept as it was.
pub proof fn lemma_toggler_renamed_to_toggled(m: Map<Seq<char>, SpecAttr>)
    requires
        m.dom().contains("active"@) || m.dom().contains("is_toggled"@),
    ensures
        ({
            let (n, w) = spec_normalize(m, kind_display(WidgetKind::Toggler), 4);
            &&& !n.dom().contains("active"@) && !n.dom().contains("is_toggled"@)
            &&& n.dom().contains("toggled"@)
            &&& n["toggled"@] == (if m.dom().contains("is_toggled"@) { m["is_toggled"@] } else { m["active"@] })
            &&& w == (if m.dom().contains("active"@) { seq![("active"@, "toggled"@)] } else { Seq::empty() }) + (
                if m.dom().contains("is_toggled"@) { seq![("is_toggled"@, "toggled"@)] } else { Seq::empty() })
            &&& forall|key: Seq<char>| key != "active"@ && key != "is_toggled"@ && key != "toggled"@ ==> (
                #[trigger] n.dom().contains(key) == m.dom().contains(key) && (m.dom().contains(key) ==> n[key] == m[key]))
        }),
{
    reveal_strlit("Image");
    reveal_strlit("Svg");
    reveal_strlit("Toggler");
    reveal_strlit("TextInput");
    reveal_strlit("active");
    reveal_strlit("is_toggled");
    reveal_strlit("toggled");
    let name = kind_display(WidgetKind::Toggler);
    let d = deprecations();
    assert(!d[0].2.contains(name)) by {
        assert(d[0].2 =~= seq!["Image"@, "Svg"@]);
        assert("Image"@.len() == 5 && "Svg"@.len() == 3 && "Toggler"@.len() == 7 && "TextInput"@.len() == 9);
    }
    assert(d[1].2.contains(name)) by {
        assert(d[1].2[0] == name);
    }
    assert(d[2].2.contains(name)) by {
        assert(d[2].2[0] == name);
    }
    assert(!d[3].2.contains(name)) by {
        assert(d[3].2 =~= seq!["TextInput"@]);
        assert("Toggler"@.len() == 7 && "TextInput"@.len() == 9);
    }
    assert("active"@ != "toggled"@) by {
        assert("active"@.len() != "toggled"@.len());
    }
    assert("is_toggled"@ != "toggled"@) by {
        assert("is_toggled"@.len() != "toggled"@.len());
    }
    assert("is_toggled"@ != "active"@) by {
        assert("is_toggled"@.len() != "active"@.len());
    }
    reveal_with_fuel(spec_normalize, 5);
    let e = Seq::<(Seq<char>, Seq<char>)>::empty();
    assert(spec_normalize(m, name, 1) == (m, e));
    let r2 = spec_normalize(m, name, 2);
    let r3 = spec_normalize(m, name, 3);
    assert(spec_normalize(m, name, 4) == r3);
    let w = (if m.dom().contains("active"@) { seq![("active"@, "toggled"@)] } else { e }) + (
        if m.dom().contains("is_toggled"@) { seq![("is_toggled"@, "toggled"@)] } else { e });
    assert(r3.1 =~= w);
}

pub open spec fn deprecated_error(k: int, name: Seq<char>, span: Span) -> SpecParseError {
    let d = deprecations()[k];
    perr(
        ParseErrorKind::DeprecatedAttribute,
        "Attribute '"@ + d.0 + "' is deprecated for "@ + name + " widgets"@,
        span,
        Some("Use '"@ + d.1 + "' instead: "@ + d.1 + "=\"...\""@),
    )
}

/// Rejects deprecated attribute names, reporting the first in table order.
pub fn validate_attributes(widget_kind: &WidgetKind, attributes: &AttributeMap, span: Span) -> (res: Result<
    (),
    ParseError,
>)
    ensures
        match first_deprecated(attributes@, kind_display(*widget_kind), 0) {
            None => res is Ok,
            Some(k) => res matches Err(e) && e@ == deprecated_error(k, kind_display(*widget_kind), span),
        },
{
    let table = deprecation_table();
    let name = widget_kind_to_string(widget_kind);
    let mut i: usize = 0;
    while i < table.len()
        invariant
            i <= table.len(),
            table@.len() == deprecations().len(),
            forall|j: int| 0 <= j < table@.len() ==> deprecation_view(#[trigger] table@[j]) == deprecations()[j],
            name@ == kind_display(*widget_kind),
            first_deprecated(attributes@, name@, 0) == first_deprecated(attributes@, name@, i as int),
        decreases table.len() - i,
    {
        let d = &table[i];
        assert(deprecation_view(table@[i as int]) == deprecations()[i as int]);
        if attributes.contains_key(d.old_name) && applies_to(&d.widgets, name.as_str()) {
            let mut msg = to_owned_string("Attribute '");
            push_str(&mut msg, d.old_name);
            push_str(&mut msg, "' is deprecated for ");
            push_str(&mut msg, name.as_str());
            push_str(&mut msg, " widgets");
            let mut sug = to_owned_string("Use '");
            push_str(&mut sug, d.new_name);
            push_str(&mut sug, "' instead: ");
            push_str(&mut sug, d.new_name);
            push_str(&mut sug, "=\"...\"");
            assert(first_deprecated(attributes@, name@, i as int) == Some(i as int));
            assert(msg@ == deprecated_error(i as int, name@, span).message);
            assert(sug@ == deprecated_error(i as int, name@, span).suggestion.unwrap());
            assert(opt_view(Some(sug)) == Some(sug@));
            assert(perr(ParseErrorKind::DeprecatedAttribute, msg@, span, opt_view(Some(sug))) == deprecated_error(i as int, name@, span));
            return Err(ParseError::new(ParseErrorKind::DeprecatedAttribute, msg, span, Some(sug)));
        }
        i = i + 1;
    }
    Ok(())
}

} // verus!
