//! Whole documents: the `<dampen>` wrapper, or a single widget.

use crate::ir::node::{node_view, SpecAttr, SpecNode, WidgetNode};
use crate::ir::theme::WidgetState;
use crate::ir::layout::Breakpoint;
use crate::ir::{SchemaVersion, Span};
use crate::parser::error::{perr, ParseError, ParseErrorKind, SpecParseError};
use crate::parser::tree::{doc_fits, document_fits, lemma_node_span_bounds, node_span, parse_node, spec_parse_node};
use crate::parser::version::{
    max_supported_version, parse_version_string, spec_parse_version, tree_warnings,
    unsupported_version_error, validate_version_supported, validate_widget_tree_versions,
    warning_of, ValidationWarning,
};
use crate::parser::xml::{read_xml, xml_document, XmlDocument, XmlRecord};
use crate::text::{str_eq, to_owned_string};
use vstd::prelude::*;

verus! {

/// A parsed document.
#[derive(Debug, PartialEq)]
pub struct DampenDocument {
    /// Schema version the document declares (1.0 when it declares none).
    pub version: SchemaVersion,
    /// Root widget.
    pub root: WidgetNode,
    /// Names of the themes the document declares; their bodies are read by the style layer.
    pub themes: Vec<String>,
    /// Records of the style classes the document declares; read by the style layer.
    pub style_classes: Vec<usize>,
    /// Name of the theme used for the whole application.
    pub global_theme: Option<String>,
    /// Whether the application follows the system's light or dark mode.
    pub follow_system: bool,
}

/// View of a document.
pub struct SpecDocument {
    pub version: SchemaVersion,
    pub root: SpecNode,
    pub themes: Seq<Seq<char>>,
    pub style_classes: Seq<usize>,
    pub global_theme: Option<Seq<char>>,
    pub follow_system: bool,
}

impl View for DampenDocument {
    type V = SpecDocument;

    open spec fn view(&self) -> SpecDocument {
        SpecDocument {
            version: self.version,
            root: self.root@,
            themes: self.themes@.map_values(|s: String| s@),
            style_classes: self.style_classes@,
            global_theme: crate::ir::node::string_opt_view(self.global_theme),
            follow_system: self.follow_system,
        }
    }
}

impl Default for DampenDocument {
    /// Version 1.0 and an empty root column.
    fn default() -> (res: DampenDocument)
        ensures
            res@.version == (SchemaVersion { major: 1, minor: 0 }),
            res@.root == default_node_view(),
            res@.themes.len() == 0,
            res@.style_classes.len() == 0,
            res@.global_theme is None,
            res@.follow_system,
    {
        let root = WidgetNode::default();
        let d = DampenDocument {
            version: SchemaVersion { major: 1, minor: 0 },
            root,
            themes: Vec::new(),
            style_classes: Vec::new(),
            global_theme: None,
            follow_system: true,
        };
        proof {
            lemma_default_node_view(d.root);
        }
        assert(d@.themes =~= Seq::<Seq<char>>::empty());
        d
    }
}

/// The view of `WidgetNode::default()`: an empty column.
pub open spec fn default_node_view() -> SpecNode {
    SpecNode {
        kind: crate::ir::node::WidgetKind::Column,
        id: None,
        attributes: Map::empty(),
        events: Seq::empty(),
        children: Seq::empty(),
        span: Span { start: 0, end: 0, line: 0, column: 0 },
        theme_ref: None,
        classes: Seq::empty(),
        breakpoints: Map::new(|b: Breakpoint| true, |b: Breakpoint| Map::<Seq<char>, SpecAttr>::empty()),
        states: Map::new(|s: WidgetState| true, |s: WidgetState| Map::<Seq<char>, SpecAttr>::empty()),
    }
}

proof fn lemma_default_node_view(n: WidgetNode)
    requires
        n.kind == crate::ir::node::WidgetKind::Column,
        n.id is None,
        n.attributes@ == Map::<Seq<char>, SpecAttr>::empty(),
        n.events@.len() == 0,
        n.children@.len() == 0,
        n.span == (Span { start: 0, end: 0, line: 0, column: 0 }),
        n.theme_ref is None,
        n.classes@.len() == 0,
        forall|b: Breakpoint| #[trigger] n.breakpoint_attributes.spec_get(b) == Map::<Seq<char>, SpecAttr>::empty(),
        forall|s: WidgetState| #[trigger] n.inline_state_attributes.spec_get(s) == Map::<Seq<char>, SpecAttr>::empty(),
    ensures
        n@ == default_node_view(),
{
    assert(n@.events =~= Seq::<crate::ir::node::SpecEvent>::empty());
    assert(n@.children =~= Seq::<SpecNode>::empty());
    assert(n@.classes =~= Seq::<Seq<char>>::empty());
    assert(n@.breakpoints =~= default_node_view().breakpoints);
    assert(n@.states =~= default_node_view().states);
}

fn default_node() -> (res: WidgetNode)
    ensures
        res@ == default_node_view(),
{
    let n = WidgetNode::default();
    proof {
        lemma_default_node_view(n);
    }
    n
}

// ---------------------------------------------------------------------------
// Looking things up in the records
// ---------------------------------------------------------------------------

/// The value of the attribute `name` without a namespace, from position `k` on.
pub open spec fn plain_attr(rec: XmlRecord, name: Seq<char>, k: int) -> Option<Seq<char>>
    decreases rec.attributes@.len() - k,
{
    if k < 0 || k >= rec.attributes@.len() {
        None
    } else if rec.attributes@[k].namespace is None && rec.attributes@[k].name@ == name {
        Some(rec.attributes@[k].value@)
    } else {
        plain_attr(rec, name, k + 1)
    }
}

fn plain_attribute(rec: &XmlRecord, name: &str) -> (res: Option<String>)
    ensures
        crate::ir::node::string_opt_view(res) == plain_attr(*rec, name@, 0),
{
    let mut k: usize = 0;
    while k < rec.attributes.len()
        invariant
            k <= rec.attributes@.len(),
            plain_attr(*rec, name@, 0) == plain_attr(*rec, name@, k as int),
        decreases rec.attributes.len() - k,
    {
        if rec.attributes[k].namespace.is_none() && str_eq(rec.attributes[k].name.as_str(), name) {
            return Some(rec.attributes[k].value.clone());
        }
        k = k + 1;
    }
    None
}

/// Record `j` is a child of record `p`.
pub open spec fn child_of(doc: XmlDocument, p: int, j: int) -> bool {
    0 <= p < j < doc.nodes@.len() && doc.nodes@[j].parent == Some(p as usize)
}

/// The names of the themes declared under record `c`, from record `j` on,
/// added to `names` when new.
pub open spec fn theme_names(doc: XmlDocument, c: int, j: int, names: Seq<Seq<char>>) -> Seq<Seq<char>>
    decreases doc.nodes@.len() - j,
{
    if j <= c || j >= doc.nodes@.len() {
        names
    } else {
        let r = doc.nodes@[j];
        let names2 = if child_of(doc, c, j) && r.is_element() && r.name@ == "theme"@ {
            let n = match plain_attr(r, "name"@, 0) {
                Some(v) => v,
                None => "default"@,
            };
            if names.contains(n) {
                names
            } else {
                names.push(n)
            }
        } else {
            names
        };
        theme_names(doc, c, j + 1, names2)
    }
}

/// The style classes (`class` or `style` elements) under record `c`, from record `j` on.
pub open spec fn class_records(doc: XmlDocument, c: int, j: int) -> Seq<usize>
    decreases doc.nodes@.len() - j,
{
    if j <= c || j >= doc.nodes@.len() {
        Seq::empty()
    } else {
        let r = doc.nodes@[j];
        (if child_of(doc, c, j) && r.is_element() && (r.name@ == "class"@ || r.name@ == "style"@) {
            seq![j as usize]
        } else {
            Seq::empty()
        }) + class_records(doc, c, j + 1)
    }
}

// ---------------------------------------------------------------------------
// The <dampen> wrapper
// ---------------------------------------------------------------------------

/// What the children of `<dampen>` have declared so far.
pub struct DocAcc {
    pub themes: Seq<Seq<char>>,
    pub style_classes: Seq<usize>,
    pub global_theme: Option<Seq<char>>,
    pub follow_system: bool,
    pub root: Option<SpecNode>,
}

pub open spec fn empty_doc_acc() -> DocAcc {
    DocAcc { themes: Seq::empty(), style_classes: Seq::empty(), global_theme: None, follow_system: true, root: None }
}

/// One child of `<dampen>`: themes, style classes, the global theme, the
/// system-theme switch, or the root widget (only one).
pub open spec fn dampen_child(doc: XmlDocument, src: Seq<char>, j: int, acc: DocAcc) -> Result<DocAcc, SpecParseError> {
    let r = doc.nodes@[j];
    let t = r.name@;
    if !r.is_element() {
        Ok(acc)
    } else if t == "themes"@ {
        Ok(DocAcc { themes: theme_names(doc, j, j + 1, acc.themes), ..acc })
    } else if t == "style_classes"@ || t == "classes"@ || t == "styles"@ {
        Ok(DocAcc { style_classes: acc.style_classes + class_records(doc, j, j + 1), ..acc })
    } else if t == "global_theme"@ || t == "default_theme"@ {
        match plain_attr(r, "name"@, 0) {
            Some(n) => Ok(DocAcc { global_theme: Some(n), ..acc }),
            None => Ok(acc),
        }
    } else if t == "follow_system"@ {
        match plain_attr(r, "enabled"@, 0) {
            Some(e) => Ok(DocAcc { follow_system: e != "false"@, ..acc }),
            None => Ok(acc),
        }
    } else if acc.root is Some {
        Err(perr(
            ParseErrorKind::XmlSyntax,
            "Multiple root widgets found in <dampen>"@,
            node_span(r, src),
            Some("Only one root widget is allowed"@),
        ))
    } else {
        match spec_parse_node(doc, src, j) {
            Err(e) => Err(e),
            Ok(n) => Ok(DocAcc { root: Some(n), ..acc }),
        }
    }
}

/// The children of `<dampen>` (record `r`) among records `r+1..j`.
pub open spec fn dampen_children(doc: XmlDocument, src: Seq<char>, r: int, j: int) -> Result<DocAcc, SpecParseError>
    decreases j,
{
    if j <= r + 1 || j > doc.nodes@.len() || r < 0 {
        Ok(empty_doc_acc())
    } else {
        match dampen_children(doc, src, r, j - 1) {
            Err(e) => Err(e),
            Ok(acc) => if child_of(doc, r, j - 1) {
                dampen_child(doc, src, j - 1, acc)
            } else {
                Ok(acc)
            },
        }
    }
}

/// The version the `<dampen>` element at record `r` declares (1.0 when none).
pub open spec fn dampen_version(doc: XmlDocument, src: Seq<char>, r: int) -> Result<SchemaVersion, SpecParseError> {
    let rec = doc.nodes@[r];
    let span = node_span(rec, src);
    match plain_attr(rec, "version"@, 0) {
        Some(v) => match spec_parse_version(v, span) {
            Err(e) => Err(e),
            Ok(p) => if p.spec_newer_than(max_supported_version()) {
                Err(unsupported_version_error(p, span))
            } else {
                Ok(p)
            },
        },
        None => Ok(SchemaVersion { major: 1, minor: 0 }),
    }
}

/// The document under the `<dampen>` element at record `r`.
#[verifier::opaque]
pub open spec fn spec_parse_dampen(doc: XmlDocument, src: Seq<char>, r: int) -> Result<SpecDocument, SpecParseError> {
    let rec = doc.nodes@[r];
    let span = node_span(rec, src);
    let version = dampen_version(doc, src, r);
    match version {
        Err(e) => Err(e),
        Ok(v) => match dampen_children(doc, src, r, doc.nodes@.len() as int) {
            Err(e) => Err(e),
            Ok(acc) => {
                let root = match acc.root {
                    Some(n) => Ok(n),
                    None => if acc.themes.len() > 0 || acc.style_classes.len() > 0 {
                        Ok(default_node_view())
                    } else {
                        Err(perr(
                            ParseErrorKind::XmlSyntax,
                            "No root widget found in <dampen>"@,
                            span,
                            Some("Add a widget like <column> or <row> inside <dampen>"@),
                        ))
                    },
                };
                match root {
                    Err(e) => Err(e),
                    Ok(n) => Ok(SpecDocument {
                        version: v,
                        root: n,
                        themes: acc.themes,
                        style_classes: acc.style_classes,
                        global_theme: acc.global_theme,
                        follow_system: acc.follow_system,
                    }),
                }
            },
        },
    }
}

fn declared_theme_names(doc: &XmlDocument, c: usize, names: &mut Vec<String>)
    requires
        c < doc.nodes@.len(),
    ensures
        final(names)@.map_values(|s: String| s@) == theme_names(*doc, c as int, c + 1, old(names)@.map_values(|s: String| s@)),
{
    assert(c < doc.nodes.len());
    let mut j: usize = c + 1;
    while j < doc.nodes.len()
        invariant
            c < j <= doc.nodes@.len(),
            theme_names(*doc, c as int, c + 1, old(names)@.map_values(|s: String| s@))
                == theme_names(*doc, c as int, j as int, names@.map_values(|s: String| s@)),
        decreases doc.nodes.len() - j,
    {
        let r = &doc.nodes[j];
        let is_child = match r.parent {
            Some(p) => p == c,
            None => false,
        };
        if is_child && r.is_element() && str_eq(r.name.as_str(), "theme") {
            let n = match plain_attribute(r, "name") {
                Some(v) => v,
                None => to_owned_string("default"),
            };
            let mut found = false;
            let mut k: usize = 0;
            while k < names.len()
                invariant
                    k <= names@.len(),
                    found == (exists|m: int| 0 <= m < k && (#[trigger] names@[m])@ == n@),
                decreases names.len() - k,
            {
                if str_eq(names[k].as_str(), n.as_str()) {
                    found = true;
                }
                proof {
                    if names@[k as int]@ == n@ {
                        assert(exists|m: int| 0 <= m < k + 1 && (#[trigger] names@[m])@ == n@);
                    }
                }
                k = k + 1;
            }
            let ghost before = names@.map_values(|s: String| s@);
            proof {
                if found {
                    let m = choose|m: int| 0 <= m < k && (#[trigger] names@[m])@ == n@;
                    assert(before[m] == n@);
                } else {
                    assert forall|m: int| 0 <= m < before.len() implies before[m] != n@ by {
                        assert(names@[m]@ == before[m]);
                    }
                }
            }
            if !found {
                names.push(n);
                assert(names@.map_values(|s: String| s@) =~= before.push(n@));
            }
        }
        j = j + 1;
    }
}

fn declared_class_records(doc: &XmlDocument, c: usize, out: &mut Vec<usize>)
    requires
        c < doc.nodes@.len(),
    ensures
        final(out)@ == old(out)@ + class_records(*doc, c as int, c + 1),
{
    assert(c < doc.nodes.len());
    let mut j: usize = c + 1;
    assert(old(out)@ =~= old(out)@ + Seq::<usize>::empty());
    while j < doc.nodes.len()
        invariant
            c < j <= doc.nodes@.len(),
            old(out)@ + class_records(*doc, c as int, c + 1) == out@ + class_records(*doc, c as int, j as int),
        decreases doc.nodes.len() - j,
    {
        let r = &doc.nodes[j];
        let is_child = match r.parent {
            Some(p) => p == c,
            None => false,
        };
        let ghost before = out@;
        if is_child && r.is_element() && (str_eq(r.name.as_str(), "class") || str_eq(r.name.as_str(), "style")) {
            out.push(j);
            assert(before + class_records(*doc, c as int, j as int) =~= out@ + class_records(*doc, c as int, j + 1));
        } else {
            assert(before + class_records(*doc, c as int, j as int) =~= out@ + class_records(*doc, c as int, j + 1));
        }
        j = j + 1;
    }
    assert(out@ + class_records(*doc, c as int, j as int) =~= out@);
}

/// The state of reading the children of `<dampen>`.
struct DocState {
    themes: Vec<String>,
    style_classes: Vec<usize>,
    global_theme: Option<String>,
    follow_system: bool,
    root: Option<WidgetNode>,
}

spec fn state_view(st: DocState) -> DocAcc {
    DocAcc {
        themes: st.themes@.map_values(|s: String| s@),
        style_classes: st.style_classes@,
        global_theme: crate::ir::node::string_opt_view(st.global_theme),
        follow_system: st.follow_system,
        root: match st.root {
            Some(n) => Some(n@),
            None => None,
        },
    }
}

fn read_dampen_child(doc: &XmlDocument, source: &str, j: usize, st: &mut DocState) -> (res: Result<(), ParseError>)
    requires
        j < doc.nodes@.len(),
        doc_fits(*doc, source@),
    ensures
        match dampen_child(*doc, source@, j as int, state_view(*old(st))) {
            Ok(a) => res is Ok && state_view(*final(st)) == a,
            Err(e) => res matches Err(x) && x@ == e,
        },
{
    let c = &doc.nodes[j];
    if !c.is_element() {
        return Ok(());
    }
    let t = c.name.as_str();
    if str_eq(t, "themes") {
        declared_theme_names(doc, j, &mut st.themes);
    } else if str_eq(t, "style_classes") || str_eq(t, "classes") || str_eq(t, "styles") {
        declared_class_records(doc, j, &mut st.style_classes);
    } else if str_eq(t, "global_theme") || str_eq(t, "default_theme") {
        match plain_attribute(c, "name") {
            Some(n) => {
                st.global_theme = Some(n);
            },
            None => {},
        }
    } else if str_eq(t, "follow_system") {
        match plain_attribute(c, "enabled") {
            Some(e) => {
                st.follow_system = !str_eq(e.as_str(), "false");
            },
            None => {},
        }
    } else {
        if st.root.is_some() {
            proof {
                lemma_node_span_bounds(*c, source@);
            }
            let (l2, c2) = crate::parser::values::calculate_line_col(source, c.start);
            return Err(ParseError::new(
                ParseErrorKind::XmlSyntax,
                to_owned_string("Multiple root widgets found in <dampen>"),
                Span::new(c.start, c.end, l2, c2),
                Some(to_owned_string("Only one root widget is allowed")),
            ));
        }
        match parse_node(doc, source, j) {
            Ok(n) => {
                st.root = Some(n);
            },
            Err(e) => {
                return Err(e);
            },
        }
    }
    Ok(())
}

/// The document under the `<dampen>` element at record `r`.
pub fn parse_dampen_document(doc: &XmlDocument, source: &str, r: usize) -> (res: Result<DampenDocument, ParseError>)
    requires
        r < doc.nodes@.len(),
        doc_fits(*doc, source@),
    ensures
        match spec_parse_dampen(*doc, source@, r as int) {
            Ok(d) => res matches Ok(x) && x@ == d,
            Err(e) => res matches Err(x) && x@ == e,
        },
{
    let rec = &doc.nodes[r];
    proof {
        reveal(spec_parse_dampen);
        lemma_node_span_bounds(*rec, source@);
    }
    let (line, col) = crate::parser::values::calculate_line_col(source, rec.start);
    let span = Span::new(rec.start, rec.end, line, col);
    let version = match plain_attribute(rec, "version") {
        Some(v) => {
            let parsed = match parse_version_string(v.as_str(), span) {
                Ok(p) => p,
                Err(e) => {
                    return Err(e);
                },
            };
            match validate_version_supported(&parsed, span) {
                Ok(()) => {},
                Err(e) => {
                    return Err(e);
                },
            }
            parsed
        },
        None => SchemaVersion { major: 1, minor: 0 },
    };
    let mut st = DocState { themes: Vec::new(), style_classes: Vec::new(), global_theme: None, follow_system: true, root: None };
    assert(r < doc.nodes.len());
    let mut j: usize = r + 1;
    assert(state_view(st) =~= empty_doc_acc()) by {
        assert(st.themes@.map_values(|s: String| s@) =~= Seq::<Seq<char>>::empty());
    }
    while j < doc.nodes.len()
        invariant
            r < j <= doc.nodes@.len(),
            doc_fits(*doc, source@),
            dampen_version(*doc, source@, r as int) == Ok::<SchemaVersion, SpecParseError>(version),
            span == node_span(doc.nodes@[r as int], source@),
            dampen_children(*doc, source@, r as int, j as int) == Ok::<DocAcc, SpecParseError>(state_view(st)),
        decreases doc.nodes.len() - j,
    {
        let is_child = match doc.nodes[j].parent {
            Some(p) => p == r,
            None => false,
        };
        if is_child {
            match read_dampen_child(doc, source, j, &mut st) {
                Ok(()) => {},
                Err(e) => {
                    proof {
                        reveal(spec_parse_dampen);
                        lemma_dampen_err(*doc, source@, r as int, j + 1, doc.nodes@.len() as int);
                    }
                    return Err(e);
                },
            }
        }
        j = j + 1;
    }
    let DocState { themes, style_classes, global_theme, follow_system, root } = st;
    let root_widget = match root {
        Some(w) => w,
        None => {
            if themes.len() > 0 || style_classes.len() > 0 {
                default_node()
            } else {
                return Err(ParseError::new(
                    ParseErrorKind::XmlSyntax,
                    to_owned_string("No root widget found in <dampen>"),
                    span,
                    Some(to_owned_string("Add a widget like <column> or <row> inside <dampen>")),
                ));
            }
        },
    };
    Ok(DampenDocument { version, root: root_widget, themes, style_classes, global_theme, follow_system })
}

proof fn lemma_dampen_err(doc: XmlDocument, src: Seq<char>, r: int, m: int, n: int)
    requires
        0 <= r,
        r + 1 <= m <= n <= doc.nodes@.len(),
        dampen_children(doc, src, r, m) is Err,
    ensures
        dampen_children(doc, src, r, n) == dampen_children(doc, src, r, m),
    decreases n - m,
{
    if m < n {
        lemma_dampen_err(doc, src, r, m, n - 1);
    }
}

// ---------------------------------------------------------------------------
// Parsing a document
// ---------------------------------------------------------------------------

/// The first child of the document root (record 0), from record `j` on.
pub open spec fn first_top_level(doc: XmlDocument, j: int) -> Option<int>
    decreases doc.nodes@.len() - j,
{
    if j < 1 || j >= doc.nodes@.len() {
        None
    } else if doc.nodes@[j].parent == Some(0usize) {
        Some(j)
    } else {
        first_top_level(doc, j + 1)
    }
}

pub open spec fn no_root_error() -> SpecParseError {
    perr(ParseErrorKind::XmlSyntax, "No root element found"@, Span { start: 0, end: 0, line: 1, column: 1 }, None)
}

/// The document read from XML records: a `<dampen>` wrapper, or a single
/// widget (then version 1.0, no themes, following the system theme).
pub open spec fn spec_parse_records(doc: XmlDocument, src: Seq<char>) -> Result<SpecDocument, SpecParseError> {
    match first_top_level(doc, 1) {
        None => Err(no_root_error()),
        Some(j) => if doc.nodes@[j].name@ == "dampen"@ {
            spec_parse_dampen(doc, src, j)
        } else {
            match spec_parse_node(doc, src, j) {
                Err(e) => Err(e),
                Ok(n) => Ok(SpecDocument {
                    version: SchemaVersion { major: 1, minor: 0 },
                    root: n,
                    themes: Seq::empty(),
                    style_classes: Seq::empty(),
                    global_theme: None,
                    follow_system: true,
                }),
            }
        },
    }
}

/// The document in XML records read from `source`.
pub fn parse_records(doc: &XmlDocument, source: &str) -> (res: Result<DampenDocument, ParseError>)
    requires
        doc_fits(*doc, source@),
    ensures
        match spec_parse_records(*doc, source@) {
            Ok(d) => res matches Ok(x) && x@ == d,
            Err(e) => res matches Err(x) && x@ == e,
        },
{
    if doc.nodes.len() == 0 {
        return Err(ParseError::new(ParseErrorKind::XmlSyntax, to_owned_string("No root element found"), Span::new(0, 0, 1, 1), None));
    }
    let mut j: usize = 1;
    while j < doc.nodes.len()
        invariant
            1 <= j <= doc.nodes@.len(),
            first_top_level(*doc, 1) == first_top_level(*doc, j as int),
        ensures
            1 <= j <= doc.nodes@.len(),
            first_top_level(*doc, 1) == first_top_level(*doc, j as int),
            j < doc.nodes@.len() ==> doc.nodes@[j as int].parent == Some(0usize),
        decreases doc.nodes.len() - j,
    {
        if doc.nodes[j].parent == Some(0usize) {
            break;
        }
        j = j + 1;
    }
    if j >= doc.nodes.len() {
        return Err(ParseError::new(ParseErrorKind::XmlSyntax, to_owned_string("No root element found"), Span::new(0, 0, 1, 1), None));
    }
    if str_eq(doc.nodes[j].name.as_str(), "dampen") {
        return parse_dampen_document(doc, source, j);
    }
    let root = match parse_node(doc, source, j) {
        Ok(n) => n,
        Err(e) => {
            return Err(e);
        },
    };
    let d = DampenDocument {
        version: SchemaVersion { major: 1, minor: 0 },
        root,
        themes: Vec::new(),
        style_classes: Vec::new(),
        global_theme: None,
        follow_system: true,
    };
    assert(d@.themes =~= Seq::<Seq<char>>::empty());
    Ok(d)
}

pub open spec fn too_large_error() -> SpecParseError {
    perr(
        ParseErrorKind::XmlSyntax,
        "Document too large: line or column numbers do not fit"@,
        Span { start: 0, end: 0, line: 1, column: 1 },
        None,
    )
}

/// Parses markup into a document.
///
/// Malformed XML is reported with the reader's message. A document in which
/// a line number or column would not fit `u32` (or a byte offset `usize`)
/// is refused with `too_large_error`.
pub fn parse(xml: &str) -> (res: Result<DampenDocument, ParseError>)
    ensures
        match xml_document(xml@) {
            Err(m) => res matches Err(x) && x@ == perr(ParseErrorKind::XmlSyntax, m, Span { start: 0, end: 0, line: 1, column: 1 }, None),
            Ok(doc) => if !doc_fits(doc, xml@) {
                res matches Err(x) && x@ == too_large_error()
            } else {
                match spec_parse_records(doc, xml@) {
                    Ok(d) => res matches Ok(x) && x@ == d,
                    Err(e) => res matches Err(x) && x@ == e,
                }
            },
        },
{
    let doc = match read_xml(xml) {
        Ok(d) => d,
        Err(m) => {
            return Err(ParseError::new(ParseErrorKind::XmlSyntax, m, Span::new(0, 0, 1, 1), None));
        },
    };
    if !document_fits(&doc, xml) {
        return Err(ParseError::new(
            ParseErrorKind::XmlSyntax,
            to_owned_string("Document too large: line or column numbers do not fit"),
            Span::new(0, 0, 1, 1),
            None,
        ));
    }
    parse_records(&doc, xml)
}

/// Warnings for widgets that need a newer schema version than the document declares.
pub fn validate_widget_versions(document: &DampenDocument) -> (res: Vec<ValidationWarning>)
    ensures
        res@ == tree_warnings(document.root@, document.version).map_values(
            |w: (crate::ir::node::WidgetKind, Span)| warning_of(w, document.version),
        ),
{
    validate_widget_tree_versions(&document.root, document.version)
}

} // verus!
