//! Schema versions: parsing the `version` attribute and checking widgets against it.

use crate::ir::node::{node_view, spec_minimum_version, widget_kind_tag, SpecNode, WidgetKind, WidgetNode};
use crate::ir::{SchemaVersion, Span};
use crate::parser::error::{perr, ParseError, ParseErrorKind, SpecParseError};
use crate::text::{
    all_ascii_digits, digit_char, digits_value, first_non_ws_from, is_ascii_digit_spec,
    last_non_ws_before, push_str, spec_decimal, spec_parse_u16, spec_trim, str_chars, string_from_chars, to_owned_string,
    trim_str, u64_to_decimal,
};
use vstd::prelude::*;

verus! {

/// The newest schema version this library reads.
pub open spec fn max_supported_version() -> SchemaVersion {
    SchemaVersion { major: 1, minor: 1 }
}

/// The newest schema version this library reads.
pub fn max_supported() -> (res: SchemaVersion)
    ensures
        res == max_supported_version(),
{
    SchemaVersion { major: 1, minor: 1 }
}

pub open spec fn dec16(n: u16) -> Seq<char> {
    spec_decimal(n as nat)
}

/// `major.minor` in decimal.
pub open spec fn version_text(v: SchemaVersion) -> Seq<char> {
    dec16(v.major) + "."@ + dec16(v.minor)
}

fn version_string(v: SchemaVersion) -> (res: String)
    ensures
        res@ == version_text(v),
{
    let mut s = u64_to_decimal(v.major as u64);
    push_str(&mut s, ".");
    let m = u64_to_decimal(v.minor as u64);
    push_str(&mut s, m.as_str());
    s
}

// ---------------------------------------------------------------------------
// Parsing the version attribute
// ---------------------------------------------------------------------------

/// Number of occurrences of `c` in `s`.
pub open spec fn count_char(s: Seq<char>, c: char) -> nat
    decreases s.len(),
{
    if s.len() == 0 {
        0
    } else {
        count_char(s.drop_last(), c) + if s.last() == c {
            1nat
        } else {
            0nat
        }
    }
}

/// Position of the first `c` in `s`, or `s.len()`.
pub open spec fn first_index(s: Seq<char>, c: char) -> int
    decreases s.len(),
{
    if s.len() == 0 {
        0
    } else if s[0] == c {
        0
    } else {
        1 + first_index(s.drop_first(), c)
    }
}

pub open spec fn version_suggestion() -> Seq<char> {
    "Use format: version=\"1.0\""@
}

pub open spec fn version_format_error(t: Seq<char>, span: Span) -> SpecParseError {
    perr(
        ParseErrorKind::InvalidValue,
        "Invalid version format '"@ + t + "'. Expected 'major.minor' (e.g., '1.0')"@,
        span,
        Some(version_suggestion()),
    )
}

/// `major.minor` after trimming, each part a `u16`.
pub open spec fn spec_parse_version(s: Seq<char>, span: Span) -> Result<SchemaVersion, SpecParseError> {
    let t = spec_trim(s);
    if t.len() == 0 {
        Err(
            perr(
                ParseErrorKind::InvalidValue,
                "Version attribute cannot be empty"@,
                span,
                Some(version_suggestion()),
            ),
        )
    } else if count_char(t, '.') != 1 {
        Err(version_format_error(t, span))
    } else {
        let d = first_index(t, '.');
        match (spec_parse_u16(t.subrange(0, d)), spec_parse_u16(t.subrange(d + 1, t.len() as int))) {
            (Some(major), Some(minor)) => Ok(SchemaVersion { major, minor }),
            _ => Err(version_format_error(t, span)),
        }
    }
}

/// The decimal form of a number is a non-empty string of digits that reads
/// back as the number.
proof fn lemma_decimal_reads_back(n: nat)
    ensures
        spec_decimal(n).len() > 0,
        all_ascii_digits(spec_decimal(n)),
        digits_value(spec_decimal(n)) == n,
    decreases n,
{
    let k = n % 10;
    assert((digit_char(k) as u32) == k + 48);
    if n >= 10 {
        lemma_decimal_reads_back(n / 10);
        let d = spec_decimal(n / 10);
        let e = spec_decimal(n);
        assert(e == d.push(digit_char(k)));
        assert(e.drop_last() =~= d);
        assert(forall|i: int| 0 <= i < d.len() ==> e[i] == d[i]);
        assert(e.last() == digit_char(k));
        assert(n == (n / 10) * 10 + k);
        assert(digits_value(e) == digits_value(e.drop_last()) * 10 + ((e.last() as u32) - 48) as nat);
        assert(digits_value(e) == digits_value(d) * 10 + k);
    } else {
        let e = spec_decimal(n);
        assert(e.drop_last() =~= Seq::<char>::empty());
        assert(e.last() == digit_char(n));
        assert(k == n);
        assert(digits_value(e.drop_last()) == 0);
        assert(digits_value(e) == digits_value(e.drop_last()) * 10 + ((e.last() as u32) - 48) as nat);
    }
}

/// A string of digits has no `c` that is not a digit.
proof fn lemma_digits_count(s: Seq<char>, c: char)
    requires
        all_ascii_digits(s),
        !is_ascii_digit_spec(c),
    ensures
        count_char(s, c) == 0,
    decreases s.len(),
{
    if s.len() > 0 {
        assert(s.drop_last().len() < s.len());
        assert(all_ascii_digits(s.drop_last())) by {
            assert forall|i: int| 0 <= i < s.drop_last().len() implies is_ascii_digit_spec(#[trigger] s.drop_last()[i]) by {
                assert(s.drop_last()[i] == s[i]);
            }
        }
        lemma_digits_count(s.drop_last(), c);
        assert(is_ascii_digit_spec(s[s.len() - 1]));
    }
}

proof fn lemma_count_concat(a: Seq<char>, b: Seq<char>, c: char)
    ensures
        count_char(a + b, c) == count_char(a, c) + count_char(b, c),
    decreases b.len(),
{
    if b.len() == 0 {
        assert(a + b =~= a);
    } else {
        assert((a + b).drop_last() =~= a + b.drop_last());
        lemma_count_concat(a, b.drop_last(), c);
    }
}

proof fn lemma_first_index_digits(a: Seq<char>, b: Seq<char>, c: char)
    requires
        all_ascii_digits(a),
        !is_ascii_digit_spec(c),
    ensures
        first_index(a + seq![c] + b, c) == a.len(),
    decreases a.len(),
{
    let t = a + seq![c] + b;
    if a.len() == 0 {
        assert(t[0] == c);
    } else {
        assert(t[0] == a[0]);
        assert(is_ascii_digit_spec(a[0]));
        assert(t.drop_first() =~= a.drop_first() + seq![c] + b);
        assert(all_ascii_digits(a.drop_first())) by {
            assert forall|i: int| 0 <= i < a.drop_first().len() implies is_ascii_digit_spec(#[trigger] a.drop_first()[i]) by {
                assert(a.drop_first()[i] == a[i + 1]);
            }
        }
        lemma_first_index_digits(a.drop_first(), b, c);
    }
}

/// Printing a version as `major.minor` and reading it back gives the version.
pub proof fn lemma_version_round_trip(v: SchemaVersion, span: Span)
    ensures
        spec_parse_version(spec_decimal(v.major as nat) + "."@ + spec_decimal(v.minor as nat), span)
            == Ok::<SchemaVersion, SpecParseError>(v),
{
    reveal_strlit(".");
    let a = spec_decimal(v.major as nat);
    let b = spec_decimal(v.minor as nat);
    lemma_decimal_reads_back(v.major as nat);
    lemma_decimal_reads_back(v.minor as nat);
    let t = a + "."@ + b;
    assert("."@ =~= seq!['.']);
    assert(t.len() == a.len() + 1 + b.len());
    assert(t[0] == a[0]);
    assert(is_ascii_digit_spec(a[0]));
    assert(t[t.len() - 1] == b[b.len() - 1]);
    assert(is_ascii_digit_spec(b[b.len() - 1]));
    assert(first_non_ws_from(t, 0) == 0);
    assert(last_non_ws_before(t, t.len() as int) == t.len());
    assert(spec_trim(t) =~= t);
    lemma_digits_count(a, '.');
    lemma_digits_count(b, '.');
    lemma_count_concat(a, seq!['.'], '.');
    lemma_count_concat(a + seq!['.'], b, '.');
    assert(count_char(seq!['.'], '.') == 1) by {
        let one = seq!['.'];
        assert(one.drop_last() =~= Seq::<char>::empty());
        assert(one.last() == '.');
        assert(count_char(one, '.') == count_char(one.drop_last(), '.') + 1);
    }
    lemma_first_index_digits(a, b, '.');
    assert(t.subrange(0, a.len() as int) =~= a);
    assert(t.subrange(a.len() as int + 1, t.len() as int) =~= b);
    assert(spec_parse_u16(a) == Some(v.major));
    assert(spec_parse_u16(b) == Some(v.minor));
}

pub(crate) proof fn lemma_first_index(s: Seq<char>, c: char, k: int)
    requires
        0 <= k <= s.len(),
        forall|j: int| 0 <= j < k ==> s[j] != c,
        k < s.len() ==> s[k] == c,
    ensures
        first_index(s, c) == k,
    decreases s.len(),
{
    if s.len() > 0 && k > 0 {
        assert(s[0] != c);
        lemma_first_index(s.drop_first(), c, k - 1);
    }
}

proof fn lemma_count_prefix(s: Seq<char>, c: char, k: int)
    requires
        0 <= k < s.len(),
    ensures
        count_char(s.subrange(0, k + 1), c) == count_char(s.subrange(0, k), c) + if s[k] == c {
            1nat
        } else {
            0nat
        },
{
    assert(s.subrange(0, k + 1).drop_last() =~= s.subrange(0, k));
}

/// Parses a version in `major.minor` form.
pub fn parse_version_string(version_str: &str, span: Span) -> (res: Result<SchemaVersion, ParseError>)
    ensures
        match spec_parse_version(version_str@, span) {
            Ok(v) => res == Ok::<SchemaVersion, ParseError>(v),
            Err(e) => res matches Err(r) && r@ == e,
        },
{
    let trimmed = trim_str(version_str);
    let t = str_chars(trimmed.as_str());
    if t.len() == 0 {
        return Err(
            ParseError::new(
                ParseErrorKind::InvalidValue,
                to_owned_string("Version attribute cannot be empty"),
                span,
                Some(to_owned_string("Use format: version=\"1.0\"")),
            ),
        );
    }
    let mut dots: usize = 0;
    let mut first: usize = t.len();
    let mut i: usize = 0;
    while i < t.len()
        invariant
            i <= t.len(),
            dots == count_char(t@.subrange(0, i as int), '.'),
            dots <= i,
            first <= t.len(),
            dots == 0 ==> first == t.len(),
            dots > 0 ==> first < i && t@[first as int] == '.',
            forall|j: int| 0 <= j < i && j < first ==> t@[j] != '.',
        decreases t.len() - i,
    {
        proof {
            lemma_count_prefix(t@, '.', i as int);
        }
        if t[i] == '.' {
            if dots == 0 {
                first = i;
            }
            dots = dots + 1;
        }
        i = i + 1;
    }
    assert(t@.subrange(0, t@.len() as int) =~= t@);
    let format_error = {
        let mut m = to_owned_string("Invalid version format '");
        push_str(&mut m, trimmed.as_str());
        push_str(&mut m, "'. Expected 'major.minor' (e.g., '1.0')");
        ParseError::new(ParseErrorKind::InvalidValue, m, span, Some(to_owned_string("Use format: version=\"1.0\"")))
    };
    if dots != 1 {
        return Err(format_error);
    }
    proof {
        lemma_first_index(t@, '.', first as int);
    }
    let major_part = string_from_chars(&t.as_slice()[0..first]);
    let minor_part = string_from_chars(&t.as_slice()[first + 1..t.len()]);
    assert(major_part@ =~= t@.subrange(0, first as int));
    assert(minor_part@ =~= t@.subrange(first + 1, t@.len() as int));
    let major = crate::text::parse_u16(major_part.as_str());
    let minor = crate::text::parse_u16(minor_part.as_str());
    match (major, minor) {
        (Some(a), Some(b)) => Ok(SchemaVersion { major: a, minor: b }),
        _ => Err(format_error),
    }
}

/// The error for a document version newer than this library reads.
pub open spec fn unsupported_version_error(v: SchemaVersion, span: Span) -> SpecParseError {
    perr(
        ParseErrorKind::UnsupportedVersion,
        "Schema version "@ + version_text(v) + " is not supported. Maximum supported version: "@
            + version_text(max_supported_version()),
        span,
        Some(
            "Upgrade dampen-core to support v"@ + version_text(v) + ", or use version=\""@
                + version_text(max_supported_version()) + "\""@,
        ),
    )
}

/// Accepts versions up to the newest this library reads.
pub fn validate_version_supported(version: &SchemaVersion, span: Span) -> (res: Result<(), ParseError>)
    ensures
        version.spec_newer_than(max_supported_version()) <==> res is Err,
        res matches Err(e) ==> e@ == unsupported_version_error(*version, span),
{
    let max = max_supported();
    if version.newer_than(&max) {
        let v = version_string(*version);
        let mx = version_string(max);
        let mut msg = to_owned_string("Schema version ");
        push_str(&mut msg, v.as_str());
        push_str(&mut msg, " is not supported. Maximum supported version: ");
        push_str(&mut msg, mx.as_str());
        let mut sug = to_owned_string("Upgrade dampen-core to support v");
        push_str(&mut sug, v.as_str());
        push_str(&mut sug, ", or use version=\"");
        push_str(&mut sug, mx.as_str());
        push_str(&mut sug, "\"");
        return Err(ParseError::new(ParseErrorKind::UnsupportedVersion, msg, span, Some(sug)));
    }
    Ok(())
}

// ---------------------------------------------------------------------------
// Widgets newer than the declared version
// ---------------------------------------------------------------------------

/// A widget that needs a newer schema version than its document declares.
#[derive(Debug, Clone, PartialEq)]
pub struct ValidationWarning {
    pub widget_kind: WidgetKind,
    pub declared_version: SchemaVersion,
    pub required_version: SchemaVersion,
    pub span: Span,
}

pub open spec fn warning_message(kind: WidgetKind, declared: SchemaVersion, required: SchemaVersion) -> Seq<char> {
    "Widget '"@ + widget_kind_tag(kind) + "' requires schema v"@ + version_text(required)
        + " but document declares v"@ + version_text(declared)
}

pub open spec fn warning_suggestion(required: SchemaVersion) -> Seq<char> {
    "Update to <dampen version=\""@ + version_text(required) + "\"> or remove this widget"@
}

/// The tag name of a widget kind (its own name for a custom widget).
fn widget_kind_name(kind: &WidgetKind) -> (res: String)
    ensures
        res@ == widget_kind_tag(*kind),
{
    let s: &str = match kind {
        WidgetKind::Column => "column",
        WidgetKind::Row => "row",
        WidgetKind::Container => "container",
        WidgetKind::Scrollable => "scrollable",
        WidgetKind::Stack => "stack",
        WidgetKind::Text => "text",
        WidgetKind::Image => "image",
        WidgetKind::Svg => "svg",
        WidgetKind::Button => "button",
        WidgetKind::TextInput => "text_input",
        WidgetKind::Checkbox => "checkbox",
        WidgetKind::Slider => "slider",
        WidgetKind::PickList => "pick_list",
        WidgetKind::Toggler => "toggler",
        WidgetKind::Space => "space",
        WidgetKind::Rule => "rule",
        WidgetKind::Radio => "radio",
        WidgetKind::ComboBox => "combobox",
        WidgetKind::ProgressBar => "progress_bar",
        WidgetKind::Tooltip => "tooltip",
        WidgetKind::Grid => "grid",
        WidgetKind::Canvas => "canvas",
        WidgetKind::Float => "float",
        WidgetKind::For => "for",
        WidgetKind::If => "if",
        WidgetKind::CanvasRect => "rect",
        WidgetKind::CanvasCircle => "circle",
        WidgetKind::CanvasLine => "line",
        WidgetKind::CanvasText => "canvas_text",
        WidgetKind::CanvasGroup => "group",
        WidgetKind::Custom(name) => {
            return name.clone();
        },
    };
    to_owned_string(s)
}

fn warning_text(kind: &WidgetKind, declared: SchemaVersion, required: SchemaVersion) -> (res: String)
    ensures
        res@ == warning_message(*kind, declared, required),
{
    let name = widget_kind_name(kind);
    let r = version_string(required);
    let d = version_string(declared);
    let mut m = to_owned_string("Widget '");
    push_str(&mut m, name.as_str());
    push_str(&mut m, "' requires schema v");
    push_str(&mut m, r.as_str());
    push_str(&mut m, " but document declares v");
    push_str(&mut m, d.as_str());
    m
}

fn suggestion_text(required: SchemaVersion) -> (res: String)
    ensures
        res@ == warning_suggestion(required),
{
    let r = version_string(required);
    let mut m = to_owned_string("Update to <dampen version=\"");
    push_str(&mut m, r.as_str());
    push_str(&mut m, "\"> or remove this widget");
    m
}

impl ValidationWarning {
    /// The warning as a sentence.
    pub fn format_message(&self) -> (res: String)
        ensures
            res@ == warning_message(self.widget_kind, self.declared_version, self.required_version),
    {
        warning_text(&self.widget_kind, self.declared_version, self.required_version)
    }

    /// How to resolve the warning.
    pub fn suggestion(&self) -> (res: String)
        ensures
            res@ == warning_suggestion(self.required_version),
    {
        suggestion_text(self.required_version)
    }
}

/// The widgets of a tree, in pre-order, that need a newer version than `v`:
/// each with its kind and span.
pub open spec fn tree_warnings(n: SpecNode, v: SchemaVersion) -> Seq<(WidgetKind, Span)>
    decreases n, 1nat,
{
    (if spec_minimum_version(n.kind).spec_newer_than(v) {
        seq![(n.kind, n.span)]
    } else {
        Seq::empty()
    }) + forest_warnings(n.children, v, n.children.len() as int)
}

/// The warnings of the first `k` trees of `cs`, in order.
pub open spec fn forest_warnings(cs: Seq<SpecNode>, v: SchemaVersion, k: int) -> Seq<(WidgetKind, Span)>
    decreases cs, 0nat, k,
{
    if k <= 0 || k > cs.len() {
        Seq::empty()
    } else {
        forest_warnings(cs, v, k - 1) + {
            proof {
                assert(decreases_to!(cs => cs[k - 1]));
            }
            tree_warnings(cs[k - 1], v)
        }
    }
}

pub open spec fn warning_of(w: (WidgetKind, Span), declared: SchemaVersion) -> ValidationWarning {
    ValidationWarning {
        widget_kind: w.0,
        declared_version: declared,
        required_version: spec_minimum_version(w.0),
        span: w.1,
    }
}

#[verifier::loop_isolation(false)]
fn collect_warnings(node: &WidgetNode, doc_version: SchemaVersion, warnings: &mut Vec<ValidationWarning>)
    ensures
        final(warnings)@ == old(warnings)@ + tree_warnings(node@, doc_version).map_values(
            |w: (WidgetKind, Span)| warning_of(w, doc_version),
        ),
    decreases node,
{
    let ghost start = warnings@;
    let min_version = node.kind.minimum_version();
    if min_version.newer_than(&doc_version) {
        warnings.push(
            ValidationWarning {
                widget_kind: node.kind.duplicate(),
                declared_version: doc_version,
                required_version: min_version,
                span: node.span,
            },
        );
    }
    let ghost head = warnings@;
    let mut i: usize = 0;
    while i < node.children.len()
        invariant
            i <= node.children@.len(),
            warnings@ == head + forest_warnings(node@.children, doc_version, i as int).map_values(
                |w: (WidgetKind, Span)| warning_of(w, doc_version),
            ),
        decreases node.children.len() - i,
    {
        proof {
            assert(decreases_to!(node.children => node.children@));
            assert(decreases_to!(node.children@ => node.children@[i as int]));
        }
        let ghost before = warnings@;
        assert(node@.children[i as int] == node.children@[i as int]@);
        collect_warnings(&node.children[i], doc_version, warnings);
        assert(forest_warnings(node@.children, doc_version, i + 1) == forest_warnings(node@.children, doc_version, i as int) + tree_warnings(node@.children[i as int], doc_version));
        assert(warnings@ =~= head + forest_warnings(node@.children, doc_version, i + 1).map_values(
            |w: (WidgetKind, Span)| warning_of(w, doc_version),
        ));
        i = i + 1;
    }
    assert(warnings@ =~= start + tree_warnings(node@, doc_version).map_values(
        |w: (WidgetKind, Span)| warning_of(w, doc_version),
    ));
}

/// Warnings for the widgets of `root` that need a newer version than `version`, in pre-order.
pub fn validate_widget_tree_versions(root: &WidgetNode, version: SchemaVersion) -> (res: Vec<ValidationWarning>)
    ensures
        res@ == tree_warnings(root@, version).map_values(|w: (WidgetKind, Span)| warning_of(w, version)),
{
    let mut warnings: Vec<ValidationWarning> = Vec::new();
    collect_warnings(root, version, &mut warnings);
    assert(warnings@ =~= tree_warnings(root@, version).map_values(|w: (WidgetKind, Span)| warning_of(w, version)));
    warnings
}

/// The error for the first widget in pre-order that needs a newer version.
pub open spec fn strict_version_error(w: (WidgetKind, Span), declared: SchemaVersion) -> SpecParseError {
    perr(
        ParseErrorKind::UnsupportedVersion,
        warning_message(w.0, declared, spec_minimum_version(w.0)),
        w.1,
        Some(warning_suggestion(spec_minimum_version(w.0))),
    )
}

/// Rejects the tree when a widget needs a newer version than `doc_version`;
/// the error is for the first such widget in pre-order.
#[verifier::loop_isolation(false)]
pub fn validate_widget_versions_strict(node: &WidgetNode, doc_version: SchemaVersion) -> (res: Result<(), ParseError>)
    ensures
        res is Ok <==> tree_warnings(node@, doc_version).len() == 0,
        res matches Err(e) ==> e@ == strict_version_error(tree_warnings(node@, doc_version)[0], doc_version),
    decreases node,
{
    let min_version = node.kind.minimum_version();
    if min_version.newer_than(&doc_version) {
        let m = warning_text(&node.kind, doc_version, min_version);
        let s = suggestion_text(min_version);
        return Err(ParseError::new(ParseErrorKind::UnsupportedVersion, m, node.span, Some(s)));
    }
    let mut i: usize = 0;
    while i < node.children.len()
        invariant
            i <= node.children@.len(),
            !spec_minimum_version(node.kind).spec_newer_than(doc_version),
            forest_warnings(node@.children, doc_version, i as int).len() == 0,
        decreases node.children.len() - i,
    {
        proof {
            assert(decreases_to!(node.children => node.children@));
            assert(decreases_to!(node.children@ => node.children@[i as int]));
        }
        assert(node@.children[i as int] == node.children@[i as int]@);
        let r = validate_widget_versions_strict(&node.children[i], doc_version);
        assert(forest_warnings(node@.children, doc_version, i + 1) == forest_warnings(node@.children, doc_version, i as int) + tree_warnings(node@.children[i as int], doc_version));
        match r {
            Err(e) => {
                assert(tree_warnings(node@, doc_version) =~= forest_warnings(node@.children, doc_version, node.children@.len() as int));
                proof {
                    lemma_forest_prefix(node@.children, doc_version, i + 1, node.children@.len() as int);
                    assert(forest_warnings(node@.children, doc_version, i + 1)[0] == tree_warnings(node@.children[i as int], doc_version)[0]);
                }
                return Err(e);
            },
            Ok(()) => {},
        }
        i = i + 1;
    }
    assert(tree_warnings(node@, doc_version) =~= forest_warnings(node@.children, doc_version, node.children@.len() as int));
    Ok(())
}

/// The warnings of fewer trees are a prefix of those of more.
proof fn lemma_forest_prefix(cs: Seq<SpecNode>, v: SchemaVersion, a: int, b: int)
    requires
        0 <= a <= b <= cs.len(),
    ensures
        forest_warnings(cs, v, a).len() <= forest_warnings(cs, v, b).len(),
        forall|j: int| 0 <= j < forest_warnings(cs, v, a).len() ==> forest_warnings(cs, v, b)[j]
            == forest_warnings(cs, v, a)[j],
    decreases b - a,
{
    if a < b {
        lemma_forest_prefix(cs, v, a, b - 1);
    }
}

} // verus!
