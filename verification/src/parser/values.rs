//! Attribute values: static text, bindings and interpolations; lists; source positions.

use crate::expr::tokenizer::{render_error, spec_tokenize, tokenize_binding_expr};
use crate::ir::node::{parts_view, AttributeValue, InterpolatedPart, SpecAttr, SpecPart};
use crate::ir::Span;
use crate::parser::error::{perr, ParseError, ParseErrorKind, SpecParseError};
use crate::parser::version::first_index;
use crate::ir::theme::join_with;
use crate::text::{
    char_len_utf8, keyword_of, push_str, spec_keyword, spec_to_lowercase, spec_trim, str_chars,
    str_eq, str_to_lowercase, string_from_chars, to_owned_string, trim_chars, utf8_len,
    utf8_prefix_len,
};
use vstd::prelude::*;

verus! {

// ---------------------------------------------------------------------------
// UTF-8 offsets of slices
// ---------------------------------------------------------------------------

pub proof fn lemma_utf8_prefix_mono(s: Seq<char>, a: int, b: int)
    requires
        0 <= a <= b <= s.len(),
    ensures
        utf8_prefix_len(s, a) <= utf8_prefix_len(s, b),
    decreases b - a,
{
    if a < b {
        lemma_utf8_prefix_mono(s, a, b - 1);
    }
}

/// Byte offsets within a suffix are differences of byte offsets in the whole.
pub proof fn lemma_utf8_suffix(s: Seq<char>, i: int, k: int)
    requires
        0 <= i <= s.len(),
        0 <= k <= s.len() - i,
    ensures
        utf8_prefix_len(s.subrange(i, s.len() as int), k) + utf8_prefix_len(s, i) == utf8_prefix_len(s, i + k),
    decreases k,
{
    if k > 0 {
        lemma_utf8_suffix(s, i, k - 1);
        assert(s.subrange(i, s.len() as int)[k - 1] == s[i + k - 1]);
    }
}

/// Byte offsets within a prefix are those of the whole.
pub proof fn lemma_utf8_prefix_of_prefix(s: Seq<char>, j: int, k: int)
    requires
        0 <= k <= j <= s.len(),
    ensures
        utf8_prefix_len(s.subrange(0, j), k) == utf8_prefix_len(s, k),
    decreases k,
{
    if k > 0 {
        lemma_utf8_prefix_of_prefix(s, j, k - 1);
    }
}

/// Byte length of the first `n` characters of `s`.
pub fn prefix_bytes(s: &[char], n: usize) -> (res: u128)
    requires
        n <= s@.len(),
    ensures
        res == utf8_prefix_len(s@, n as int),
{
    let mut i: usize = 0;
    let mut acc: u128 = 0;
    while i < n
        invariant
            i <= n <= s@.len(),
            acc == utf8_prefix_len(s@, i as int),
        decreases n - i,
    {
        proof {
            crate::text::lemma_utf8_prefix_len_bound(s@, i as int);
        }
        acc = acc + char_len_utf8(s[i]) as u128;
        i = i + 1;
    }
    acc
}

// ---------------------------------------------------------------------------
// Line and column of a byte offset
// ---------------------------------------------------------------------------

/// Line and column after reading `t`, starting at line 1, column 1.
pub open spec fn line_col(t: Seq<char>) -> (nat, nat)
    decreases t.len(),
{
    if t.len() == 0 {
        (1, 1)
    } else {
        let (l, c) = line_col(t.drop_last());
        if t.last() == '\n' {
            (l + 1, 1)
        } else {
            (l, c + 1)
        }
    }
}

/// Number of characters that start before byte `offset`.
pub open spec fn chars_before(s: Seq<char>, offset: int, k: int) -> int
    decreases s.len() - k,
{
    if k < 0 || k >= s.len() || utf8_prefix_len(s, k) >= offset {
        k
    } else {
        chars_before(s, offset, k + 1)
    }
}

/// The 1-based line and column of byte `offset` in `s`.
pub open spec fn spec_line_col(s: Seq<char>, offset: int) -> (nat, nat) {
    line_col(s.subrange(0, chars_before(s, offset, 0)))
}

pub proof fn lemma_line_col_bound(t: Seq<char>)
    ensures
        line_col(t).0 <= t.len() + 1,
        line_col(t).1 <= t.len() + 1,
    decreases t.len(),
{
    if t.len() > 0 {
        lemma_line_col_bound(t.drop_last());
    }
}

/// Lines and columns count from 1.
pub proof fn lemma_line_col_positive(t: Seq<char>)
    ensures
        line_col(t).0 >= 1,
        line_col(t).1 >= 1,
    decreases t.len(),
{
    if t.len() > 0 {
        lemma_line_col_positive(t.drop_last());
    }
}

pub proof fn lemma_chars_before_bounds(s: Seq<char>, offset: int, k: int)
    requires
        0 <= k <= s.len(),
    ensures
        k <= chars_before(s, offset, k) <= s.len(),
    decreases s.len() - k,
{
    if k < s.len() && utf8_prefix_len(s, k) < offset {
        lemma_chars_before_bounds(s, offset, k + 1);
    }
}

/// Every line and column counted on the way to byte `offset` of `s` fits `u32`.
pub open spec fn line_col_fits(s: Seq<char>, offset: int) -> bool {
    forall|k: int|
        0 <= k <= chars_before(s, offset, 0) ==> (#[trigger] line_col(s.subrange(0, k))).0 <= u32::MAX
            && line_col(s.subrange(0, k)).1 <= u32::MAX
}

/// Line and column (both from 1) of a byte offset in `source`.
pub fn calculate_line_col(source: &str, offset: usize) -> (res: (u32, u32))
    requires
        line_col_fits(source@, offset as int),
    ensures
        res.0 == spec_line_col(source@, offset as int).0,
        res.1 == spec_line_col(source@, offset as int).1,
{
    let s = str_chars(source);
    let mut line: u32 = 1;
    let mut col: u32 = 1;
    let mut k: usize = 0;
    let mut bytes: u128 = 0;
    proof {
        lemma_chars_before_bounds(s@, offset as int, 0);
    }
    while k < s.len() && bytes < offset as u128
        invariant
            k <= s@.len(),
            s@ == source@,
            line_col_fits(source@, offset as int),
            bytes == utf8_prefix_len(s@, k as int),
            k <= chars_before(s@, offset as int, 0),
            chars_before(s@, offset as int, 0) == chars_before(s@, offset as int, k as int),
            line_col(s@.subrange(0, k as int)) == (line as nat, col as nat),
        decreases s.len() - k,
    {
        proof {
            crate::text::lemma_utf8_prefix_len_bound(s@, k as int);
            lemma_chars_before_bounds(s@, offset as int, k + 1);
            assert(s@.subrange(0, k + 1).drop_last() =~= s@.subrange(0, k as int));
            assert(line_col(s@.subrange(0, k + 1)).0 <= u32::MAX);
        }
        if s[k] == '\n' {
            line = line + 1;
            col = 1;
        } else {
            col = col + 1;
        }
        bytes = bytes + char_len_utf8(s[k]) as u128;
        k = k + 1;
    }
    (line, col)
}

/// Line and column of a byte offset in `source`, or `None` when a count on
/// the way does not fit `u32`.
pub fn checked_line_col(source: &str, offset: usize) -> (res: Option<(u32, u32)>)
    ensures
        match res {
            Some(p) => line_col_fits(source@, offset as int) && p.0 == spec_line_col(source@, offset as int).0
                && p.1 == spec_line_col(source@, offset as int).1,
            None => !line_col_fits(source@, offset as int),
        },
{
    let s = str_chars(source);
    let mut line: u128 = 1;
    let mut col: u128 = 1;
    let mut k: usize = 0;
    let mut bytes: u128 = 0;
    proof {
        lemma_chars_before_bounds(s@, offset as int, 0);
    }
    while k < s.len() && bytes < offset as u128
        invariant
            k <= s@.len(),
            s@ == source@,
            bytes == utf8_prefix_len(s@, k as int),
            k <= chars_before(s@, offset as int, 0),
            chars_before(s@, offset as int, 0) == chars_before(s@, offset as int, k as int),
            line_col(s@.subrange(0, k as int)) == (line as nat, col as nat),
            line <= u32::MAX && col <= u32::MAX,
            forall|j: int| 0 <= j <= k ==> (#[trigger] line_col(s@.subrange(0, j))).0 <= u32::MAX
                && line_col(s@.subrange(0, j)).1 <= u32::MAX,
        decreases s.len() - k,
    {
        proof {
            crate::text::lemma_utf8_prefix_len_bound(s@, k as int);
            lemma_chars_before_bounds(s@, offset as int, k + 1);
            assert(s@.subrange(0, k + 1).drop_last() =~= s@.subrange(0, k as int));
        }
        if s[k] == '\n' {
            line = line + 1;
            col = 1;
        } else {
            col = col + 1;
        }
        if line > 4294967295 || col > 4294967295 {
            proof {
                assert(!(line_col(s@.subrange(0, k + 1)).0 <= u32::MAX && line_col(s@.subrange(0, k + 1)).1 <= u32::MAX));
            }
            return None;
        }
        bytes = bytes + char_len_utf8(s[k]) as u128;
        k = k + 1;
    }
    proof {
        assert(k == chars_before(s@, offset as int, 0)) by {
            if k < s@.len() {
                assert(utf8_prefix_len(s@, k as int) >= offset);
            }
        }
    }
    Some((line as u32, col as u32))
}

// ---------------------------------------------------------------------------
// Comma-separated lists
// ---------------------------------------------------------------------------

/// The trimmed, non-empty pieces of `s` between commas.
pub open spec fn comma_items(s: Seq<char>) -> Seq<Seq<char>>
    decreases s.len(),
{
    let k = first_index(s, ',');
    proof {
        lemma_first_index_bounds(s, ',');
    }
    let piece = spec_trim(s.subrange(0, if k <= s.len() { k } else { s.len() as int }));
    let head = if piece.len() > 0 {
        seq![piece]
    } else {
        Seq::empty()
    };
    if k >= s.len() {
        head
    } else {
        head + comma_items(s.subrange(k + 1, s.len() as int))
    }
}

pub proof fn lemma_first_index_bounds(s: Seq<char>, c: char)
    ensures
        0 <= first_index(s, c) <= s.len(),
        first_index(s, c) < s.len() ==> s[first_index(s, c)] == c,
        forall|j: int| 0 <= j < first_index(s, c) ==> s[j] != c,
    decreases s.len(),
{
    if s.len() > 0 && s[0] != c {
        lemma_first_index_bounds(s.drop_first(), c);
        assert forall|j: int| 0 <= j < first_index(s, c) implies s[j] != c by {
            if j > 0 {
                assert(s.drop_first()[j - 1] == s[j]);
            }
        }
    }
}

/// Position of the first `c` in `s[from..]`, relative to `from` (or the length of that suffix).
pub fn find_char(s: &[char], from: usize, c: char) -> (res: usize)
    requires
        from <= s@.len(),
    ensures
        res as int == first_index(s@.subrange(from as int, s@.len() as int), c),
        from + res <= s@.len(),
{
    let ghost t = s@.subrange(from as int, s@.len() as int);
    let mut i: usize = from;
    while i < s.len()
        invariant_except_break
            from <= i <= s@.len(),
            forall|j: int| from <= j < i ==> s@[j] != c,
        ensures
            from <= i <= s@.len(),
            forall|j: int| from <= j < i ==> s@[j] != c,
            i < s@.len() ==> s@[i as int] == c,
        decreases s.len() - i,
    {
        if s[i] == c {
            break;
        }
        i = i + 1;
    }
    proof {
        lemma_first_index_bounds(t, c);
        let r = i - from;
        assert forall|j: int| 0 <= j < r implies t[j] != c by {
            assert(t[j] == s@[from + j]);
        }
        if r < t.len() {
            assert(t[r] == s@[i as int]);
        }
        let f = first_index(t, c);
        if f < r {
            assert(t[f] == c);
        }
        if r < f {
            assert(t[r] != c);
        }
    }
    i - from
}

/// Splits on commas, trims each piece and drops the empty ones.
pub fn parse_comma_separated(value: &str) -> (res: Vec<String>)
    ensures
        res@.map_values(|s: String| s@) == comma_items(value@),
{
    let v = str_chars(value);
    let mut out: Vec<String> = Vec::new();
    let mut i: usize = 0;
    assert(v@.subrange(0, v@.len() as int) =~= v@);
    assert(out@.map_values(|s: String| s@) =~= Seq::<Seq<char>>::empty());
    loop
        invariant_except_break
            i <= v@.len(),
            out@.map_values(|s: String| s@) + comma_items(v@.subrange(i as int, v@.len() as int))
                == comma_items(v@),
        ensures
            out@.map_values(|s: String| s@) == comma_items(v@),
        decreases v@.len() - i,
    {
        let ghost rest = v@.subrange(i as int, v@.len() as int);
        let k = find_char(v.as_slice(), i, ',');
        proof {
            lemma_first_index_bounds(rest, ',');
        }
        let n = v.len();
        assert(i + k <= n);
        let end = i + k;
        let piece = trim_chars(&v.as_slice()[i..end]);
        assert(v@.subrange(i as int, i + k) =~= rest.subrange(0, k as int));
        let ghost before = out@.map_values(|s: String| s@);
        let ghost head = if piece@.len() > 0 { seq![piece@] } else { Seq::<Seq<char>>::empty() };
        if piece.len() > 0 {
            out.push(string_from_chars(piece.as_slice()));
            assert(out@.map_values(|s: String| s@) =~= before.push(piece@));
        } else {
            assert(out@.map_values(|s: String| s@) =~= before);
        }
        assert(out@.map_values(|s: String| s@) =~= before + head);
        if i + k >= v.len() {
            assert(comma_items(rest) == head);
            assert(before + comma_items(rest) == comma_items(v@));
            assert(out@.map_values(|s: String| s@) =~= comma_items(v@));
            break;
        }
        assert(rest.subrange(k + 1, rest.len() as int) =~= v@.subrange(i + k + 1, v@.len() as int));
        assert(comma_items(rest) == head + comma_items(v@.subrange(i + k + 1, v@.len() as int)));
        assert(out@.map_values(|s: String| s@) + comma_items(v@.subrange(i + k + 1, v@.len() as int))
            =~= before + comma_items(rest));
        i = i + k + 1;
    }
    out
}

// ---------------------------------------------------------------------------
// Attribute values
// ---------------------------------------------------------------------------

/// A literal part, when the text is not empty.
pub open spec fn literal_part(s: Seq<char>) -> Seq<SpecPart> {
    if s.len() > 0 {
        seq![SpecPart::Literal(s)]
    } else {
        Seq::empty()
    }
}

pub open spec fn expression_error(m: Seq<char>, span: Span, a: nat, b: nat) -> SpecParseError {
    perr(
        ParseErrorKind::InvalidExpression,
        "Invalid expression: "@ + m,
        Span {
            start: (span.start + a) as usize,
            end: (span.start + b) as usize,
            line: span.line,
            column: (span.column + a) as u32,
        },
        None,
    )
}

/// The parts of `rem`: literal text and `{expression}` bindings. Offsets are
/// bytes from the start of `rem` added to `span`; an unclosed `{` makes the
/// rest of `rem` a literal, which is then listed twice.
pub open spec fn interp_parts(rem: Seq<char>, span: Span) -> Result<Seq<SpecPart>, SpecParseError>
    decreases rem.len(), 1nat,
{
    let sp = first_index(rem, '{');
    if sp >= rem.len() || sp < 0 {
        Ok(literal_part(rem))
    } else {
        let pre = literal_part(rem.subrange(0, sp));
        let after = rem.subrange(sp, rem.len() as int);
        let e = first_index(after, '}');
        if e >= after.len() || e < 0 {
            Ok(pre + seq![SpecPart::Literal(rem), SpecPart::Literal(rem)])
        } else {
            match binding_parts(rem, sp, sp + e, span) {
                Err(err) => Err(err),
                Ok(rest) => Ok(pre + rest),
            }
        }
    }
}

/// The binding `{..}` from `sp` to `ee` in `rem`, then the parts after it.
pub open spec fn binding_parts(rem: Seq<char>, sp: int, ee: int, span: Span) -> Result<Seq<SpecPart>, SpecParseError>
    decreases rem.len(), 0nat,
{
    if 0 <= sp < ee < rem.len() {
        let es = sp + 1;
        let a = utf8_prefix_len(rem, es);
        let b = utf8_prefix_len(rem, ee);
        let x = rem.subrange(es, ee);
        match spec_tokenize(x) {
            Err(err) => Err(expression_error(render_error(x, err), span, a, b)),
            Ok(ex) => match interp_parts(rem.subrange(ee + 1, rem.len() as int), span) {
                Err(err) => Err(err),
                Ok(rest) => Ok(
                    seq![
                        SpecPart::Binding(
                            (
                                ex,
                                Span {
                                    start: (span.start + a) as usize,
                                    end: (span.start + a + utf8_prefix_len(x, x.len() as int)) as usize,
                                    line: span.line,
                                    column: (span.column + a) as u32,
                                },
                            ),
                        ),
                    ] + rest,
                ),
            },
        }
    } else {
        Ok(Seq::empty())
    }
}

/// A value with both `{` and `}` is interpolated: a single binding or a
/// single literal stands alone, several parts are kept as a list.
pub open spec fn spec_attribute_value(v: Seq<char>, span: Span) -> Result<SpecAttr, SpecParseError> {
    if !(v.contains('{') && v.contains('}')) {
        Ok(SpecAttr::Static(v))
    } else {
        match interp_parts(v, span) {
            Err(e) => Err(e),
            Ok(parts) => if parts.len() == 1 {
                match parts[0] {
                    SpecPart::Binding(b) => Ok(SpecAttr::Binding(b)),
                    SpecPart::Literal(l) => Ok(SpecAttr::Static(l)),
                }
            } else {
                Ok(SpecAttr::Interpolated(parts))
            },
        }
    }
}

/// Appends a literal part when the text is not empty.
fn push_literal(parts: &mut Vec<InterpolatedPart>, s: &[char])
    ensures
        parts_view(final(parts)@) == parts_view(old(parts)@) + literal_part(s@),
{
    if s.len() > 0 {
        let ghost before = parts_view(parts@);
        parts.push(InterpolatedPart::Literal(string_from_chars(s)));
        assert(parts_view(parts@) =~= before + literal_part(s@));
    } else {
        assert(parts_view(parts@) =~= parts_view(old(parts)@) + literal_part(s@));
    }
}

/// The parts of `rem`, appended to `parts`.
fn interpolate(rem: &[char], span: Span, parts: &mut Vec<InterpolatedPart>) -> (res: Result<(), ParseError>)
    requires
        span.start + utf8_prefix_len(rem@, rem@.len() as int) <= usize::MAX,
        span.column + utf8_prefix_len(rem@, rem@.len() as int) <= u32::MAX,
    ensures
        match interp_parts(rem@, span) {
            Ok(ps) => res is Ok && parts_view(final(parts)@) == parts_view(old(parts)@) + ps,
            Err(e) => res matches Err(r) && r@ == e,
        },
    decreases rem@.len(), 1nat,
{
    let sp = find_char(rem, 0, '{');
    assert(rem@.subrange(0, rem@.len() as int) =~= rem@);
    proof {
        lemma_first_index_bounds(rem@, '{');
    }
    if sp >= rem.len() {
        push_literal(parts, rem);
        return Ok(());
    }
    let head = &rem[0..sp];
    assert(head@ =~= rem@.subrange(0, sp as int));
    push_literal(parts, head);
    let ghost mid = parts_view(parts@);
    let e = find_char(rem, sp, '}');
    proof {
        lemma_first_index_bounds(rem@.subrange(sp as int, rem@.len() as int), '}');
    }
    if sp + e >= rem.len() {
        parts.push(InterpolatedPart::Literal(string_from_chars(rem)));
        parts.push(InterpolatedPart::Literal(string_from_chars(rem)));
        assert(parts_view(parts@) =~= mid + seq![SpecPart::Literal(rem@), SpecPart::Literal(rem@)]);
        return Ok(());
    }
    let r = interpolate_binding(rem, sp, sp + e, span, parts);
    proof {
        if let Ok(ps) = binding_parts(rem@, sp as int, sp + e, span) {
            assert(parts_view(parts@) =~= parts_view(old(parts)@) + (literal_part(rem@.subrange(0, sp as int)) + ps));
        }
    }
    r
}

/// The binding between the braces at `sp` and `ee`, then the parts after it.
fn interpolate_binding(rem: &[char], sp: usize, ee: usize, span: Span, parts: &mut Vec<InterpolatedPart>) -> (res: Result<(), ParseError>)
    requires
        sp < ee < rem@.len(),
        span.start + utf8_prefix_len(rem@, rem@.len() as int) <= usize::MAX,
        span.column + utf8_prefix_len(rem@, rem@.len() as int) <= u32::MAX,
    ensures
        match binding_parts(rem@, sp as int, ee as int, span) {
            Ok(ps) => res is Ok && parts_view(final(parts)@) == parts_view(old(parts)@) + ps,
            Err(e) => res matches Err(r) && r@ == e,
        },
    decreases rem@.len(), 0nat,
{
    let es = sp + 1;
    let n = rem.len();
    assert(ee < n);
    let next = ee + 1;
    proof {
        lemma_utf8_prefix_mono(rem@, es as int, ee as int);
        lemma_utf8_prefix_mono(rem@, ee as int, rem@.len() as int);
        lemma_utf8_suffix(rem@, es as int, (ee - es) as int);
        lemma_utf8_prefix_of_prefix(rem@.subrange(es as int, rem@.len() as int), (ee - es) as int, (ee - es) as int);
        assert(rem@.subrange(es as int, rem@.len() as int).subrange(0, (ee - es) as int) =~= rem@.subrange(es as int, ee as int));
    }
    let a = prefix_bytes(rem, es);
    let b = prefix_bytes(rem, ee);
    let x = string_from_chars(&rem[es..ee]);
    assert(x@ =~= rem@.subrange(es as int, ee as int));
    match tokenize_binding_expr(x.as_str(), span.start + a as usize, span.line, span.column + a as u32) {
        Err(m) => {
            let mut msg = to_owned_string("Invalid expression: ");
            push_str(&mut msg, m.as_str());
            Err(
                ParseError::new(
                    ParseErrorKind::InvalidExpression,
                    msg,
                    Span::new(span.start + a as usize, span.start + b as usize, span.line, span.column + a as u32),
                    None,
                ),
            )
        },
        Ok(binding) => {
            let ghost bv = binding@;
            let ghost before = parts_view(parts@);
            parts.push(InterpolatedPart::Binding(binding));
            assert(parts_view(parts@) =~= before.push(SpecPart::Binding(bv)));
            proof {
                lemma_utf8_suffix(rem@, ee + 1, rem@.len() - (ee + 1));
                assert(rem@.subrange(ee + 1, rem@.len() as int).subrange(0, rem@.len() - (ee + 1)) =~= rem@.subrange(ee + 1, rem@.len() as int));
            }
            let tail = &rem[next..n];
            assert(tail@ =~= rem@.subrange(ee + 1, rem@.len() as int));
            let ghost mid = parts_view(parts@);
            let r = interpolate(tail, span, parts);
            proof {
                if let Ok(ps) = interp_parts(tail@, span) {
                    assert(parts_view(parts@) =~= before + (seq![SpecPart::Binding(bv)] + ps));
                }
            }
            r
        },
    }
}

/// Reads an attribute value, recognizing `{expression}` bindings.
pub fn parse_attribute_value(value: &str, span: Span) -> (res: Result<AttributeValue, ParseError>)
    requires
        span.start + utf8_prefix_len(value@, value@.len() as int) <= usize::MAX,
        span.column + utf8_prefix_len(value@, value@.len() as int) <= u32::MAX,
    ensures
        match spec_attribute_value(value@, span) {
            Ok(a) => res matches Ok(r) && r@ == a,
            Err(e) => res matches Err(r) && r@ == e,
        },
{
    let v = str_chars(value);
    let open = find_char(v.as_slice(), 0, '{');
    let close = find_char(v.as_slice(), 0, '}');
    proof {
        assert(v@.subrange(0, v@.len() as int) =~= v@);
        lemma_first_index_bounds(v@, '{');
        lemma_first_index_bounds(v@, '}');
    }
    if open >= v.len() || close >= v.len() {
        return Ok(AttributeValue::Static(to_owned_string(value)));
    }
    let mut parts: Vec<InterpolatedPart> = Vec::new();
    assert(parts_view(parts@) =~= Seq::<SpecPart>::empty());
    match interpolate(v.as_slice(), span, &mut parts) {
        Err(e) => {
            return Err(e);
        },
        Ok(()) => {},
    }
    assert(parts_view(parts@) =~= Seq::<SpecPart>::empty() + parts_view(parts@));
    if parts.len() == 1 {
        let p = parts.pop().unwrap();
        assert(parts_view(seq![p]) =~= seq![p@]);
        match p {
            InterpolatedPart::Binding(b) => Ok(AttributeValue::Binding(b)),
            InterpolatedPart::Literal(l) => Ok(AttributeValue::Static(l)),
        }
    } else {
        Ok(AttributeValue::Interpolated(parts))
    }
}

// ---------------------------------------------------------------------------
// Keyword values
// ---------------------------------------------------------------------------

pub open spec fn str_views(v: Seq<&str>) -> Seq<Seq<char>> {
    Seq::new(v.len(), |i: int| v[i]@)
}

/// Whether the variant `v` is what `value` names: the lowercased variant
/// equals the trimmed, lowercased value.
pub open spec fn names_variant(value: Seq<char>, v: Seq<char>) -> bool {
    spec_to_lowercase(v) == spec_keyword(value)
}

pub open spec fn invalid_variant_message(value: Seq<char>, variants: Seq<Seq<char>>) -> Seq<char> {
    "Invalid value '"@ + value + "'. Valid options: "@ + join_with(variants, ", "@)
}

/// The first of `valid_variants` that `value` names (case and surrounding
/// space ignored), or the message listing the valid options.
pub fn match_enum_variant<'a>(value: &str, valid_variants: &[&'a str]) -> (res: Result<&'a str, String>)
    ensures
        match res {
            Ok(v) => exists|i: int|
                0 <= i < valid_variants@.len() && valid_variants@[i] == v && names_variant(value@, v@)
                    && forall|j: int| 0 <= j < i ==> !names_variant(value@, #[trigger] valid_variants@[j]@),
            Err(e) => (forall|j: int| 0 <= j < valid_variants@.len() ==> !names_variant(value@, #[trigger] valid_variants@[j]@))
                && e@ == invalid_variant_message(value@, str_views(valid_variants@)),
        },
{
    let normalized = keyword_of(value);
    let mut i: usize = 0;
    while i < valid_variants.len()
        invariant
            i <= valid_variants@.len(),
            normalized@ == spec_keyword(value@),
            forall|j: int| 0 <= j < i ==> !names_variant(value@, #[trigger] valid_variants@[j]@),
        decreases valid_variants.len() - i,
    {
        let lower = str_to_lowercase(valid_variants[i]);
        if str_eq(lower.as_str(), normalized.as_str()) {
            return Ok(valid_variants[i]);
        }
        i = i + 1;
    }
    let ghost all = str_views(valid_variants@);
    let mut listed = String::new();
    let mut k: usize = 0;
    while k < valid_variants.len()
        invariant
            k <= valid_variants@.len(),
            all == str_views(valid_variants@),
            listed@ == join_with(all.subrange(0, k as int), ", "@),
        decreases valid_variants.len() - k,
    {
        proof {
            assert(all.subrange(0, k + 1).drop_last() =~= all.subrange(0, k as int));
            assert(all.subrange(0, k + 1).last() == valid_variants@[k as int]@);
        }
        if k > 0 {
            push_str(&mut listed, ", ");
        }
        push_str(&mut listed, valid_variants[k]);
        k = k + 1;
    }
    assert(all.subrange(0, valid_variants@.len() as int) =~= all);
    let mut message = to_owned_string("Invalid value '");
    push_str(&mut message, value);
    push_str(&mut message, "'. Valid options: ");
    push_str(&mut message, listed.as_str());
    Err(message)
}

} // verus!
