//! A light check of color values written in attributes.

use crate::ir::Span;
use crate::parser::error::{perr, ParseError, ParseErrorKind, SpecParseError};
use crate::text::{is_ascii_hexdigit, is_ascii_hexdigit_spec, push_str, str_chars, to_owned_string};
use vstd::prelude::*;

verus! {

pub open spec fn starts_with(s: Seq<char>, p: Seq<char>) -> bool {
    p.len() <= s.len() && s.subrange(0, p.len() as int) == p
}

pub open spec fn ends_with(s: Seq<char>, p: Seq<char>) -> bool {
    p.len() <= s.len() && s.subrange(s.len() - p.len(), s.len() as int) == p
}

/// `#` followed by 3, 4, 6 or 8 hexadecimal digits.
pub open spec fn valid_hex_body(h: Seq<char>) -> bool {
    (h.len() == 3 || h.len() == 4 || h.len() == 6 || h.len() == 8) && forall|i: int|
        0 <= i < h.len() ==> is_ascii_hexdigit_spec(#[trigger] h[i])
}

/// Bindings, hex colors, `rgb(..)`/`rgba(..)` and names are accepted; a
/// malformed hex color or an unclosed function is not.
pub open spec fn spec_color_check(v: Seq<char>, span: Span) -> Result<(), SpecParseError> {
    if starts_with(v, "{"@) && ends_with(v, "}"@) {
        Ok(())
    } else if starts_with(v, "#"@) {
        if valid_hex_body(v.drop_first()) {
            Ok(())
        } else {
            Err(
                perr(
                    ParseErrorKind::InvalidValue,
                    "Invalid hex color format: "@ + v,
                    span,
                    Some("Use format: #rgb, #rgba, #rrggbb, or #rrggbbaa"@),
                ),
            )
        }
    } else if starts_with(v, "rgb("@) || starts_with(v, "rgba("@) {
        if ends_with(v, ")"@) {
            Ok(())
        } else {
            Err(
                perr(
                    ParseErrorKind::InvalidValue,
                    "Unclosed color function"@,
                    span,
                    Some("Ensure color function ends with ')'"@),
                ),
            )
        }
    } else {
        Ok(())
    }
}

fn chars_start_with(s: &Vec<char>, p: &str) -> (res: bool)
    ensures
        res == starts_with(s@, p@),
{
    let pc = str_chars(p);
    if pc.len() > s.len() {
        return false;
    }
    let mut i: usize = 0;
    while i < pc.len()
        invariant
            i <= pc.len() <= s.len(),
            pc@ == p@,
            forall|j: int| 0 <= j < i ==> s@[j] == pc@[j],
        decreases pc.len() - i,
    {
        if s[i] != pc[i] {
            assert(s@.subrange(0, pc@.len() as int)[i as int] != p@[i as int]);
            return false;
        }
        i = i + 1;
    }
    assert(s@.subrange(0, pc@.len() as int) =~= p@);
    true
}

fn chars_end_with(s: &Vec<char>, c: char) -> (res: bool)
    ensures
        res == ends_with(s@, seq![c]),
{
    if s.len() == 0 {
        return false;
    }
    let r = s[s.len() - 1] == c;
    assert(s@.subrange(s@.len() - 1, s@.len() as int) =~= seq![s@[s@.len() - 1]]);
    if !r {
        assert(seq![s@[s@.len() - 1]][0] != seq![c][0]);
    }
    r
}

/// Checks the format of a color value.
pub fn validate_color_format(value: &str, span: Span) -> (res: Result<(), ParseError>)
    ensures
        match spec_color_check(value@, span) {
            Ok(()) => res is Ok,
            Err(e) => res matches Err(r) && r@ == e,
        },
{
    proof {
        reveal_strlit("{");
        reveal_strlit("}");
        reveal_strlit(")");
        reveal_strlit("#");
        assert("}"@ =~= seq!['}']);
        assert(")"@ =~= seq![')']);
    }
    let v = str_chars(value);
    if chars_start_with(&v, "{") && chars_end_with(&v, '}') {
        return Ok(());
    }
    if chars_start_with(&v, "#") {
        let n = v.len() - 1;
        let mut ok = n == 3 || n == 4 || n == 6 || n == 8;
        let mut i: usize = 1;
        while i < v.len()
            invariant
                1 <= i <= v.len(),
                n == v@.len() - 1,
                ok == ((n == 3 || n == 4 || n == 6 || n == 8) && forall|j: int|
                    0 <= j < i - 1 ==> is_ascii_hexdigit_spec(#[trigger] v@.drop_first()[j])),
            decreases v.len() - i,
        {
            if !is_ascii_hexdigit(v[i]) {
                ok = false;
            }
            assert(v@.drop_first()[i - 1] == v@[i as int]);
            i = i + 1;
        }
        if ok {
            return Ok(());
        }
        let mut msg = to_owned_string("Invalid hex color format: ");
        push_str(&mut msg, value);
        return Err(
            ParseError::new(
                ParseErrorKind::InvalidValue,
                msg,
                span,
                Some(to_owned_string("Use format: #rgb, #rgba, #rrggbb, or #rrggbbaa")),
            ),
        );
    }
    if chars_start_with(&v, "rgb(") || chars_start_with(&v, "rgba(") {
        if !chars_end_with(&v, ')') {
            return Err(
                ParseError::new(
                    ParseErrorKind::InvalidValue,
                    to_owned_string("Unclosed color function"),
                    span,
                    Some(to_owned_string("Ensure color function ends with ')'")),
                ),
            );
        }
        return Ok(());
    }
    Ok(())
}

/// An ASCII hexadecimal digit: `0`-`9`, `a`-`f` or `A`-`F`.
pub open spec fn hex_digit(c: char) -> bool {
    ('0' <= c && c <= '9') || ('a' <= c && c <= 'f') || ('A' <= c && c <= 'F')
}

/// A color written with `#` is accepted exactly when the `#` is followed by
/// 3, 4, 6 or 8 hexadecimal digits (`#rgb`, `#rgba`, `#rrggbb`, `#rrggbbaa`),
/// whatever the digits are.
pub proof fn lemma_hex_colors_accepted(v: Seq<char>, span: Span)
    requires
        v.len() >= 1,
        v[0] == '#',
    ensures
        spec_color_check(v, span) is Ok <==> ((v.len() == 4 || v.len() == 5 || v.len() == 7 || v.len() == 9)
            && forall|i: int| 1 <= i < v.len() ==> #[trigger] hex_digit(v[i])),
{
    reveal_strlit("{");
    reveal_strlit("#");
    assert(!starts_with(v, "{"@)) by {
        assert(v.subrange(0, 1)[0] == '#');
    }
    assert(starts_with(v, "#"@)) by {
        assert(v.subrange(0, 1) =~= "#"@);
    }
    let h = v.drop_first();
    if forall|i: int| 1 <= i < v.len() ==> #[trigger] hex_digit(v[i]) {
        assert forall|i: int| 0 <= i < h.len() implies is_ascii_hexdigit_spec(#[trigger] h[i]) by {
            assert(hex_digit(v[i + 1]));
        }
    }
    if forall|i: int| 0 <= i < h.len() ==> is_ascii_hexdigit_spec(#[trigger] h[i]) {
        assert forall|i: int| 1 <= i < v.len() implies #[trigger] hex_digit(v[i]) by {
            assert(is_ascii_hexdigit_spec(h[i - 1]));
        }
    }
}

} // verus!
