//! Parser for binding expressions such as `count > 0`, `user.name`,
//! `items.len()` or `if done then 'yes' else 'no'`.
//!
//! The grammar is given below as spec functions over the characters of the
//! input and a position in it; the executable parser is proved to compute
//! exactly what they define, error messages included.

use crate::expr::ast::{
    BinaryOp, BinaryOpExpr, BindingExpr, ConditionalExpr, Expr, FieldAccessExpr, LiteralExpr,
    MethodCallExpr, SharedFieldAccessExpr, SpecExpr, SpecLiteral, UnaryOp, UnaryOpExpr, expr_view,
    exprs_view, lemma_method_call_view, strings_view,
};
use crate::ir::Span;
use crate::text::{
    byte_offset, char_is_alphabetic, char_is_alphanumeric, char_is_whitespace, first_non_ws_from,
    is_ascii_digit, is_ascii_digit_spec, parse_digits, spec_decimal, spec_is_alphabetic,
    spec_is_alphanumeric, spec_is_whitespace, spec_parse_integer, str_chars, string_from_chars,
    to_owned_string, u64_to_decimal, utf8_prefix_len,
};
use vstd::prelude::*;

verus! {

// ---------------------------------------------------------------------------
// The grammar
// ---------------------------------------------------------------------------

/// Why parsing stopped.
pub enum TokError {
    /// No expression can start at this character index.
    UnexpectedCharacter(int),
    ExpectedIdentifier,
    ExpectedIdentifierGot(char),
    /// A punctuation token was required.
    Expected(Seq<char>),
    /// A keyword was required.
    ExpectedKeyword(Seq<char>),
    /// An integer literal does not fit; carries the standard library's reason.
    InvalidInteger(Seq<char>),
    InvalidFloat,
    /// A sub-parse did not advance; positions always advance, so this never occurs.
    Stuck,
}

pub type PRes = Result<(SpecExpr, int), TokError>;

/// Position after the whitespace at `i`.
pub open spec fn ws(s: Seq<char>, i: int) -> int {
    first_non_ws_from(s, i)
}

/// `lit` occurs at position `i`.
pub open spec fn at(s: Seq<char>, i: int, lit: Seq<char>) -> bool {
    0 <= i && i + lit.len() <= s.len() && s.subrange(i, i + lit.len()) == lit
}

pub open spec fn is_ident_char(c: char) -> bool {
    spec_is_alphanumeric(c) || c == '_'
}

/// Keyword `kw` occurs at `i` and is not followed by an identifier character.
pub open spec fn at_keyword(s: Seq<char>, i: int, kw: Seq<char>) -> bool {
    at(s, i, kw) && (i + kw.len() == s.len() || !is_ident_char(s[i + kw.len()]))
}

/// End of the run of identifier characters starting at `i`.
pub open spec fn ident_end(s: Seq<char>, i: int) -> int
    decreases s.len() - i,
{
    if 0 <= i < s.len() && is_ident_char(s[i]) {
        ident_end(s, i + 1)
    } else {
        i
    }
}

/// An identifier: a letter or `_`, then letters, digits and `_`.
pub open spec fn p_ident(s: Seq<char>, i: int) -> Result<(Seq<char>, int), TokError> {
    if i < 0 || i >= s.len() {
        Err(TokError::ExpectedIdentifier)
    } else if !(spec_is_alphabetic(s[i]) || s[i] == '_') {
        Err(TokError::ExpectedIdentifierGot(s[i]))
    } else {
        let e = ident_end(s, i + 1);
        Ok((s.subrange(i, e), e))
    }
}

/// `(.ident)*` after a path; ends at the position after trailing whitespace.
pub open spec fn p_dots(s: Seq<char>, i: int, path: Seq<Seq<char>>) -> Result<
    (Seq<Seq<char>>, int),
    TokError,
>
    decreases s.len() - i,
{
    let q = ws(s, i);
    if i < 0 || i > s.len() {
        Err(TokError::Stuck)
    } else if at(s, q, "."@) {
        match p_ident(s, q + 1) {
            Ok((id, e)) => {
                proof {
                    lemma_ws_bounds(s, i);
                    lemma_ident_end_bounds(s, q + 2);
                }
                p_dots(s, e, path.push(id))
            },
            Err(err) => Err(err),
        }
    } else {
        Ok((path, q))
    }
}

/// The contents of a string literal opened before `i`, up to the closing `quote`.
pub open spec fn scan_string(s: Seq<char>, quote: char, i: int, acc: Seq<char>) -> (
    Seq<char>,
    int,
)
    decreases s.len() - i,
{
    if i < 0 || i >= s.len() {
        (acc, i)
    } else if s[i] == quote {
        (acc, i + 1)
    } else if s[i] == '\\' {
        if i + 1 < s.len() {
            scan_string(s, quote, i + 2, acc.push(s[i + 1]))
        } else {
            (acc, i + 1)
        }
    } else {
        scan_string(s, quote, i + 1, acc.push(s[i]))
    }
}

/// End of a number literal and whether it had a `.`.
pub open spec fn scan_number(s: Seq<char>, i: int, is_float: bool) -> (int, bool)
    decreases s.len() - i,
{
    if 0 <= i < s.len() && is_ascii_digit_spec(s[i]) {
        scan_number(s, i + 1, is_float)
    } else if 0 <= i < s.len() && s[i] == '.' && !is_float {
        scan_number(s, i + 1, true)
    } else {
        (i, is_float)
    }
}

pub open spec fn has_ascii_digit(t: Seq<char>) -> bool {
    exists|k: int| 0 <= k < t.len() && is_ascii_digit_spec(#[trigger] t[k])
}

/// A number literal at `i`: an integer, or a decimal with a `.`.
pub open spec fn p_number(s: Seq<char>, i: int) -> PRes {
    let j0 = if at(s, i, "-"@) {
        i + 1
    } else {
        i
    };
    let (e, f) = scan_number(s, j0, false);
    let text = s.subrange(i, e);
    if f {
        if has_ascii_digit(text) {
            Ok((SpecExpr::Literal(SpecLiteral::Float(text)), e))
        } else {
            Err(TokError::InvalidFloat)
        }
    } else {
        match spec_parse_integer(text, true) {
            Some(v) => if v > i64::MAX {
                Err(TokError::InvalidInteger("number too large to fit in target type"@))
            } else if v < i64::MIN {
                Err(TokError::InvalidInteger("number too small to fit in target type"@))
            } else {
                Ok((SpecExpr::Literal(SpecLiteral::Integer(v as i64)), e))
            },
            None => Err(TokError::InvalidInteger("invalid digit found in string"@)),
        }
    }
}

/// A sub-parse from `start` advanced to a position in the input.
pub open spec fn advanced(start: int, p: int, s: Seq<char>) -> bool {
    start < p <= s.len()
}

/// Full expression: a conditional or an `||` chain.
pub open spec fn p_expr(s: Seq<char>, i: int) -> PRes
    decreases s.len() - i, 20nat,
{
    p_cond(s, i)
}

/// `if c then a else b`, or an `||` chain.
pub open spec fn p_cond(s: Seq<char>, i: int) -> PRes
    decreases s.len() - i, 19nat,
{
    if i < 0 || i > s.len() {
        Err(TokError::Stuck)
    } else {
        let j = ws(s, i);
        proof {
            lemma_ws_bounds(s, i);
        }
        if at_keyword(s, j, "if"@) {
            let j2 = ws(s, j + 2);
            proof {
                reveal_strlit("if");
                lemma_ws_bounds(s, j + 2);
            }
            match p_or(s, j2) {
                Err(err) => Err(err),
                Ok((c, p)) => if !advanced(j2, p, s) {
                    Err(TokError::Stuck)
                } else {
                    let k = ws(s, p);
                    proof {
                        lemma_ws_bounds(s, p);
                    }
                    if !at_keyword(s, k, "then"@) {
                        Err(TokError::ExpectedKeyword("then"@))
                    } else {
                        let k2 = ws(s, k + 4);
                        proof {
                            reveal_strlit("then");
                            lemma_ws_bounds(s, k + 4);
                        }
                        match p_expr(s, k2) {
                            Err(err) => Err(err),
                            Ok((t, p2)) => if !advanced(k2, p2, s) {
                                Err(TokError::Stuck)
                            } else {
                                let m = ws(s, p2);
                                proof {
                                    lemma_ws_bounds(s, p2);
                                }
                                if !at_keyword(s, m, "else"@) {
                                    Err(TokError::ExpectedKeyword("else"@))
                                } else {
                                    let m2 = ws(s, m + 4);
                                    proof {
                                        reveal_strlit("else");
                                        lemma_ws_bounds(s, m + 4);
                                    }
                                    match p_expr(s, m2) {
                                        Err(err) => Err(err),
                                        Ok((e, p3)) => Ok(
                                            (
                                                SpecExpr::Conditional(
                                                    Box::new(c),
                                                    Box::new(t),
                                                    Box::new(e),
                                                ),
                                                p3,
                                            ),
                                        ),
                                    }
                                }
                            },
                        }
                    }
                },
            }
        } else {
            p_or(s, j)
        }
    }
}

pub open spec fn p_or(s: Seq<char>, i: int) -> PRes
    decreases s.len() - i, 18nat,
{
    match p_and(s, i) {
        Err(err) => Err(err),
        Ok((l, p)) => if !advanced(i, p, s) {
            Err(TokError::Stuck)
        } else {
            p_or_tail(s, l, p)
        },
    }
}

pub open spec fn p_or_tail(s: Seq<char>, l: SpecExpr, p: int) -> PRes
    decreases s.len() - p, 17nat,
{
    if p < 0 || p > s.len() {
        Err(TokError::Stuck)
    } else {
        let q = ws(s, p);
        proof {
            lemma_ws_bounds(s, p);
        }
        if at(s, q, "||"@) {
            let r = ws(s, q + 2);
            proof {
                reveal_strlit("||");
                lemma_ws_bounds(s, q + 2);
            }
            match p_and(s, r) {
                Err(err) => Err(err),
                Ok((rt, p2)) => if !advanced(r, p2, s) {
                    Err(TokError::Stuck)
                } else {
                    p_or_tail(s, SpecExpr::BinaryOp(Box::new(l), BinaryOp::Or, Box::new(rt)), p2)
                },
            }
        } else {
            Ok((l, q))
        }
    }
}

pub open spec fn p_and(s: Seq<char>, i: int) -> PRes
    decreases s.len() - i, 16nat,
{
    match p_comparison(s, i) {
        Err(err) => Err(err),
        Ok((l, p)) => if !advanced(i, p, s) {
            Err(TokError::Stuck)
        } else {
            p_and_tail(s, l, p)
        },
    }
}

pub open spec fn p_and_tail(s: Seq<char>, l: SpecExpr, p: int) -> PRes
    decreases s.len() - p, 15nat,
{
    if p < 0 || p > s.len() {
        Err(TokError::Stuck)
    } else {
        let q = ws(s, p);
        proof {
            lemma_ws_bounds(s, p);
        }
        if at(s, q, "&&"@) {
            let r = ws(s, q + 2);
            proof {
                reveal_strlit("&&");
                lemma_ws_bounds(s, q + 2);
            }
            match p_comparison(s, r) {
                Err(err) => Err(err),
                Ok((rt, p2)) => if !advanced(r, p2, s) {
                    Err(TokError::Stuck)
                } else {
                    p_and_tail(s, SpecExpr::BinaryOp(Box::new(l), BinaryOp::And, Box::new(rt)), p2)
                },
            }
        } else {
            Ok((l, q))
        }
    }
}

/// The comparison operator at `q`, tried in the order `==`, `!=`, `<=`, `>=`, `<`, `>`.
pub open spec fn comparison_op_at(s: Seq<char>, q: int) -> Option<(BinaryOp, int)> {
    if at(s, q, "=="@) {
        Some((BinaryOp::Eq, 2))
    } else if at(s, q, "!="@) {
        Some((BinaryOp::Ne, 2))
    } else if at(s, q, "<="@) {
        Some((BinaryOp::Le, 2))
    } else if at(s, q, ">="@) {
        Some((BinaryOp::Ge, 2))
    } else if at(s, q, "<"@) {
        Some((BinaryOp::Lt, 1))
    } else if at(s, q, ">"@) {
        Some((BinaryOp::Gt, 1))
    } else {
        None
    }
}

pub open spec fn p_comparison(s: Seq<char>, i: int) -> PRes
    decreases s.len() - i, 14nat,
{
    match p_add(s, i) {
        Err(err) => Err(err),
        Ok((l, p)) => if !advanced(i, p, s) {
            Err(TokError::Stuck)
        } else {
            p_comparison_tail(s, l, p)
        },
    }
}

pub open spec fn p_comparison_tail(s: Seq<char>, l: SpecExpr, p: int) -> PRes
    decreases s.len() - p, 13nat,
{
    if p < 0 || p > s.len() {
        Err(TokError::Stuck)
    } else {
        let q = ws(s, p);
        proof {
            lemma_ws_bounds(s, p);
        }
        match comparison_op_at(s, q) {
            Some((op, n)) => {
                let r = ws(s, q + n);
                proof {
                    lemma_comparison_op_len(s, q);
                    lemma_ws_bounds(s, q + n);
                }
                match p_add(s, r) {
                    Err(err) => Err(err),
                    Ok((rt, p2)) => if !advanced(r, p2, s) {
                        Err(TokError::Stuck)
                    } else {
                        p_comparison_tail(s, SpecExpr::BinaryOp(Box::new(l), op, Box::new(rt)), p2)
                    },
                }
            },
            None => Ok((l, q)),
        }
    }
}

pub open spec fn add_op_at(s: Seq<char>, q: int) -> Option<BinaryOp> {
    if at(s, q, "+"@) {
        Some(BinaryOp::Add)
    } else if at(s, q, "-"@) {
        Some(BinaryOp::Sub)
    } else {
        None
    }
}

pub open spec fn p_add(s: Seq<char>, i: int) -> PRes
    decreases s.len() - i, 12nat,
{
    match p_mul(s, i) {
        Err(err) => Err(err),
        Ok((l, p)) => if !advanced(i, p, s) {
            Err(TokError::Stuck)
        } else {
            p_add_tail(s, l, p)
        },
    }
}

pub open spec fn p_add_tail(s: Seq<char>, l: SpecExpr, p: int) -> PRes
    decreases s.len() - p, 11nat,
{
    if p < 0 || p > s.len() {
        Err(TokError::Stuck)
    } else {
        let q = ws(s, p);
        proof {
            lemma_ws_bounds(s, p);
        }
        match add_op_at(s, q) {
            Some(op) => {
                let r = ws(s, q + 1);
                proof {
                    reveal_strlit("+");
                    reveal_strlit("-");
                    reveal_strlit("*");
                    reveal_strlit("/");
                    lemma_ws_bounds(s, q + 1);
                }
                match p_mul(s, r) {
                    Err(err) => Err(err),
                    Ok((rt, p2)) => if !advanced(r, p2, s) {
                        Err(TokError::Stuck)
                    } else {
                        p_add_tail(s, SpecExpr::BinaryOp(Box::new(l), op, Box::new(rt)), p2)
                    },
                }
            },
            None => Ok((l, q)),
        }
    }
}

pub open spec fn mul_op_at(s: Seq<char>, q: int) -> Option<BinaryOp> {
    if at(s, q, "*"@) {
        Some(BinaryOp::Mul)
    } else if at(s, q, "/"@) {
        Some(BinaryOp::Div)
    } else {
        None
    }
}

pub open spec fn p_mul(s: Seq<char>, i: int) -> PRes
    decreases s.len() - i, 10nat,
{
    match p_unary(s, i) {
        Err(err) => Err(err),
        Ok((l, p)) => if !advanced(i, p, s) {
            Err(TokError::Stuck)
        } else {
            p_mul_tail(s, l, p)
        },
    }
}

pub open spec fn p_mul_tail(s: Seq<char>, l: SpecExpr, p: int) -> PRes
    decreases s.len() - p, 9nat,
{
    if p < 0 || p > s.len() {
        Err(TokError::Stuck)
    } else {
        let q = ws(s, p);
        proof {
            lemma_ws_bounds(s, p);
        }
        match mul_op_at(s, q) {
            Some(op) => {
                let r = ws(s, q + 1);
                proof {
                    reveal_strlit("+");
                    reveal_strlit("-");
                    reveal_strlit("*");
                    reveal_strlit("/");
                    lemma_ws_bounds(s, q + 1);
                }
                match p_unary(s, r) {
                    Err(err) => Err(err),
                    Ok((rt, p2)) => if !advanced(r, p2, s) {
                        Err(TokError::Stuck)
                    } else {
                        p_mul_tail(s, SpecExpr::BinaryOp(Box::new(l), op, Box::new(rt)), p2)
                    },
                }
            },
            None => Ok((l, q)),
        }
    }
}

/// `!x`, `-x`, or a primary expression.
pub open spec fn p_unary(s: Seq<char>, i: int) -> PRes
    decreases s.len() - i, 8nat,
{
    if i < 0 || i > s.len() {
        Err(TokError::Stuck)
    } else {
        let j = ws(s, i);
        proof {
            lemma_ws_bounds(s, i);
        }
        if at(s, j, "!"@) {
            proof {
                reveal_strlit("!");
            }
            match p_unary(s, j + 1) {
                Err(err) => Err(err),
                Ok((o, p)) => Ok((SpecExpr::UnaryOp(UnaryOp::Not, Box::new(o)), p)),
            }
        } else if at(s, j, "-"@) {
            proof {
                reveal_strlit("-");
            }
            match p_unary(s, j + 1) {
                Err(err) => Err(err),
                Ok((o, p)) => Ok((SpecExpr::UnaryOp(UnaryOp::Neg, Box::new(o)), p)),
            }
        } else {
            p_primary(s, j)
        }
    }
}

/// Literals, field accesses, method calls and parenthesised expressions.
pub open spec fn p_primary(s: Seq<char>, i: int) -> PRes
    decreases s.len() - i, 7nat,
{
    if i < 0 || i > s.len() {
        Err(TokError::Stuck)
    } else {
        let j = ws(s, i);
        proof {
            lemma_ws_bounds(s, i);
        }
        if at(s, j, "\""@) || at(s, j, "'"@) {
            let quote = if at(s, j, "\""@) {
                '"'
            } else {
                '\''
            };
            let (v, e) = scan_string(s, quote, j + 1, seq![]);
            Ok((SpecExpr::Literal(SpecLiteral::Str(v)), e))
        } else if (j < s.len() && is_ascii_digit_spec(s[j])) || at(s, j, "-"@) {
            p_number(s, j)
        } else if at_keyword(s, j, "true"@) {
            Ok((SpecExpr::Literal(SpecLiteral::Bool(true)), j + 4))
        } else if at_keyword(s, j, "false"@) {
            Ok((SpecExpr::Literal(SpecLiteral::Bool(false)), j + 5))
        } else if (j < s.len() && spec_is_alphabetic(s[j])) || at(s, j, "_"@) {
            p_field(s, j)
        } else if at(s, j, "("@) {
            proof {
                reveal_strlit("(");
            }
            match p_expr(s, j + 1) {
                Err(err) => Err(err),
                Ok((e, p)) => if !advanced(j + 1, p, s) {
                    Err(TokError::Stuck)
                } else {
                    let q = ws(s, p);
                    if at(s, q, ")"@) {
                        Ok((e, q + 1))
                    } else {
                        Err(TokError::Expected(")"@))
                    }
                },
            }
        } else {
            Err(TokError::UnexpectedCharacter(j))
        }
    }
}

/// Call arguments after `(`: expressions separated by `,`; ends at the closing
/// position (not consumed).
pub open spec fn p_args(s: Seq<char>, i: int, acc: Seq<SpecExpr>) -> Result<
    (Seq<SpecExpr>, int),
    TokError,
>
    decreases s.len() - i, 21nat,
{
    if i < 0 || i > s.len() {
        Err(TokError::Stuck)
    } else {
        let q = ws(s, i);
        proof {
            lemma_ws_bounds(s, i);
        }
        if at(s, q, ")"@) {
            Ok((acc, q))
        } else {
            match p_expr(s, q) {
                Err(err) => Err(err),
                Ok((a, p)) => if !advanced(q, p, s) {
                    Err(TokError::Stuck)
                } else {
                    let q2 = ws(s, p);
                    proof {
                        lemma_ws_bounds(s, p);
                    }
                    if at(s, q2, ","@) {
                        proof {
                            reveal_strlit(",");
                        }
                        p_args(s, q2 + 1, acc.push(a))
                    } else {
                        Ok((acc.push(a), q2))
                    }
                },
            }
        }
    }
}

/// The call `(args)` at `q` on the path, if there is one.
pub open spec fn p_call(
    s: Seq<char>,
    q: int,
    method: Seq<char>,
    receiver: SpecExpr,
) -> PRes
    decreases s.len() - q, 22nat,
{
    if q < 0 || q >= s.len() {
        Err(TokError::Stuck)
    } else {
        match p_args(s, q + 1, seq![]) {
            Err(err) => Err(err),
            Ok((args, r)) => if at(s, r, ")"@) {
                Ok((SpecExpr::MethodCall(Box::new(receiver), method, args), r + 1))
            } else {
                Err(TokError::Expected(")"@))
            },
        }
    }
}

/// The rest of a model path whose first segments `init` end before `start`:
/// more `.ident` segments, then a call on the last segment or a plain access.
pub open spec fn p_path_rest(s: Seq<char>, start: int, init: Seq<Seq<char>>) -> PRes
    decreases s.len() - start, 23nat,
{
    if start < 0 || start > s.len() {
        Err(TokError::Stuck)
    } else {
        match p_dots(s, start, init) {
            Err(err) => Err(err),
            Ok((path, q3)) => {
                proof {
                    lemma_dots_bounds(s, start, init);
                }
                let q4 = ws(s, q3);
                proof {
                    lemma_ws_bounds(s, q3);
                }
                if at(s, q4, "("@) {
                    let rest = path.drop_last();
                    p_call(
                        s,
                        q4,
                        path.last(),
                        if rest.len() == 0 {
                            SpecExpr::Literal(SpecLiteral::Str("self"@))
                        } else {
                            SpecExpr::FieldAccess(rest)
                        },
                    )
                } else {
                    Ok((SpecExpr::FieldAccess(path), q4))
                }
            },
        }
    }
}

/// The same for a path on the shared context.
pub open spec fn p_shared_rest(s: Seq<char>, start: int, init: Seq<Seq<char>>) -> PRes
    decreases s.len() - start, 23nat,
{
    if start < 0 || start > s.len() {
        Err(TokError::Stuck)
    } else {
        match p_dots(s, start, init) {
            Err(err) => Err(err),
            Ok((sp, q3)) => {
                proof {
                    lemma_dots_bounds(s, start, init);
                }
                let q4 = ws(s, q3);
                proof {
                    lemma_ws_bounds(s, q3);
                }
                if at(s, q4, "("@) {
                    p_call(s, q4, sp.last(), SpecExpr::SharedFieldAccess(sp.drop_last()))
                } else {
                    Ok((SpecExpr::SharedFieldAccess(sp), q4))
                }
            },
        }
    }
}

/// Field access or method call, on the model or on the shared context.
pub open spec fn p_field(s: Seq<char>, i: int) -> PRes
    decreases s.len() - i, 6nat,
{
    match p_ident(s, i) {
        Err(err) => Err(err),
        Ok((id, p)) => {
            proof {
                lemma_ident_end_bounds(s, i + 1);
            }
            let q = ws(s, p);
            proof {
                lemma_ws_bounds(s, p);
            }
            if id == "shared"@ && at(s, q, "."@) {
                match p_ident(s, q + 1) {
                    Err(err) => Err(err),
                    Ok((f, p2)) => {
                        proof {
                            lemma_ident_end_bounds(s, q + 2);
                        }
                        p_shared_rest(s, p2, seq![f])
                    },
                }
            } else {
                p_path_rest(s, if id == "shared"@ { q } else { p }, seq![id])
            }
        },
    }
}

/// The expression at the start of `s` (trailing input is not examined).
pub open spec fn spec_tokenize(s: Seq<char>) -> Result<SpecExpr, TokError> {
    match p_expr(s, 0) {
        Ok((e, _)) => Ok(e),
        Err(err) => Err(err),
    }
}

/// The message the parser reports for an error.
pub open spec fn render_error(s: Seq<char>, e: TokError) -> Seq<char> {
    match e {
        TokError::UnexpectedCharacter(j) => "Unexpected character at position "@ + spec_decimal(
            utf8_prefix_len(s, j),
        ),
        TokError::ExpectedIdentifier => "Expected identifier"@,
        TokError::ExpectedIdentifierGot(c) => "Expected identifier, got '"@ + seq![c] + "'"@,
        TokError::Expected(l) => "Expected '"@ + l + "'"@,
        TokError::ExpectedKeyword(k) => "Expected keyword '"@ + k + "'"@,
        TokError::InvalidInteger(d) => "Invalid integer: "@ + d,
        TokError::InvalidFloat => "Invalid float: invalid float literal"@,
        TokError::Stuck => "Parser did not advance"@,
    }
}

// ---------------------------------------------------------------------------
// Lemmas about the scanning helpers
// ---------------------------------------------------------------------------

pub proof fn lemma_comparison_op_len(s: Seq<char>, q: int)
    ensures
        comparison_op_at(s, q) matches Some((op, n)) ==> 0 <= q && q + n <= s.len() && 1 <= n <= 2,
{
    reveal_strlit("==");
    reveal_strlit("!=");
    reveal_strlit("<=");
    reveal_strlit(">=");
    reveal_strlit("<");
    reveal_strlit(">");
}

/// The characters that spell a comparison operator.
pub open spec fn comparison_symbol(op: BinaryOp) -> Seq<char> {
    match op {
        BinaryOp::Eq => seq!['=', '='],
        BinaryOp::Ne => seq!['!', '='],
        BinaryOp::Lt => seq!['<'],
        BinaryOp::Le => seq!['<', '='],
        BinaryOp::Gt => seq!['>'],
        BinaryOp::Ge => seq!['>', '='],
        _ => Seq::empty(),
    }
}

/// A comparison is read as the operator its characters spell: the operator
/// found at `q` is the one whose symbol the input holds there, the longest
/// one is taken (`<=` is never read as `<`), and every `<`, `>`, `==` and
/// `!=` in the input starts one.
pub proof fn lemma_comparison_op_spells(s: Seq<char>, q: int)
    ensures
        comparison_op_at(s, q) matches Some((op, n)) ==> n == comparison_symbol(op).len() && n > 0
            && s.subrange(q, q + n) == comparison_symbol(op),
        comparison_op_at(s, q) matches Some((op, n)) ==> (n == 1 ==> !(q + 1 < s.len() && s[q + 1] == '=')),
        0 <= q < s.len() && (s[q] == '<' || s[q] == '>') ==> comparison_op_at(s, q) is Some,
        0 <= q && q + 1 < s.len() && (s[q] == '=' || s[q] == '!') && s[q + 1] == '=' ==> comparison_op_at(s, q) is Some,
{
    reveal_strlit("==");
    reveal_strlit("!=");
    reveal_strlit("<=");
    reveal_strlit(">=");
    reveal_strlit("<");
    reveal_strlit(">");
    if 0 <= q && q + 2 <= s.len() {
        let t = s.subrange(q, q + 2);
        assert(t =~= seq![s[q], s[q + 1]]);
        if s[q + 1] == '=' {
            if s[q] == '=' {
                assert(t =~= "=="@);
            } else if s[q] == '!' {
                assert(t =~= "!="@);
            } else if s[q] == '<' {
                assert(t =~= "<="@);
            } else if s[q] == '>' {
                assert(t =~= ">="@);
            }
        }
    }
    if 0 <= q && q + 1 <= s.len() {
        let t = s.subrange(q, q + 1);
        assert(t =~= seq![s[q]]);
        if s[q] == '<' {
            assert(t =~= "<"@);
        } else if s[q] == '>' {
            assert(t =~= ">"@);
        }
    }
    match comparison_op_at(s, q) {
        Some((op, n)) => {
            if n == 2 {
                assert(s.subrange(q, q + 2) =~= comparison_symbol(op));
            } else {
                assert(s.subrange(q, q + 1) =~= comparison_symbol(op));
            }
        },
        None => {},
    }
}

pub proof fn lemma_ws_bounds(s: Seq<char>, i: int)
    requires
        0 <= i <= s.len(),
    ensures
        i <= ws(s, i) <= s.len(),
    decreases s.len() - i,
{
    if i < s.len() && spec_is_whitespace(s[i]) {
        lemma_ws_bounds(s, i + 1);
    }
}

pub proof fn lemma_ident_end_bounds(s: Seq<char>, i: int)
    requires
        0 <= i <= s.len(),
    ensures
        i <= ident_end(s, i) <= s.len(),
    decreases s.len() - i,
{
    if i < s.len() && is_ident_char(s[i]) {
        lemma_ident_end_bounds(s, i + 1);
    }
}

pub proof fn lemma_dots_bounds(s: Seq<char>, i: int, path: Seq<Seq<char>>)
    requires
        0 <= i <= s.len(),
    ensures
        p_dots(s, i, path) matches Ok((pp, q)) ==> i <= q <= s.len() && pp.len() >= path.len(),
    decreases s.len() - i,
{
    lemma_ws_bounds(s, i);
    let q = ws(s, i);
    if at(s, q, "."@) {
        if let Ok((id, e)) = p_ident(s, q + 1) {
            lemma_ident_end_bounds(s, q + 2);
            lemma_dots_bounds(s, e, path.push(id));
        }
    }
}

/// One step of `p_path_rest` once its dotted segments are known.
pub proof fn lemma_path_rest_step(s: Seq<char>, start: int, init: Seq<Seq<char>>)
    requires
        0 <= start <= s.len(),
    ensures
        p_path_rest(s, start, init) == match p_dots(s, start, init) {
            Err(err) => Err(err),
            Ok((path, q3)) => {
                let q4 = ws(s, q3);
                let rest = path.drop_last();
                if at(s, q4, "("@) {
                    p_call(
                        s,
                        q4,
                        path.last(),
                        if rest.len() == 0 {
                            SpecExpr::Literal(SpecLiteral::Str("self"@))
                        } else {
                            SpecExpr::FieldAccess(rest)
                        },
                    )
                } else {
                    Ok((SpecExpr::FieldAccess(path), q4))
                }
            },
        },
        p_shared_rest(s, start, init) == match p_dots(s, start, init) {
            Err(err) => Err(err),
            Ok((sp, q3)) => {
                let q4 = ws(s, q3);
                if at(s, q4, "("@) {
                    p_call(s, q4, sp.last(), SpecExpr::SharedFieldAccess(sp.drop_last()))
                } else {
                    Ok((SpecExpr::SharedFieldAccess(sp), q4))
                }
            },
        },
{
}

// ---------------------------------------------------------------------------
// Lemmas used by the executable parser
// ---------------------------------------------------------------------------

proof fn lemma_scan_float_stays(s: Seq<char>, i: int)
    ensures
        scan_number(s, i, true).1,
    decreases s.len() - i,
{
    if 0 <= i < s.len() && is_ascii_digit_spec(s[i]) {
        lemma_scan_float_stays(s, i + 1);
    }
}

proof fn lemma_scan_number_digits(s: Seq<char>, i: int, j0: int)
    requires
        0 <= j0 <= i <= s.len(),
        forall|k: int| j0 <= k < i ==> is_ascii_digit_spec(#[trigger] s[k]),
        !scan_number(s, i, false).1,
    ensures
        forall|k: int|
            j0 <= k < scan_number(s, i, false).0 ==> is_ascii_digit_spec(#[trigger] s[k]),
        i <= scan_number(s, i, false).0 <= s.len(),
    decreases s.len() - i,
{
    if i < s.len() && is_ascii_digit_spec(s[i]) {
        lemma_scan_number_digits(s, i + 1, j0);
    } else if i < s.len() && s[i] == '.' {
        lemma_scan_float_stays(s, i + 1);
    }
}

proof fn lemma_scan_number_bounds(s: Seq<char>, i: int, f: bool)
    requires
        0 <= i <= s.len(),
    ensures
        i <= scan_number(s, i, f).0 <= s.len(),
    decreases s.len() - i,
{
    if i < s.len() && is_ascii_digit_spec(s[i]) {
        lemma_scan_number_bounds(s, i + 1, f);
    } else if i < s.len() && s[i] == '.' && !f {
        lemma_scan_number_bounds(s, i + 1, true);
    }
}

proof fn lemma_scan_string_bounds(s: Seq<char>, q: char, i: int, acc: Seq<char>)
    requires
        0 <= i <= s.len(),
    ensures
        i <= scan_string(s, q, i, acc).1 <= s.len(),
    decreases s.len() - i,
{
    if i < s.len() && s[i] != q && s[i] == '\\' && i + 1 < s.len() {
        lemma_scan_string_bounds(s, q, i + 2, acc.push(s[i + 1]));
    } else if i < s.len() && s[i] != q && s[i] != '\\' {
        lemma_scan_string_bounds(s, q, i + 1, acc.push(s[i]));
    }
}

proof fn lemma_ws_idem(s: Seq<char>, i: int)
    requires
        0 <= i <= s.len(),
    ensures
        ws(s, ws(s, i)) == ws(s, i),
    decreases s.len() - i,
{
    if i < s.len() && spec_is_whitespace(s[i]) {
        lemma_ws_idem(s, i + 1);
    }
}

// ---------------------------------------------------------------------------
// The executable parser
// ---------------------------------------------------------------------------

/// A parse error, as the parser builds it.
pub enum TokenizeError {
    UnexpectedCharacter(usize),
    ExpectedIdentifier,
    ExpectedIdentifierGot(char),
    Expected(String),
    ExpectedKeyword(String),
    InvalidInteger(String),
    InvalidFloat,
}

impl View for TokenizeError {
    type V = TokError;

    open spec fn view(&self) -> TokError {
        match self {
            TokenizeError::UnexpectedCharacter(j) => TokError::UnexpectedCharacter(*j as int),
            TokenizeError::ExpectedIdentifier => TokError::ExpectedIdentifier,
            TokenizeError::ExpectedIdentifierGot(c) => TokError::ExpectedIdentifierGot(*c),
            TokenizeError::Expected(l) => TokError::Expected(l@),
            TokenizeError::ExpectedKeyword(k) => TokError::ExpectedKeyword(k@),
            TokenizeError::InvalidInteger(d) => TokError::InvalidInteger(d@),
            TokenizeError::InvalidFloat => TokError::InvalidFloat,
        }
    }
}

/// The executable result agrees with the grammar's result from the same start.
pub open spec fn agrees(res: Result<Expr, TokenizeError>, spec: PRes, pos: int) -> bool {
    match res {
        Ok(e) => spec == Ok::<(SpecExpr, int), TokError>((e@, pos)),
        Err(err) => spec == Err::<(SpecExpr, int), TokError>(err@),
    }
}

/// Copies `v[a..b]` into a `String`.
fn chars_between(v: &Vec<char>, a: usize, b: usize) -> (res: String)
    requires
        a <= b <= v.len(),
    ensures
        res@ == v@.subrange(a as int, b as int),
{
    let mut out: Vec<char> = Vec::new();
    let mut k: usize = a;
    while k < b
        invariant
            a <= k <= b <= v.len(),
            out@ == v@.subrange(a as int, k as int),
        decreases b - k,
    {
        out.push(v[k]);
        k = k + 1;
    }
    string_from_chars(out.as_slice())
}

struct ExprParser {
    input: Vec<char>,
    pos: usize,
    start_pos: usize,
    line: u32,
    column: u32,
}

impl ExprParser {
    fn new(input: &str, start_pos: usize, line: u32, column: u32) -> (res: ExprParser)
        ensures
            res.input@ == input@,
            res.pos == 0,
            res.wf(),
    {
        let chars = str_chars(input);
        let _n = chars.len();
        ExprParser { input: chars, pos: 0, start_pos, line, column }
    }

    spec fn wf(&self) -> bool {
        &&& self.pos <= self.input@.len()
        &&& self.input@.len() <= usize::MAX
    }

    fn peek_str(&self, lit: &str) -> (res: bool)
        requires
            self.wf(),
        ensures
            res == at(self.input@, self.pos as int, lit@),
    {
        let l = str_chars(lit);
        if l.len() > self.input.len() - self.pos {
            return false;
        }
        let mut k: usize = 0;
        while k < l.len()
            invariant
                self.wf(),
                l.len() <= self.input.len() - self.pos,
                k <= l.len(),
                l@ == lit@,
                forall|m: int| 0 <= m < k ==> self.input@[self.pos + m] == l@[m],
            decreases l.len() - k,
        {
            if self.input[self.pos + k] != l[k] {
                assert(self.input@.subrange(self.pos as int, self.pos + l.len())[k as int]
                    != lit@[k as int]);
                return false;
            }
            k = k + 1;
        }
        assert(self.input@.subrange(self.pos as int, self.pos + l.len()) =~= lit@);
        true
    }

    fn peek_keyword(&self, keyword: &str) -> (res: bool)
        requires
            self.wf(),
        ensures
            res == at_keyword(self.input@, self.pos as int, keyword@),
    {
        if !self.peek_str(keyword) {
            return false;
        }
        let n = crate::text::str_chars(keyword).len();
        if self.pos + n == self.input.len() {
            true
        } else {
            let c = self.input[self.pos + n];
            !(char_is_alphanumeric(c) || c == '_')
        }
    }

    fn peek_digit(&self) -> (res: bool)
        requires
            self.wf(),
        ensures
            res == (self.pos < self.input@.len() && is_ascii_digit_spec(
                self.input@[self.pos as int],
            )),
    {
        self.pos < self.input.len() && is_ascii_digit(self.input[self.pos])
    }

    fn peek_alpha(&self) -> (res: bool)
        requires
            self.wf(),
        ensures
            res == (self.pos < self.input@.len() && spec_is_alphabetic(
                self.input@[self.pos as int],
            )),
    {
        self.pos < self.input.len() && char_is_alphabetic(self.input[self.pos])
    }

    fn consume_str(&mut self, lit: &str) -> (res: Result<(), TokenizeError>)
        requires
            old(self).wf(),
        ensures
            final(self).wf(),
            final(self).input == old(self).input,
            at(old(self).input@, old(self).pos as int, lit@) ==> res is Ok && final(self).pos
                == old(self).pos + lit@.len(),
            !at(old(self).input@, old(self).pos as int, lit@) ==> (res matches Err(e) && e@
                == TokError::Expected(lit@)),
    {
        if self.peek_str(lit) {
            let n = str_chars(lit).len();
            self.pos = self.pos + n;
            Ok(())
        } else {
            Err(TokenizeError::Expected(to_owned_string(lit)))
        }
    }

    fn consume_keyword(&mut self, keyword: &str) -> (res: Result<(), TokenizeError>)
        requires
            old(self).wf(),
        ensures
            final(self).wf(),
            final(self).input == old(self).input,
            at_keyword(old(self).input@, old(self).pos as int, keyword@) ==> res is Ok
                && final(self).pos == old(self).pos + keyword@.len(),
            !at_keyword(old(self).input@, old(self).pos as int, keyword@) ==> (res matches Err(e)
                && e@ == TokError::ExpectedKeyword(keyword@)),
    {
        if self.peek_keyword(keyword) {
            let n = str_chars(keyword).len();
            self.pos = self.pos + n;
            Ok(())
        } else {
            Err(TokenizeError::ExpectedKeyword(to_owned_string(keyword)))
        }
    }

    fn skip_whitespace(&mut self)
        requires
            old(self).wf(),
        ensures
            final(self).wf(),
            final(self).input == old(self).input,
            final(self).pos == ws(old(self).input@, old(self).pos as int),
            old(self).pos <= final(self).pos,
    {
        while self.pos < self.input.len() && char_is_whitespace(self.input[self.pos])
            invariant
                self.wf(),
                self.input == old(self).input,
                ws(self.input@, old(self).pos as int) == ws(self.input@, self.pos as int),
                old(self).pos <= self.pos,
            decreases self.input@.len() - self.pos,
        {
            self.pos = self.pos + 1;
        }
    }

    fn parse_identifier(&mut self) -> (res: Result<String, TokenizeError>)
        requires
            old(self).wf(),
        ensures
            final(self).wf(),
            final(self).input == old(self).input,
            match res {
                Ok(id) => p_ident(old(self).input@, old(self).pos as int) == Ok::<
                    (Seq<char>, int),
                    TokError,
                >((id@, final(self).pos as int)),
                Err(e) => p_ident(old(self).input@, old(self).pos as int) == Err::<
                    (Seq<char>, int),
                    TokError,
                >(e@),
            },
            res is Ok ==> old(self).pos < final(self).pos,
    {
        if self.pos >= self.input.len() {
            return Err(TokenizeError::ExpectedIdentifier);
        }
        let first = self.input[self.pos];
        if !(char_is_alphabetic(first) || first == '_') {
            return Err(TokenizeError::ExpectedIdentifierGot(first));
        }
        let start = self.pos;
        self.pos = self.pos + 1;
        while self.pos < self.input.len() && (char_is_alphanumeric(self.input[self.pos])
            || self.input[self.pos] == '_')
            invariant
                self.wf(),
                self.input == old(self).input,
                start == old(self).pos,
                start < self.pos,
                ident_end(self.input@, start + 1) == ident_end(self.input@, self.pos as int),
            decreases self.input@.len() - self.pos,
        {
            self.pos = self.pos + 1;
        }
        Ok(chars_between(&self.input, start, self.pos))
    }

    fn parse_string_literal(&mut self) -> (res: Result<Expr, TokenizeError>)
        requires
            old(self).wf(),
            at(old(self).input@, old(self).pos as int, "\""@) || at(
                old(self).input@,
                old(self).pos as int,
                "'"@,
            ),
        ensures
            final(self).wf(),
            final(self).input == old(self).input,
            ({
                let s = old(self).input@;
                let j = old(self).pos as int;
                let quote = if at(s, j, "\""@) {
                    '"'
                } else {
                    '\''
                };
                let (v, e) = scan_string(s, quote, j + 1, seq![]);
                res matches Ok(x) && x@ == SpecExpr::Literal(SpecLiteral::Str(v))
                    && final(self).pos == e
            }),
            old(self).pos < final(self).pos,
    {
        proof {
            reveal_strlit("\"");
            reveal_strlit("'");
        }
        let ghost s = self.input@;
        let ghost j = self.pos as int;
        let quote: char = if self.peek_str("\"") {
            '"'
        } else {
            '\''
        };
        assert(self.pos < self.input.len());
        self.pos = self.pos + 1;
        let mut value: Vec<char> = Vec::new();
        proof {
            lemma_scan_string_bounds(s, quote, j + 1, seq![]);
        }
        while self.pos < self.input.len()
            invariant_except_break
                scan_string(s, quote, j + 1, seq![]) == scan_string(
                    s,
                    quote,
                    self.pos as int,
                    value@,
                ),
            invariant
                self.wf(),
                self.input@ == s,
                self.input == old(self).input,
                j < self.pos,
            ensures
                scan_string(s, quote, j + 1, seq![]) == (value@, self.pos as int),
            decreases self.input@.len() - self.pos,
        {
            let c = self.input[self.pos];
            if c == quote {
                self.pos = self.pos + 1;
                break ;
            }
            if c == '\\' {
                self.pos = self.pos + 1;
                if self.pos < self.input.len() {
                    let next = self.input[self.pos];
                    value.push(next);
                    self.pos = self.pos + 1;
                }
            } else {
                value.push(c);
                self.pos = self.pos + 1;
            }
        }
        let v = string_from_chars(value.as_slice());
        Ok(Expr::Literal(LiteralExpr::String(v)))
    }

    fn parse_number_literal(&mut self) -> (res: Result<Expr, TokenizeError>)
        requires
            old(self).wf(),
            old(self).pos < old(self).input@.len(),
        ensures
            final(self).wf(),
            final(self).input == old(self).input,
            agrees(res, p_number(old(self).input@, old(self).pos as int), final(self).pos as int),
            res is Ok ==> old(self).pos < final(self).pos,
    {
        proof {
            reveal_strlit("-");
        }
        let ghost s = self.input@;
        let start = self.pos;
        let mut is_float = false;
        if self.peek_str("-") {
            self.pos = self.pos + 1;
        }
        let j0 = self.pos;
        proof {
            lemma_scan_number_bounds(s, j0 as int, false);
        }
        while self.pos < self.input.len()
            invariant
                self.wf(),
                self.input@ == s,
                self.input == old(self).input,
                j0 <= self.pos,
                !is_float ==> forall|k: int|
                    j0 <= k < self.pos ==> is_ascii_digit_spec(#[trigger] s[k]),
                scan_number(s, j0 as int, false) == scan_number(s, self.pos as int, is_float),
            ensures
                scan_number(s, self.pos as int, is_float) == (self.pos as int, is_float),
            decreases self.input@.len() - self.pos,
        {
            let c = self.input[self.pos];
            if is_ascii_digit(c) {
                self.pos = self.pos + 1;
            } else if c == '.' && !is_float {
                is_float = true;
                self.pos = self.pos + 1;
            } else {
                break ;
            }
        }
        let ghost text = s.subrange(start as int, self.pos as int);
        if is_float {
            let mut k: usize = start;
            let mut found = false;
            while k < self.pos
                invariant
                    start <= k <= self.pos <= self.input@.len(),
                    self.input@ == s,
                    text == s.subrange(start as int, self.pos as int),
                    found == exists|m: int| 0 <= m < k - start && is_ascii_digit_spec(#[trigger] text[m]),
                decreases self.pos - k,
            {
                if is_ascii_digit(self.input[k]) {
                    assert(is_ascii_digit_spec(text[k - start]));
                    found = true;
                }
                k = k + 1;
            }
            if found {
                let t = chars_between(&self.input, start, self.pos);
                assert(start < self.pos);
                Ok(Expr::Literal(LiteralExpr::Float(t)))
            } else {
                Err(TokenizeError::InvalidFloat)
            }
        } else {
            proof {
                lemma_scan_number_digits(s, j0 as int, j0 as int);
            }
            let neg = j0 > start;
            let limit: u128 = if neg {
                9223372036854775808u128
            } else {
                9223372036854775807u128
            };
            proof {
                if neg {
                    assert(text.drop_first() =~= self.input@.subrange(j0 as int, self.pos as int));
                } else {
                    assert(text =~= self.input@.subrange(j0 as int, self.pos as int));
                }
            }
            let body = chars_between(&self.input, j0, self.pos);
            let body_chars = str_chars(body.as_str());
            assert(body_chars@.skip(0) =~= body_chars@);
            match parse_digits(body_chars.as_slice(), 0, limit) {
                Some(v) => {
                    let value: i64 = if neg {
                        if v == 9223372036854775808u128 {
                            i64::MIN
                        } else {
                            0i64 - (v as i64)
                        }
                    } else {
                        v as i64
                    };
                    Ok(Expr::Literal(LiteralExpr::Integer(value)))
                },
                None => {
                    if body_chars.len() == 0 {
                        Err(
                            TokenizeError::InvalidInteger(
                                to_owned_string("invalid digit found in string"),
                            ),
                        )
                    } else if neg {
                        Err(
                            TokenizeError::InvalidInteger(
                                to_owned_string("number too small to fit in target type"),
                            ),
                        )
                    } else {
                        Err(
                            TokenizeError::InvalidInteger(
                                to_owned_string("number too large to fit in target type"),
                            ),
                        )
                    }
                },
            }
        }
    }

    fn parse(&mut self) -> (res: Result<Expr, TokenizeError>)
        requires
            old(self).wf(),
        ensures
            final(self).wf(),
            final(self).input == old(self).input,
            agrees(res, p_expr(old(self).input@, old(self).pos as int), final(self).pos as int),
            res is Ok ==> old(self).pos < final(self).pos,
        decreases old(self).input@.len() - old(self).pos, 20nat,
    {
        proof {
            assert(p_expr(self.input@, self.pos as int) == p_cond(self.input@, self.pos as int));
        }
        let r = self.parse_conditional();
        assert(agrees(r, p_cond(old(self).input@, old(self).pos as int), self.pos as int));
        r
    }

    fn parse_conditional(&mut self) -> (res: Result<Expr, TokenizeError>)
        requires
            old(self).wf(),
        ensures
            final(self).wf(),
            final(self).input == old(self).input,
            agrees(res, p_cond(old(self).input@, old(self).pos as int), final(self).pos as int),
            res is Ok ==> old(self).pos < final(self).pos,
        decreases old(self).input@.len() - old(self).pos, 19nat,
    {
        proof {
            reveal_strlit("if");
            reveal_strlit("then");
            reveal_strlit("else");
        }
        let ghost s = self.input@;
        let ghost i0 = self.pos as int;
        self.skip_whitespace();
        if self.peek_keyword("if") {
            let _ = self.consume_keyword("if");
            self.skip_whitespace();
            let condition = match self.parse_or() {
                Ok(c) => c,
                Err(e) => return Err(e),
            };
            self.skip_whitespace();
            match self.consume_keyword("then") {
                Ok(()) => {},
                Err(e) => return Err(e),
            }
            self.skip_whitespace();
            let then_branch = match self.parse() {
                Ok(t) => t,
                Err(e) => return Err(e),
            };
            self.skip_whitespace();
            match self.consume_keyword("else") {
                Ok(()) => {},
                Err(e) => return Err(e),
            }
            self.skip_whitespace();
            let else_branch = match self.parse() {
                Ok(t) => t,
                Err(e) => return Err(e),
            };
            return Ok(
                Expr::Conditional(
                    ConditionalExpr {
                        condition: Box::new(condition),
                        then_branch: Box::new(then_branch),
                        else_branch: Box::new(else_branch),
                    },
                ),
            );
        }
        self.parse_or()
    }

    fn parse_or(&mut self) -> (res: Result<Expr, TokenizeError>)
        requires
            old(self).wf(),
        ensures
            final(self).wf(),
            final(self).input == old(self).input,
            agrees(res, p_or(old(self).input@, old(self).pos as int), final(self).pos as int),
            res is Ok ==> old(self).pos < final(self).pos,
        decreases old(self).input@.len() - old(self).pos, 18nat,
    {
        let left = match self.parse_and() {
            Ok(l) => l,
            Err(e) => return Err(e),
        };
        self.parse_or_tail(left)
    }

    /// The operators and operands that follow `left` at this level.
    fn parse_or_tail(&mut self, left: Expr) -> (res: Result<Expr, TokenizeError>)
        requires
            old(self).wf(),
        ensures
            final(self).wf(),
            final(self).input == old(self).input,
            agrees(res, p_or_tail(old(self).input@, left@, old(self).pos as int), final(self).pos as int),
            res is Ok ==> old(self).pos <= final(self).pos,
        decreases old(self).input@.len() - old(self).pos, 17nat,
    {
        proof {
            reveal_strlit("||");
        }
        self.skip_whitespace();
        if self.peek_str("||") {
            self.pos = self.pos + 2;
            self.skip_whitespace();
            let right = match self.parse_and() {
                Ok(r) => r,
                Err(e) => return Err(e),
            };
            let left = Expr::BinaryOp(
                BinaryOpExpr { left: Box::new(left), op: BinaryOp::Or, right: Box::new(right) },
            );
            self.parse_or_tail(left)
        } else {
            Ok(left)
        }
    }

    fn parse_and(&mut self) -> (res: Result<Expr, TokenizeError>)
        requires
            old(self).wf(),
        ensures
            final(self).wf(),
            final(self).input == old(self).input,
            agrees(res, p_and(old(self).input@, old(self).pos as int), final(self).pos as int),
            res is Ok ==> old(self).pos < final(self).pos,
        decreases old(self).input@.len() - old(self).pos, 16nat,
    {
        let left = match self.parse_comparison() {
            Ok(l) => l,
            Err(e) => return Err(e),
        };
        self.parse_and_tail(left)
    }

    /// The operators and operands that follow `left` at this level.
    fn parse_and_tail(&mut self, left: Expr) -> (res: Result<Expr, TokenizeError>)
        requires
            old(self).wf(),
        ensures
            final(self).wf(),
            final(self).input == old(self).input,
            agrees(res, p_and_tail(old(self).input@, left@, old(self).pos as int), final(self).pos as int),
            res is Ok ==> old(self).pos <= final(self).pos,
        decreases old(self).input@.len() - old(self).pos, 15nat,
    {
        proof {
            reveal_strlit("&&");
        }
        self.skip_whitespace();
        if self.peek_str("&&") {
            self.pos = self.pos + 2;
            self.skip_whitespace();
            let right = match self.parse_comparison() {
                Ok(r) => r,
                Err(e) => return Err(e),
            };
            let left = Expr::BinaryOp(
                BinaryOpExpr { left: Box::new(left), op: BinaryOp::And, right: Box::new(right) },
            );
            self.parse_and_tail(left)
        } else {
            Ok(left)
        }
    }

    /// The comparison operator at the current position, with its text.
    fn comparison_operator(&self) -> (res: Option<(BinaryOp, &'static str)>)
        requires
            self.wf(),
        ensures
            match comparison_op_at(self.input@, self.pos as int) {
                Some((op, n)) => res matches Some((o, t)) && o == op && t@.len() == n && at(
                    self.input@,
                    self.pos as int,
                    t@,
                ),
                None => res is None,
            },
    {
        proof {
            reveal_strlit("==");
            reveal_strlit("!=");
            reveal_strlit("<=");
            reveal_strlit(">=");
            reveal_strlit("<");
            reveal_strlit(">");
        }
        if self.peek_str("==") {
            Some((BinaryOp::Eq, "=="))
        } else if self.peek_str("!=") {
            Some((BinaryOp::Ne, "!="))
        } else if self.peek_str("<=") {
            Some((BinaryOp::Le, "<="))
        } else if self.peek_str(">=") {
            Some((BinaryOp::Ge, ">="))
        } else if self.peek_str("<") {
            Some((BinaryOp::Lt, "<"))
        } else if self.peek_str(">") {
            Some((BinaryOp::Gt, ">"))
        } else {
            None
        }
    }

    fn parse_comparison(&mut self) -> (res: Result<Expr, TokenizeError>)
        requires
            old(self).wf(),
        ensures
            final(self).wf(),
            final(self).input == old(self).input,
            agrees(res, p_comparison(old(self).input@, old(self).pos as int), final(self).pos as int),
            res is Ok ==> old(self).pos < final(self).pos,
        decreases old(self).input@.len() - old(self).pos, 14nat,
    {
        let left = match self.parse_additive() {
            Ok(l) => l,
            Err(e) => return Err(e),
        };
        self.parse_comparison_tail(left)
    }

    /// The operators and operands that follow `left` at this level.
    fn parse_comparison_tail(&mut self, left: Expr) -> (res: Result<Expr, TokenizeError>)
        requires
            old(self).wf(),
        ensures
            final(self).wf(),
            final(self).input == old(self).input,
            agrees(res, p_comparison_tail(old(self).input@, left@, old(self).pos as int), final(self).pos as int),
            res is Ok ==> old(self).pos <= final(self).pos,
        decreases old(self).input@.len() - old(self).pos, 13nat,
    {
        self.skip_whitespace();
        match self.comparison_operator() {
            Some((op, token)) => {
                proof {
                    lemma_comparison_op_len(self.input@, self.pos as int);
                }
                self.pos = self.pos + token.unicode_len();
                self.skip_whitespace();
                let right = match self.parse_additive() {
                    Ok(r) => r,
                    Err(e) => return Err(e),
                };
                let left = Expr::BinaryOp(
                    BinaryOpExpr { left: Box::new(left), op, right: Box::new(right) },
                );
                self.parse_comparison_tail(left)
            },
            None => Ok(left),
        }
    }

    fn parse_additive(&mut self) -> (res: Result<Expr, TokenizeError>)
        requires
            old(self).wf(),
        ensures
            final(self).wf(),
            final(self).input == old(self).input,
            agrees(res, p_add(old(self).input@, old(self).pos as int), final(self).pos as int),
            res is Ok ==> old(self).pos < final(self).pos,
        decreases old(self).input@.len() - old(self).pos, 12nat,
    {
        let left = match self.parse_multiplicative() {
            Ok(l) => l,
            Err(e) => return Err(e),
        };
        self.parse_additive_tail(left)
    }

    /// The operators and operands that follow `left` at this level.
    fn parse_additive_tail(&mut self, left: Expr) -> (res: Result<Expr, TokenizeError>)
        requires
            old(self).wf(),
        ensures
            final(self).wf(),
            final(self).input == old(self).input,
            agrees(res, p_add_tail(old(self).input@, left@, old(self).pos as int), final(self).pos as int),
            res is Ok ==> old(self).pos <= final(self).pos,
        decreases old(self).input@.len() - old(self).pos, 11nat,
    {
        proof {
            reveal_strlit("+");
            reveal_strlit("-");
            reveal_strlit("*");
            reveal_strlit("/");
        }
        self.skip_whitespace();
        let op = if self.peek_str("+") {
            BinaryOp::Add
        } else if self.peek_str("-") {
            BinaryOp::Sub
        } else {
            return Ok(left);
        };
        self.pos = self.pos + 1;
        self.skip_whitespace();
        let right = match self.parse_multiplicative() {
            Ok(r) => r,
            Err(e) => return Err(e),
        };
        let left = Expr::BinaryOp(BinaryOpExpr { left: Box::new(left), op, right: Box::new(right) });
        self.parse_additive_tail(left)
    }

    fn parse_multiplicative(&mut self) -> (res: Result<Expr, TokenizeError>)
        requires
            old(self).wf(),
        ensures
            final(self).wf(),
            final(self).input == old(self).input,
            agrees(res, p_mul(old(self).input@, old(self).pos as int), final(self).pos as int),
            res is Ok ==> old(self).pos < final(self).pos,
        decreases old(self).input@.len() - old(self).pos, 10nat,
    {
        let left = match self.parse_unary() {
            Ok(l) => l,
            Err(e) => return Err(e),
        };
        self.parse_multiplicative_tail(left)
    }

    /// The operators and operands that follow `left` at this level.
    fn parse_multiplicative_tail(&mut self, left: Expr) -> (res: Result<Expr, TokenizeError>)
        requires
            old(self).wf(),
        ensures
            final(self).wf(),
            final(self).input == old(self).input,
            agrees(res, p_mul_tail(old(self).input@, left@, old(self).pos as int), final(self).pos as int),
            res is Ok ==> old(self).pos <= final(self).pos,
        decreases old(self).input@.len() - old(self).pos, 9nat,
    {
        proof {
            reveal_strlit("+");
            reveal_strlit("-");
            reveal_strlit("*");
            reveal_strlit("/");
        }
        self.skip_whitespace();
        let op = if self.peek_str("*") {
            BinaryOp::Mul
        } else if self.peek_str("/") {
            BinaryOp::Div
        } else {
            return Ok(left);
        };
        self.pos = self.pos + 1;
        self.skip_whitespace();
        let right = match self.parse_unary() {
            Ok(r) => r,
            Err(e) => return Err(e),
        };
        let left = Expr::BinaryOp(BinaryOpExpr { left: Box::new(left), op, right: Box::new(right) });
        self.parse_multiplicative_tail(left)
    }

    fn parse_unary(&mut self) -> (res: Result<Expr, TokenizeError>)
        requires
            old(self).wf(),
        ensures
            final(self).wf(),
            final(self).input == old(self).input,
            agrees(res, p_unary(old(self).input@, old(self).pos as int), final(self).pos as int),
            res is Ok ==> old(self).pos < final(self).pos,
        decreases old(self).input@.len() - old(self).pos, 8nat,
    {
        proof {
            reveal_strlit("!");
            reveal_strlit("-");
        }
        self.skip_whitespace();
        if self.peek_str("!") {
            self.pos = self.pos + 1;
            let operand = match self.parse_unary() {
                Ok(o) => o,
                Err(e) => return Err(e),
            };
            return Ok(Expr::UnaryOp(UnaryOpExpr { op: UnaryOp::Not, operand: Box::new(operand) }));
        } else if self.peek_str("-") {
            self.pos = self.pos + 1;
            let operand = match self.parse_unary() {
                Ok(o) => o,
                Err(e) => return Err(e),
            };
            return Ok(Expr::UnaryOp(UnaryOpExpr { op: UnaryOp::Neg, operand: Box::new(operand) }));
        }
        self.parse_primary()
    }

    fn parse_primary(&mut self) -> (res: Result<Expr, TokenizeError>)
        requires
            old(self).wf(),
        ensures
            final(self).wf(),
            final(self).input == old(self).input,
            agrees(res, p_primary(old(self).input@, old(self).pos as int), final(self).pos as int),
            res is Ok ==> old(self).pos < final(self).pos,
        decreases old(self).input@.len() - old(self).pos, 7nat,
    {
        proof {
            reveal_strlit("\"");
            reveal_strlit("'");
            reveal_strlit("-");
            reveal_strlit("true");
            reveal_strlit("false");
            reveal_strlit("_");
            reveal_strlit("(");
            reveal_strlit(")");
        }
        let ghost s = self.input@;
        self.skip_whitespace();
        if self.peek_str("\"") || self.peek_str("'") {
            return self.parse_string_literal();
        }
        if self.peek_digit() || self.peek_str("-") {
            return self.parse_number_literal();
        }
        if self.peek_keyword("true") {
            self.pos = self.pos + 4;
            return Ok(Expr::Literal(LiteralExpr::Bool(true)));
        }
        if self.peek_keyword("false") {
            self.pos = self.pos + 5;
            return Ok(Expr::Literal(LiteralExpr::Bool(false)));
        }
        if self.peek_alpha() || self.peek_str("_") {
            return self.parse_field_or_method();
        }
        if self.peek_str("(") {
            self.pos = self.pos + 1;
            let expr = match self.parse() {
                Ok(e) => e,
                Err(e) => return Err(e),
            };
            self.skip_whitespace();
            match self.consume_str(")") {
                Ok(()) => {},
                Err(e) => return Err(e),
            }
            return Ok(expr);
        }
        Err(TokenizeError::UnexpectedCharacter(self.pos))
    }

    /// Arguments after `(` up to the closing parenthesis (left unconsumed),
    /// appended to those already in `args`.
    fn parse_arguments(&mut self, args: Vec<Expr>) -> (res: Result<Vec<Expr>, TokenizeError>)
        requires
            old(self).wf(),
        ensures
            final(self).wf(),
            final(self).input == old(self).input,
            match res {
                Ok(all) => p_args(old(self).input@, old(self).pos as int, exprs_view(args@))
                    == Ok::<(Seq<SpecExpr>, int), TokError>(
                    (exprs_view(all@), final(self).pos as int),
                ),
                Err(e) => p_args(old(self).input@, old(self).pos as int, exprs_view(args@))
                    == Err::<(Seq<SpecExpr>, int), TokError>(e@),
            },
            res is Ok ==> old(self).pos <= final(self).pos,
        decreases old(self).input@.len() - old(self).pos, 21nat,
    {
        proof {
            reveal_strlit(")");
            reveal_strlit(",");
        }
        let ghost s = self.input@;
        let ghost i0 = self.pos as int;
        let mut args = args;
        self.skip_whitespace();
        if self.peek_str(")") {
            return Ok(args);
        }
        let ghost q = self.pos as int;
        let arg = match self.parse() {
            Ok(a) => a,
            Err(e) => return Err(e),
        };
        let ghost a_view = arg@;
        let ghost before = args@;
        args.push(arg);
        assert(exprs_view(args@) =~= exprs_view(before).push(a_view));
        self.skip_whitespace();
        if self.peek_str(",") {
            self.pos = self.pos + 1;
            self.parse_arguments(args)
        } else {
            Ok(args)
        }
    }

    /// A call `(args)` at the current position on `receiver`.
    fn parse_call(&mut self, method: String, receiver: Expr) -> (res: Result<Expr, TokenizeError>)
        requires
            old(self).wf(),
            at(old(self).input@, old(self).pos as int, "("@),
        ensures
            final(self).wf(),
            final(self).input == old(self).input,
            agrees(
                res,
                p_call(old(self).input@, old(self).pos as int, method@, receiver@),
                final(self).pos as int,
            ),
            res is Ok ==> old(self).pos < final(self).pos,
        decreases old(self).input@.len() - old(self).pos, 22nat,
    {
        proof {
            reveal_strlit("(");
            reveal_strlit(")");
        }
        self.pos = self.pos + 1;
        let empty: Vec<Expr> = Vec::new();
        assert(exprs_view(empty@) =~= seq![]);
        let args = match self.parse_arguments(empty) {
            Ok(a) => a,
            Err(e) => return Err(e),
        };
        match self.consume_str(")") {
            Ok(()) => {},
            Err(e) => return Err(e),
        }
        proof {
            lemma_method_call_view(receiver, method, args);
        }
        let call = Expr::MethodCall(
            MethodCallExpr { receiver: Box::new(receiver), method, args },
        );
        Ok(call)
    }

    /// `(.ident)*` at the current position, appended to `path`.
    fn parse_path_tail(&mut self, path: Vec<String>) -> (res: Result<Vec<String>, TokenizeError>)
        requires
            old(self).wf(),
        ensures
            final(self).wf(),
            final(self).input == old(self).input,
            match res {
                Ok(all) => p_dots(old(self).input@, old(self).pos as int, strings_view(path@))
                    == Ok::<(Seq<Seq<char>>, int), TokError>(
                    (strings_view(all@), final(self).pos as int),
                ),
                Err(e) => p_dots(old(self).input@, old(self).pos as int, strings_view(path@))
                    == Err::<(Seq<Seq<char>>, int), TokError>(e@),
            },
            res is Ok ==> old(self).pos <= final(self).pos,
        decreases old(self).input@.len() - old(self).pos,
    {
        proof {
            reveal_strlit(".");
        }
        let mut path = path;
        self.skip_whitespace();
        if self.peek_str(".") {
            self.pos = self.pos + 1;
            let next = match self.parse_identifier() {
                Ok(n) => n,
                Err(e) => return Err(e),
            };
            let ghost before = path@;
            let ghost nv = next@;
            path.push(next);
            assert(strings_view(path@) =~= strings_view(before).push(nv));
            self.parse_path_tail(path)
        } else {
            Ok(path)
        }
    }

    /// Continues a model path whose first segments are `path`.
    #[verifier::rlimit(40)]
    fn parse_model_path_rest(&mut self, path: Vec<String>) -> (res: Result<Expr, TokenizeError>)
        requires
            old(self).wf(),
            path@.len() >= 1,
        ensures
            final(self).wf(),
            final(self).input == old(self).input,
            agrees(
                res,
                p_path_rest(old(self).input@, old(self).pos as int, strings_view(path@)),
                final(self).pos as int,
            ),
            res is Ok ==> old(self).pos <= final(self).pos,
        decreases old(self).input@.len() - old(self).pos, 23nat,
    {
        proof {
            reveal_strlit("(");
            reveal_strlit("self");
        }
        let ghost s = self.input@;
        let ghost i0 = self.pos as int;
        let ghost init = strings_view(path@);
        proof {
            lemma_path_rest_step(s, i0, init);
            lemma_dots_bounds(s, i0, init);
        }
        let mut path = match self.parse_path_tail(path) {
            Ok(p) => p,
            Err(e) => return Err(e),
        };
        self.skip_whitespace();
        if self.peek_str("(") {
            let ghost pv = strings_view(path@);
            let method = path.pop().unwrap();
            assert(strings_view(path@) =~= pv.drop_last());
            assert(method@ == pv.last());
            let receiver = if path.len() == 0 {
                Expr::Literal(LiteralExpr::String(to_owned_string("self")))
            } else {
                Expr::FieldAccess(FieldAccessExpr { path })
            };
            return self.parse_call(method, receiver);
        }
        Ok(Expr::FieldAccess(FieldAccessExpr { path }))
    }

    /// Continues a path on the shared context whose first segments are `path`.
    fn parse_shared_path_rest(&mut self, path: Vec<String>) -> (res: Result<Expr, TokenizeError>)
        requires
            old(self).wf(),
            path@.len() >= 1,
        ensures
            final(self).wf(),
            final(self).input == old(self).input,
            agrees(
                res,
                p_shared_rest(old(self).input@, old(self).pos as int, strings_view(path@)),
                final(self).pos as int,
            ),
            res is Ok ==> old(self).pos <= final(self).pos,
        decreases old(self).input@.len() - old(self).pos, 23nat,
    {
        proof {
            reveal_strlit("(");
        }
        let ghost s = self.input@;
        let ghost i0 = self.pos as int;
        let ghost init = strings_view(path@);
        proof {
            lemma_path_rest_step(s, i0, init);
            lemma_dots_bounds(s, i0, init);
        }
        let mut path = match self.parse_path_tail(path) {
            Ok(p) => p,
            Err(e) => return Err(e),
        };
        self.skip_whitespace();
        if self.peek_str("(") {
            let ghost pv = strings_view(path@);
            let method = path.pop().unwrap();
            assert(strings_view(path@) =~= pv.drop_last());
            assert(method@ == pv.last());
            let receiver = Expr::SharedFieldAccess(SharedFieldAccessExpr { path });
            return self.parse_call(method, receiver);
        }
        Ok(Expr::SharedFieldAccess(SharedFieldAccessExpr { path }))
    }

    fn parse_field_or_method(&mut self) -> (res: Result<Expr, TokenizeError>)
        requires
            old(self).wf(),
        ensures
            final(self).wf(),
            final(self).input == old(self).input,
            agrees(res, p_field(old(self).input@, old(self).pos as int), final(self).pos as int),
            res is Ok ==> old(self).pos < final(self).pos,
        decreases old(self).input@.len() - old(self).pos, 6nat,
    {
        proof {
            reveal_strlit(".");
            reveal_strlit("shared");
        }
        let ident = match self.parse_identifier() {
            Ok(id) => id,
            Err(e) => return Err(e),
        };
        let is_shared = crate::text::str_eq(ident.as_str(), "shared");
        if is_shared {
            self.skip_whitespace();
            if self.peek_str(".") {
                self.pos = self.pos + 1;
                let first_field = match self.parse_identifier() {
                    Ok(f) => f,
                    Err(e) => return Err(e),
                };
                let mut shared_path: Vec<String> = Vec::new();
                let ghost fv = first_field@;
                shared_path.push(first_field);
                assert(strings_view(shared_path@) =~= seq![fv]);
                return self.parse_shared_path_rest(shared_path);
            }
        }
        let mut path: Vec<String> = Vec::new();
        let ghost iv = ident@;
        path.push(ident);
        assert(strings_view(path@) =~= seq![iv]);
        self.parse_model_path_rest(path)
    }

    /// The message for an error of this parser's input.
    fn render(&self, err: TokenizeError) -> (res: String)
        ensures
            res@ == render_error(self.input@, err@),
    {
        match err {
            TokenizeError::UnexpectedCharacter(j) => {
                let jj = if j <= self.input.len() {
                    j
                } else {
                    self.input.len()
                };
                let b = byte_offset(&self.input, jj);
                let digits = crate::text::u128_to_decimal(b);
                crate::text::concat2("Unexpected character at position ", digits.as_str())
            },
            TokenizeError::ExpectedIdentifier => to_owned_string("Expected identifier"),
            TokenizeError::ExpectedIdentifierGot(c) => {
                let cs = vec![c];
                let cstr = string_from_chars(cs.as_slice());
                crate::text::concat3("Expected identifier, got '", cstr.as_str(), "'")
            },
            TokenizeError::Expected(l) => crate::text::concat3("Expected '", l.as_str(), "'"),
            TokenizeError::ExpectedKeyword(k) => crate::text::concat3(
                "Expected keyword '",
                k.as_str(),
                "'",
            ),
            TokenizeError::InvalidInteger(d) => crate::text::concat2("Invalid integer: ", d.as_str()),
            TokenizeError::InvalidFloat => to_owned_string("Invalid float: invalid float literal"),
        }
    }
}

/// Parses a binding expression. `start_pos`, `line` and `column` locate
/// `input` in its document; the span covers the whole input in bytes.
/// Input after the first complete expression is not examined.
pub fn tokenize_binding_expr(input: &str, start_pos: usize, line: u32, column: u32) -> (res: Result<
    BindingExpr,
    String,
>)
    requires
        start_pos + utf8_prefix_len(input@, input@.len() as int) <= usize::MAX,
    ensures
        match spec_tokenize(input@) {
            Ok(e) => res matches Ok(b) && b.expr@ == e && b.span == (Span {
                start: start_pos,
                end: (start_pos + utf8_prefix_len(input@, input@.len() as int)) as usize,
                line,
                column,
            }),
            Err(err) => res matches Err(m) && m@ == render_error(input@, err),
        },
{
    let mut parser = ExprParser::new(input, start_pos, line, column);
    let nbytes = byte_offset(&parser.input, parser.input.len());
    match parser.parse() {
        Ok(expr) => {
            let span = Span::new(start_pos, start_pos + nbytes as usize, line, column);
            Ok(BindingExpr { expr, span })
        },
        Err(e) => Err(parser.render(e)),
    }
}

} // verus!
