//! Binding-expression syntax trees and their mathematical views.

use crate::ir::Span;
use vstd::prelude::*;

verus! {

/// A parsed binding expression with its source span.
#[derive(Debug, PartialEq)]
pub struct BindingExpr {
    pub expr: Expr,
    pub span: Span,
}

/// Expression syntax tree.
#[derive(Debug, PartialEq)]
pub enum Expr {
    /// Field access on the local model: `{field}` or `{model.field.subfield}`.
    FieldAccess(FieldAccessExpr),
    /// Field access on the shared context: `{shared.field}`; the path omits `shared`.
    SharedFieldAccess(SharedFieldAccessExpr),
    MethodCall(MethodCallExpr),
    BinaryOp(BinaryOpExpr),
    UnaryOp(UnaryOpExpr),
    Conditional(ConditionalExpr),
    Literal(LiteralExpr),
}

/// Field access path.
#[derive(Debug, PartialEq)]
pub struct FieldAccessExpr {
    pub path: Vec<String>,
}

/// Shared field access path (after `shared.`).
#[derive(Debug, PartialEq)]
pub struct SharedFieldAccessExpr {
    pub path: Vec<String>,
}

/// Method call with arguments.
#[derive(Debug, PartialEq)]
pub struct MethodCallExpr {
    pub receiver: Box<Expr>,
    pub method: String,
    pub args: Vec<Expr>,
}

/// Binary operation.
#[derive(Debug, PartialEq)]
pub struct BinaryOpExpr {
    pub left: Box<Expr>,
    pub op: BinaryOp,
    pub right: Box<Expr>,
}

#[derive(Debug, Clone, Copy, PartialEq, Eq, Hash, Structural)]
pub enum BinaryOp {
    Eq,
    Ne,
    Lt,
    Le,
    Gt,
    Ge,
    And,
    Or,
    Add,
    Sub,
    Mul,
    Div,
}

/// Unary operation.
#[derive(Debug, PartialEq)]
pub struct UnaryOpExpr {
    pub op: UnaryOp,
    pub operand: Box<Expr>,
}

#[derive(Debug, Clone, Copy, PartialEq, Eq, Hash, Structural)]
pub enum UnaryOp {
    Not,
    Neg,
}

/// Conditional expression `if c then a else b`.
#[derive(Debug, PartialEq)]
pub struct ConditionalExpr {
    pub condition: Box<Expr>,
    pub then_branch: Box<Expr>,
    pub else_branch: Box<Expr>,
}

/// Literal value. A decimal literal with a fractional point is kept as the
/// text that was written (digits and one `.`); its binary floating-point value
/// is computed by whoever evaluates it.
#[derive(Debug, PartialEq)]
pub enum LiteralExpr {
    String(String),
    Integer(i64),
    Float(String),
    Bool(bool),
}

// ---------------------------------------------------------------------------
// Mathematical views
// ---------------------------------------------------------------------------

/// The view of a literal: strings as character sequences.
pub enum SpecLiteral {
    Str(Seq<char>),
    Integer(i64),
    Float(Seq<char>),
    Bool(bool),
}

/// The view of an expression: strings as character sequences, vectors as sequences.
pub enum SpecExpr {
    FieldAccess(Seq<Seq<char>>),
    SharedFieldAccess(Seq<Seq<char>>),
    MethodCall(Box<SpecExpr>, Seq<char>, Seq<SpecExpr>),
    BinaryOp(Box<SpecExpr>, BinaryOp, Box<SpecExpr>),
    UnaryOp(UnaryOp, Box<SpecExpr>),
    Conditional(Box<SpecExpr>, Box<SpecExpr>, Box<SpecExpr>),
    Literal(SpecLiteral),
}

pub open spec fn strings_view(v: Seq<String>) -> Seq<Seq<char>> {
    v.map_values(|s: String| s@)
}

impl View for LiteralExpr {
    type V = SpecLiteral;

    open spec fn view(&self) -> SpecLiteral {
        match self {
            LiteralExpr::String(s) => SpecLiteral::Str(s@),
            LiteralExpr::Integer(i) => SpecLiteral::Integer(*i),
            LiteralExpr::Float(s) => SpecLiteral::Float(s@),
            LiteralExpr::Bool(b) => SpecLiteral::Bool(*b),
        }
    }
}

pub open spec fn expr_view(e: Expr) -> SpecExpr
    decreases e,
{
    match e {
        Expr::FieldAccess(f) => SpecExpr::FieldAccess(strings_view(f.path@)),
        Expr::SharedFieldAccess(f) => SpecExpr::SharedFieldAccess(strings_view(f.path@)),
        Expr::MethodCall(m) => SpecExpr::MethodCall(
            Box::new(expr_view(*m.receiver)),
            m.method@,
            Seq::new(
                m.args@.len(),
                |i: int|
                    {
                        if 0 <= i < m.args@.len() {
                            proof {
                                assert(decreases_to!(m.args => m.args@));
                            }
                            expr_view(m.args@[i])
                        } else {
                            SpecExpr::Literal(SpecLiteral::Bool(false))
                        }
                    },
            ),
        ),
        Expr::BinaryOp(b) => SpecExpr::BinaryOp(
            Box::new(expr_view(*b.left)),
            b.op,
            Box::new(expr_view(*b.right)),
        ),
        Expr::UnaryOp(u) => SpecExpr::UnaryOp(u.op, Box::new(expr_view(*u.operand))),
        Expr::Conditional(c) => SpecExpr::Conditional(
            Box::new(expr_view(*c.condition)),
            Box::new(expr_view(*c.then_branch)),
            Box::new(expr_view(*c.else_branch)),
        ),
        Expr::Literal(l) => SpecExpr::Literal(l@),
    }
}

impl View for Expr {
    type V = SpecExpr;

    open spec fn view(&self) -> SpecExpr {
        expr_view(*self)
    }
}

pub open spec fn exprs_view(v: Seq<Expr>) -> Seq<SpecExpr> {
    v.map_values(|e: Expr| e@)
}

/// The view of a method call is built from the views of its parts.
pub proof fn lemma_method_call_view(receiver: Expr, method: String, args: Vec<Expr>)
    ensures
        (Expr::MethodCall(MethodCallExpr { receiver: Box::new(receiver), method, args }))@
            == SpecExpr::MethodCall(Box::new(receiver@), method@, exprs_view(args@)),
{
    let e = Expr::MethodCall(MethodCallExpr { receiver: Box::new(receiver), method, args });
    assert(expr_view(e) matches SpecExpr::MethodCall(_, _, a) && a =~= exprs_view(args@));
}

/// Copies a list of strings.
pub fn copy_strings(v: &Vec<String>) -> (res: Vec<String>)
    ensures
        res@ == v@,
{
    let mut out: Vec<String> = Vec::new();
    let mut i: usize = 0;
    while i < v.len()
        invariant
            i <= v.len(),
            out@ == v@.subrange(0, i as int),
        decreases v.len() - i,
    {
        out.push(v[i].clone());
        i = i + 1;
    }
    assert(out@ =~= v@);
    out
}

impl LiteralExpr {
    pub fn duplicate(&self) -> (res: LiteralExpr)
        ensures
            res == *self,
    {
        match self {
            LiteralExpr::String(s) => LiteralExpr::String(s.clone()),
            LiteralExpr::Integer(i) => LiteralExpr::Integer(*i),
            LiteralExpr::Float(s) => LiteralExpr::Float(s.clone()),
            LiteralExpr::Bool(b) => LiteralExpr::Bool(*b),
        }
    }
}

impl Expr {
    /// A copy of the whole tree.
    #[verifier::loop_isolation(false)]
    pub fn duplicate(&self) -> (res: Expr)
        ensures
            res@ == self@,
        decreases self,
    {
        match self {
            Expr::FieldAccess(f) => Expr::FieldAccess(FieldAccessExpr { path: copy_strings(&f.path) }),
            Expr::SharedFieldAccess(f) => Expr::SharedFieldAccess(
                SharedFieldAccessExpr { path: copy_strings(&f.path) },
            ),
            Expr::MethodCall(m) => {
                let receiver = m.receiver.duplicate();
                let mut args: Vec<Expr> = Vec::new();
                let mut i: usize = 0;
                while i < m.args.len()
                    invariant
                        i <= m.args.len(),
                        args@.len() == i,
                        forall|j: int| 0 <= j < i ==> (#[trigger] args@[j])@ == m.args@[j]@,
                    decreases m.args.len() - i,
                {
                    proof {
                        assert(decreases_to!(m.args => m.args@));
                        assert(decreases_to!(m.args@ => m.args@[i as int]));
                    }
                    let a = m.args[i].duplicate();
                    args.push(a);
                    i = i + 1;
                }
                proof {
                    lemma_method_call_view(receiver, m.method, args);
                    lemma_method_call_view(*m.receiver, m.method, m.args);
                    assert(exprs_view(args@) =~= exprs_view(m.args@));
                }
                Expr::MethodCall(
                    MethodCallExpr { receiver: Box::new(receiver), method: m.method.clone(), args },
                )
            },
            Expr::BinaryOp(b) => Expr::BinaryOp(
                BinaryOpExpr {
                    left: Box::new(b.left.duplicate()),
                    op: b.op,
                    right: Box::new(b.right.duplicate()),
                },
            ),
            Expr::UnaryOp(u) => Expr::UnaryOp(
                UnaryOpExpr { op: u.op, operand: Box::new(u.operand.duplicate()) },
            ),
            Expr::Conditional(c) => Expr::Conditional(
                ConditionalExpr {
                    condition: Box::new(c.condition.duplicate()),
                    then_branch: Box::new(c.then_branch.duplicate()),
                    else_branch: Box::new(c.else_branch.duplicate()),
                },
            ),
            Expr::Literal(l) => Expr::Literal(l.duplicate()),
        }
    }
}

/// Whether an expression reads a field of the shared context (`shared`) or of
/// the local model (`!shared`), in itself or in any sub-expression.
pub open spec fn expr_reads(e: SpecExpr, shared: bool) -> bool
    decreases e,
{
    match e {
        SpecExpr::FieldAccess(_) => !shared,
        SpecExpr::SharedFieldAccess(_) => shared,
        SpecExpr::Literal(_) => false,
        SpecExpr::MethodCall(r, _, args) => expr_reads(*r, shared) || args_read(args, shared),
        SpecExpr::BinaryOp(l, _, r) => expr_reads(*l, shared) || expr_reads(*r, shared),
        SpecExpr::UnaryOp(_, x) => expr_reads(*x, shared),
        SpecExpr::Conditional(c, t, f) => expr_reads(*c, shared) || expr_reads(*t, shared)
            || expr_reads(*f, shared),
    }
}

/// Whether any expression of a list reads the shared context or the model.
pub open spec fn args_read(args: Seq<SpecExpr>, shared: bool) -> bool
    decreases args,
{
    if args.len() == 0 {
        false
    } else {
        proof {
            assert(decreases_to!(args => args.drop_last()));
        }
        args_read(args.drop_last(), shared) || expr_reads(args.last(), shared)
    }
}

/// A prefix one longer reads exactly when the shorter prefix or the new element does;
/// a list that has a reading prefix reads.
proof fn lemma_args_read_prefix(a: Seq<SpecExpr>, i: int, shared: bool)
    requires
        0 <= i < a.len(),
    ensures
        args_read(a.subrange(0, i + 1), shared) == (args_read(a.subrange(0, i), shared)
            || expr_reads(a[i], shared)),
        args_read(a.subrange(0, i + 1), shared) ==> args_read(a, shared),
    decreases a.len() - i,
{
    assert(a.subrange(0, i + 1).drop_last() =~= a.subrange(0, i));
    if i + 1 < a.len() {
        lemma_args_read_prefix(a, i + 1, shared);
    } else {
        assert(a.subrange(0, i + 1) =~= a);
    }
}

impl Expr {
    #[verifier::loop_isolation(false)]
    fn reads(&self, shared: bool) -> (res: bool)
        ensures
            res == expr_reads(self@, shared),
        decreases self,
    {
        match self {
            Expr::FieldAccess(_) => !shared,
            Expr::SharedFieldAccess(_) => shared,
            Expr::Literal(_) => false,
            Expr::MethodCall(m) => {
                proof {
                    lemma_method_call_view(*m.receiver, m.method, m.args);
                }
                if m.receiver.reads(shared) {
                    return true;
                }
                let mut i: usize = 0;
                while i < m.args.len()
                    invariant
                        i <= m.args.len(),
                        !args_read(exprs_view(m.args@).subrange(0, i as int), shared),
                    decreases m.args.len() - i,
                {
                    proof {
                        assert(decreases_to!(m.args => m.args@));
                        assert(decreases_to!(m.args@ => m.args@[i as int]));
                    }
                    if m.args[i].reads(shared) {
                        proof {
                            lemma_args_read_prefix(exprs_view(m.args@), i as int, shared);
                        }
                        return true;
                    }
                    proof {
                        lemma_args_read_prefix(exprs_view(m.args@), i as int, shared);
                    }
                    i = i + 1;
                }
                assert(exprs_view(m.args@).subrange(0, m.args@.len() as int) =~= exprs_view(m.args@));
                false
            },
            Expr::BinaryOp(b) => b.left.reads(shared) || b.right.reads(shared),
            Expr::UnaryOp(u) => u.operand.reads(shared),
            Expr::Conditional(c) => c.condition.reads(shared) || c.then_branch.reads(shared)
                || c.else_branch.reads(shared),
        }
    }

    /// Whether the expression reads the shared context (`{shared.field}`).
    pub fn uses_shared(&self) -> (res: bool)
        ensures
            res == expr_reads(self@, true),
    {
        self.reads(true)
    }

    /// Whether the expression reads the local model (`{field}`).
    pub fn uses_model(&self) -> (res: bool)
        ensures
            res == expr_reads(self@, false),
    {
        self.reads(false)
    }
}

impl View for BindingExpr {
    type V = (SpecExpr, Span);

    open spec fn view(&self) -> (SpecExpr, Span) {
        (self.expr@, self.span)
    }
}

impl BindingExpr {
    pub fn duplicate(&self) -> (res: BindingExpr)
        ensures
            res@ == self@,
    {
        BindingExpr { expr: self.expr.duplicate(), span: self.span }
    }

    /// Whether the binding reads the shared context.
    pub fn uses_shared(&self) -> (res: bool)
        ensures
            res == expr_reads(self.expr@, true),
    {
        self.expr.uses_shared()
    }

    /// Whether the binding reads the local model.
    pub fn uses_model(&self) -> (res: bool)
        ensures
            res == expr_reads(self.expr@, false),
    {
        self.expr.uses_model()
    }
}

} // verus!
