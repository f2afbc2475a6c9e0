//! The abstract syntax tree, and the mathematical trees that stand for it in
//! contracts.

use crate::tokenizer::{Intern, Span};
use vstd::prelude::*;

verus! {

/// The binary operators, from the loosest binding to the tightest.
#[derive(Clone, Copy, Debug, PartialEq, Eq)]
pub enum BinOp {
    And,
    Or,
    Equal,
    NotEqual,
    Gt,
    GtEq,
    Lt,
    LtEq,
    Add,
    Sub,
    Mul,
    Div,
    Mod,
}

/// The unary operators: logical not, the two binding-mode markers,
/// address-of, and the postfix dereference.
#[derive(Clone, Copy, Debug, PartialEq, Eq)]
pub enum UnOp {
    Not,
    SetOp,
    Val,
    Ref,
    Deref,
}

/// A literal value. A float is held as the bit pattern of its binary64 value.
#[derive(Clone, Copy, Debug, PartialEq, Eq)]
pub enum Literal<'s> {
    Float(u64),
    Integer(i64),
    String(Intern<'s>),
}

/// A node of the tree: what it is and the source text it was read from.
#[derive(Debug, PartialEq, Eq)]
pub struct Expr<'s> {
    pub kind: ExprKind<'s>,
    pub span: Span,
}

#[allow(inconsistent_fields)]
#[derive(Debug, PartialEq, Eq)]
pub enum ExprKind<'s> {
    /// A bag of named bindings, in the order in which they were written.
    Object { definitions: Vec<Def<'s>> },
    /// A block whose items are evaluated in order.
    Scope { body: Vec<Item<'s>> },
    /// A parameter pattern and the block or object it stands before.
    Lambda { arg: Box<Expr<'s>>, body: Box<Expr<'s>> },
    /// Reserved: the grammar builds no such node.
    SqLambda { arg: Box<Expr<'s>>, expr: Box<Expr<'s>> },
    BinOp { op: BinOp, lhs: Box<Expr<'s>>, rhs: Box<Expr<'s>> },
    UnOp { op: UnOp, arg: Box<Expr<'s>> },
    /// The projection of a field.
    Access { expr: Box<Expr<'s>>, prop: Intern<'s> },
    /// Reserved: the grammar builds no such node.
    Case { cond: Box<Expr<'s>>, on_true: Box<Expr<'s>>, on_false: Box<Expr<'s>> },
    /// No element, or two and more: a single expression is never wrapped.
    Tuple { exprs: Vec<Expr<'s>> },
    /// Application of `a` to `b`, written by putting `b` after `a`.
    Apply { a: Box<Expr<'s>>, b: Box<Expr<'s>> },
    TypeAssertion { a: Box<Expr<'s>>, b: Box<Expr<'s>> },
    /// One tagged alternative or more.
    Variant(Vec<VariantItem<'s>>),
    Ident(Intern<'s>),
    Literal(Literal<'s>),
}

/// One item of a scope. `Empty` stands at the end of a scope whose last
/// statement was closed by a semicolon: the scope then yields no value.
#[derive(Debug, PartialEq, Eq)]
pub enum Item<'s> {
    Expr(Expr<'s>),
    Def(Def<'s>),
    Empty,
}

/// A named binding.
#[derive(Debug, PartialEq, Eq)]
pub struct Def<'s> {
    pub name: Intern<'s>,
    pub value: Box<Expr<'s>>,
    pub span: Span,
}

/// One alternative of a variant literal.
#[derive(Debug, PartialEq, Eq)]
pub struct VariantItem<'s> {
    pub name: Intern<'s>,
    pub value: Option<Expr<'s>>,
    pub span: Span,
}

/// The mathematical tree that an [`Expr`] stands for.
pub struct ExprView<'s> {
    pub kind: ExprKindView<'s>,
    pub span: Span,
}

#[allow(inconsistent_fields)]
pub enum ExprKindView<'s> {
    Object { definitions: Seq<DefView<'s>> },
    Scope { body: Seq<ItemView<'s>> },
    Lambda { arg: Box<ExprView<'s>>, body: Box<ExprView<'s>> },
    SqLambda { arg: Box<ExprView<'s>>, expr: Box<ExprView<'s>> },
    BinOp { op: BinOp, lhs: Box<ExprView<'s>>, rhs: Box<ExprView<'s>> },
    UnOp { op: UnOp, arg: Box<ExprView<'s>> },
    Access { expr: Box<ExprView<'s>>, prop: Intern<'s> },
    Case { cond: Box<ExprView<'s>>, on_true: Box<ExprView<'s>>, on_false: Box<ExprView<'s>> },
    Tuple { exprs: Seq<ExprView<'s>> },
    Apply { a: Box<ExprView<'s>>, b: Box<ExprView<'s>> },
    TypeAssertion { a: Box<ExprView<'s>>, b: Box<ExprView<'s>> },
    Variant(Seq<VariantItemView<'s>>),
    Ident(Intern<'s>),
    Literal(Literal<'s>),
}

pub enum ItemView<'s> {
    Expr(ExprView<'s>),
    Def(DefView<'s>),
    Empty,
}

pub struct DefView<'s> {
    pub name: Intern<'s>,
    pub value: Box<ExprView<'s>>,
    pub span: Span,
}

pub struct VariantItemView<'s> {
    pub name: Intern<'s>,
    pub value: Option<ExprView<'s>>,
    pub span: Span,
}

/// The tree that `expr` stands for.
pub open spec fn expr_view<'s>(expr: Expr<'s>) -> ExprView<'s>
    decreases expr,
{
    ExprView { kind: kind_view(expr.kind), span: expr.span }
}

pub open spec fn kind_view<'s>(kind: ExprKind<'s>) -> ExprKindView<'s>
    decreases kind,
{
    match kind {
        ExprKind::Object { definitions } => ExprKindView::Object {
            definitions: defs_view(definitions@),
        },
        ExprKind::Scope { body } => ExprKindView::Scope {
            body: items_view(body@),
        },
        ExprKind::Lambda { arg, body } => ExprKindView::Lambda {
            arg: Box::new(expr_view(*arg)),
            body: Box::new(expr_view(*body)),
        },
        ExprKind::SqLambda { arg, expr } => ExprKindView::SqLambda {
            arg: Box::new(expr_view(*arg)),
            expr: Box::new(expr_view(*expr)),
        },
        ExprKind::BinOp { op, lhs, rhs } => ExprKindView::BinOp {
            op,
            lhs: Box::new(expr_view(*lhs)),
            rhs: Box::new(expr_view(*rhs)),
        },
        ExprKind::UnOp { op, arg } => ExprKindView::UnOp { op, arg: Box::new(expr_view(*arg)) },
        ExprKind::Access { expr, prop } => ExprKindView::Access {
            expr: Box::new(expr_view(*expr)),
            prop,
        },
        ExprKind::Case { cond, on_true, on_false } => ExprKindView::Case {
            cond: Box::new(expr_view(*cond)),
            on_true: Box::new(expr_view(*on_true)),
            on_false: Box::new(expr_view(*on_false)),
        },
        ExprKind::Tuple { exprs } => ExprKindView::Tuple {
            exprs: exprs_view(exprs@),
        },
        ExprKind::Apply { a, b } => ExprKindView::Apply {
            a: Box::new(expr_view(*a)),
            b: Box::new(expr_view(*b)),
        },
        ExprKind::TypeAssertion { a, b } => ExprKindView::TypeAssertion {
            a: Box::new(expr_view(*a)),
            b: Box::new(expr_view(*b)),
        },
        ExprKind::Variant(items) => ExprKindView::Variant(
            variant_items_view(items@),
        ),
        ExprKind::Ident(name) => ExprKindView::Ident(name),
        ExprKind::Literal(literal) => ExprKindView::Literal(literal),
    }
}

/// The trees that the expressions of `exprs` stand for, in the same order.
pub open spec fn exprs_view<'s>(exprs: Seq<Expr<'s>>) -> Seq<ExprView<'s>>
    decreases exprs,
{
    Seq::new(
        exprs.len(),
        |i: int| if 0 <= i < exprs.len() { expr_view(exprs[i]) } else { arbitrary() },
    )
}

pub open spec fn defs_view<'s>(defs: Seq<Def<'s>>) -> Seq<DefView<'s>>
    decreases defs,
{
    Seq::new(
        defs.len(),
        |i: int| if 0 <= i < defs.len() { def_view(defs[i]) } else { arbitrary() },
    )
}

pub open spec fn items_view<'s>(items: Seq<Item<'s>>) -> Seq<ItemView<'s>>
    decreases items,
{
    Seq::new(
        items.len(),
        |i: int| if 0 <= i < items.len() { item_view(items[i]) } else { arbitrary() },
    )
}

pub open spec fn variant_items_view<'s>(items: Seq<VariantItem<'s>>) -> Seq<VariantItemView<'s>>
    decreases items,
{
    Seq::new(
        items.len(),
        |i: int| if 0 <= i < items.len() { variant_item_view(items[i]) } else { arbitrary() },
    )
}

pub open spec fn item_view<'s>(item: Item<'s>) -> ItemView<'s>
    decreases item,
{
    match item {
        Item::Expr(expr) => ItemView::Expr(expr_view(expr)),
        Item::Def(def) => ItemView::Def(def_view(def)),
        Item::Empty => ItemView::Empty,
    }
}

pub open spec fn def_view<'s>(def: Def<'s>) -> DefView<'s>
    decreases def,
{
    DefView { name: def.name, value: Box::new(expr_view(*def.value)), span: def.span }
}

pub open spec fn variant_item_view<'s>(item: VariantItem<'s>) -> VariantItemView<'s>
    decreases item,
{
    VariantItemView {
        name: item.name,
        value: match item.value {
            Some(expr) => Some(expr_view(expr)),
            None => None,
        },
        span: item.span,
    }
}

impl<'s> ExprView<'s> {
    /// The empty tuple read from a pair of delimiters with nothing between.
    pub open spec fn unit(start: usize, end: usize) -> Self {
        ExprView { kind: ExprKindView::Tuple { exprs: Seq::empty() }, span: Span { start, end } }
    }

    pub open spec fn object(definitions: Seq<DefView<'s>>, span: Span) -> Self {
        ExprView { kind: ExprKindView::Object { definitions }, span }
    }

    /// The object that a whole program is: it spans its definitions, and an
    /// empty program sits at offset zero.
    pub open spec fn program(definitions: Seq<DefView<'s>>) -> Self {
        ExprView::object(
            definitions,
            if definitions.len() > 0 {
                Span { start: definitions.first().span.start, end: definitions.last().span.end }
            } else {
                Span { start: 0, end: 0 }
            },
        )
    }

    pub open spec fn scope(body: Seq<ItemView<'s>>, span: Span) -> Self {
        ExprView { kind: ExprKindView::Scope { body }, span }
    }

    pub open spec fn lambda(arg: Self, body: Self) -> Self {
        ExprView {
            span: Span { start: arg.span.start, end: body.span.end },
            kind: ExprKindView::Lambda { arg: Box::new(arg), body: Box::new(body) },
        }
    }

    pub open spec fn assertion(a: Self, b: Self) -> Self {
        ExprView {
            span: Span { start: a.span.start, end: b.span.end },
            kind: ExprKindView::TypeAssertion { a: Box::new(a), b: Box::new(b) },
        }
    }

    /// A binary node carries the span of its left operand alone.
    pub open spec fn binary(op: BinOp, lhs: Self, rhs: Self) -> Self {
        ExprView {
            span: lhs.span,
            kind: ExprKindView::BinOp { op, lhs: Box::new(lhs), rhs: Box::new(rhs) },
        }
    }

    /// An operator written before its operand, at `op_span`.
    pub open spec fn prefixed(op_span: Span, op: UnOp, arg: Self) -> Self {
        ExprView {
            span: Span { start: op_span.start, end: arg.span.end },
            kind: ExprKindView::UnOp { op, arg: Box::new(arg) },
        }
    }

    /// A dereference, whose mark stands after the operand and ends at `end`.
    pub open spec fn deref(arg: Self, end: usize) -> Self {
        ExprView {
            span: Span { start: arg.span.start, end },
            kind: ExprKindView::UnOp { op: UnOp::Deref, arg: Box::new(arg) },
        }
    }

    pub open spec fn access(expr: Self, prop_span: Span, prop: Intern<'s>) -> Self {
        ExprView {
            span: Span { start: expr.span.start, end: prop_span.end },
            kind: ExprKindView::Access { expr: Box::new(expr), prop },
        }
    }

    pub open spec fn apply(a: Self, b: Self) -> Self {
        ExprView {
            span: Span { start: a.span.start, end: b.span.end },
            kind: ExprKindView::Apply { a: Box::new(a), b: Box::new(b) },
        }
    }

    pub open spec fn tuple(exprs: Seq<Self>) -> Self
        recommends
            exprs.len() > 0,
    {
        ExprView {
            span: Span { start: exprs.first().span.start, end: exprs.last().span.end },
            kind: ExprKindView::Tuple { exprs },
        }
    }

    pub open spec fn variant(items: Seq<VariantItemView<'s>>) -> Self
        recommends
            items.len() > 0,
    {
        ExprView {
            span: Span { start: items.first().span.start, end: items.last().span.end },
            kind: ExprKindView::Variant(items),
        }
    }

    /// A literal or a name.
    pub open spec fn leaf(span: Span, kind: ExprKind<'s>) -> Self {
        ExprView { kind: kind_view(kind), span }
    }
}

/// The tree that `expr` stands for, if there is one.
pub open spec fn option_view<'s>(expr: Option<Expr<'s>>) -> Option<ExprView<'s>> {
    match expr {
        Some(expr) => Some(expr@),
        None => None,
    }
}

impl<'s> Expr<'s> {
    /// The empty tuple read from a pair of delimiters with nothing between.
    pub fn unit(start: usize, end: usize) -> (expr: Self)
        ensures
            expr@ == ExprView::unit(start, end),
    {
        let exprs: Vec<Expr<'s>> = Vec::new();
        assert(exprs_view(exprs@) =~= Seq::empty());
        Expr { kind: ExprKind::Tuple { exprs }, span: Span { start, end } }
    }

    pub fn object(definitions: Vec<Def<'s>>, span: Span) -> (expr: Self)
        ensures
            expr@ == ExprView::object(defs_view(definitions@), span),
    {
        Expr { kind: ExprKind::Object { definitions }, span }
    }

    /// The object that a whole program is.
    pub fn program(definitions: Vec<Def<'s>>) -> (expr: Self)
        ensures
            expr@ == ExprView::program(defs_view(definitions@)),
    {
        let span = if definitions.len() > 0 {
            Span {
                start: definitions[0].span.start,
                end: definitions[definitions.len() - 1].span.end,
            }
        } else {
            Span { start: 0, end: 0 }
        };
        Expr::object(definitions, span)
    }

    pub fn scope(body: Vec<Item<'s>>, span: Span) -> (expr: Self)
        ensures
            expr@ == ExprView::scope(items_view(body@), span),
    {
        Expr { kind: ExprKind::Scope { body }, span }
    }

    pub fn lambda(arg: Self, body: Self) -> (expr: Self)
        ensures
            expr@ == ExprView::lambda(arg@, body@),
    {
        Expr {
            span: Span { start: arg.span.start, end: body.span.end },
            kind: ExprKind::Lambda { arg: Box::new(arg), body: Box::new(body) },
        }
    }

    pub fn assertion(a: Self, b: Self) -> (expr: Self)
        ensures
            expr@ == ExprView::assertion(a@, b@),
    {
        Expr {
            span: Span { start: a.span.start, end: b.span.end },
            kind: ExprKind::TypeAssertion { a: Box::new(a), b: Box::new(b) },
        }
    }

    /// A binary node carries the span of its left operand alone.
    pub fn binary(op: BinOp, lhs: Self, rhs: Self) -> (expr: Self)
        ensures
            expr@ == ExprView::binary(op, lhs@, rhs@),
    {
        Expr { span: lhs.span, kind: ExprKind::BinOp { op, lhs: Box::new(lhs), rhs: Box::new(rhs) } }
    }

    /// An operator written before its operand, at `op_span`.
    pub fn prefixed(op_span: Span, op: UnOp, arg: Self) -> (expr: Self)
        ensures
            expr@ == ExprView::prefixed(op_span, op, arg@),
    {
        Expr {
            span: Span { start: op_span.start, end: arg.span.end },
            kind: ExprKind::UnOp { op, arg: Box::new(arg) },
        }
    }

    /// A dereference, whose mark stands after the operand and ends at `end`.
    pub fn deref(arg: Self, end: usize) -> (expr: Self)
        ensures
            expr@ == ExprView::deref(arg@, end),
    {
        Expr {
            span: Span { start: arg.span.start, end },
            kind: ExprKind::UnOp { op: UnOp::Deref, arg: Box::new(arg) },
        }
    }

    pub fn access(expr: Self, prop_span: Span, prop: Intern<'s>) -> (node: Self)
        ensures
            node@ == ExprView::access(expr@, prop_span, prop),
    {
        Expr {
            span: Span { start: expr.span.start, end: prop_span.end },
            kind: ExprKind::Access { expr: Box::new(expr), prop },
        }
    }

    pub fn apply(a: Self, b: Self) -> (expr: Self)
        ensures
            expr@ == ExprView::apply(a@, b@),
    {
        Expr {
            span: Span { start: a.span.start, end: b.span.end },
            kind: ExprKind::Apply { a: Box::new(a), b: Box::new(b) },
        }
    }

    pub fn tuple(exprs: Vec<Self>) -> (expr: Self)
        requires
            exprs.len() > 0,
        ensures
            expr@ == ExprView::tuple(exprs_view(exprs@)),
    {
        let span = Span { start: exprs[0].span.start, end: exprs[exprs.len() - 1].span.end };
        Expr { span, kind: ExprKind::Tuple { exprs } }
    }

    pub fn variant(items: Vec<VariantItem<'s>>) -> (expr: Self)
        requires
            items.len() > 0,
        ensures
            expr@ == ExprView::variant(variant_items_view(items@)),
    {
        let span = Span { start: items[0].span.start, end: items[items.len() - 1].span.end };
        Expr { span, kind: ExprKind::Variant(items) }
    }

    /// A literal or a name.
    pub fn leaf(span: Span, kind: ExprKind<'s>) -> (expr: Self)
        ensures
            expr@ == ExprView::leaf(span, kind),
    {
        Expr { kind, span }
    }
}

impl<'s> View for Expr<'s> {
    type V = ExprView<'s>;

    open spec fn view(&self) -> ExprView<'s> {
        expr_view(*self)
    }
}

impl<'s> View for Def<'s> {
    type V = DefView<'s>;

    open spec fn view(&self) -> DefView<'s> {
        def_view(*self)
    }
}

impl<'s> View for Item<'s> {
    type V = ItemView<'s>;

    open spec fn view(&self) -> ItemView<'s> {
        item_view(*self)
    }
}

impl<'s> View for VariantItem<'s> {
    type V = VariantItemView<'s>;

    open spec fn view(&self) -> VariantItemView<'s> {
        variant_item_view(*self)
    }
}

} // verus!
