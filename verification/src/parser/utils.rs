//! An estimate of the memory that a tree takes.

use crate::parser::ast::{
    defs_view, exprs_view, items_view, variant_items_view, Def, DefView, Expr, ExprKind,
    ExprKindView, ExprView, Item, ItemView, Literal, VariantItem, VariantItemView,
};
use crate::tokenizer::{Intern, Span};
use vstd::layout::size_of;
use vstd::prelude::*;

verus! {

/// What the place of an item in a scope adds to the item's own size.
pub const ITEM_OVERHEAD: usize = 8;

/// The estimated size of `expr` in bytes: the record of the node itself,
/// every node that it owns, and the text of every name and string literal.
pub open spec fn expr_size<'s>(expr: ExprView<'s>) -> nat
    decreases expr,
{
    size_of::<Expr<'s>>() + match expr.kind {
        ExprKindView::Object { definitions } => defs_size(definitions),
        ExprKindView::Scope { body } => items_size(body),
        ExprKindView::Lambda { arg, body } => expr_size(*arg) + expr_size(*body),
        ExprKindView::SqLambda { arg, expr } => expr_size(*expr) + expr_size(*arg),
        ExprKindView::BinOp { op, lhs, rhs } => expr_size(*lhs) + expr_size(*rhs),
        ExprKindView::UnOp { op, arg } => expr_size(*arg),
        ExprKindView::Access { expr, prop } => expr_size(*expr) + prop.spec_len(),
        ExprKindView::Case { cond, on_true, on_false } => expr_size(*cond) + expr_size(*on_true)
            + expr_size(*on_false),
        ExprKindView::Tuple { exprs } => exprs_size(exprs),
        ExprKindView::Apply { a, b } => expr_size(*a) + expr_size(*b),
        ExprKindView::TypeAssertion { a, b } => expr_size(*a) + expr_size(*b),
        ExprKindView::Variant(items) => variant_items_size(items),
        ExprKindView::Ident(name) => name.spec_len(),
        ExprKindView::Literal(Literal::String(text)) => text.spec_len(),
        ExprKindView::Literal(_) => 0,
    }
}

/// The size of a definition: its record, its name and its value.
pub open spec fn spec_def_size<'s>(def: DefView<'s>) -> nat
    decreases def,
{
    size_of::<Def<'s>>() + def.name.spec_len() + expr_size(*def.value)
}

/// The size of an alternative of a variant literal: its record, its name
/// and its value.
pub open spec fn spec_varit_size<'s>(item: VariantItemView<'s>) -> nat
    decreases item,
{
    size_of::<VariantItem<'s>>() + item.name.spec_len() + match item.value {
        Some(value) => expr_size(value),
        None => 0,
    }
}

/// The size of an item of a scope: what it holds, and its place.
pub open spec fn item_size<'s>(item: ItemView<'s>) -> nat
    decreases item,
{
    ITEM_OVERHEAD as nat + match item {
        ItemView::Expr(expr) => expr_size(expr),
        ItemView::Def(def) => spec_def_size(def),
        ItemView::Empty => 0,
    }
}

/// The sum of the sizes of `exprs`.
pub open spec fn exprs_size<'s>(exprs: Seq<ExprView<'s>>) -> nat
    decreases exprs,
{
    if exprs.len() == 0 {
        0
    } else {
        exprs_size(exprs.drop_last()) + expr_size(exprs.last())
    }
}

pub open spec fn defs_size<'s>(defs: Seq<DefView<'s>>) -> nat
    decreases defs,
{
    if defs.len() == 0 {
        0
    } else {
        defs_size(defs.drop_last()) + spec_def_size(defs.last())
    }
}

pub open spec fn items_size<'s>(items: Seq<ItemView<'s>>) -> nat
    decreases items,
{
    if items.len() == 0 {
        0
    } else {
        items_size(items.drop_last()) + item_size(items.last())
    }
}

pub open spec fn variant_items_size<'s>(items: Seq<VariantItemView<'s>>) -> nat
    decreases items,
{
    if items.len() == 0 {
        0
    } else {
        variant_items_size(items.drop_last()) + spec_varit_size(items.last())
    }
}

/// The child subtree of `expr` that `i` names, if there is one: the value of
/// a definition or of an alternative, what an item holds, an element of a
/// tuple, or one of the boxed children in the order in which the node names
/// them.
pub open spec fn child<'s>(expr: ExprView<'s>, i: int) -> Option<ExprView<'s>> {
    match expr.kind {
        ExprKindView::Object { definitions } => if 0 <= i < definitions.len() {
            Some(*definitions[i].value)
        } else {
            None
        },
        ExprKindView::Scope { body } => if 0 <= i < body.len() {
            match body[i] {
                ItemView::Expr(expr) => Some(expr),
                ItemView::Def(def) => Some(*def.value),
                ItemView::Empty => None,
            }
        } else {
            None
        },
        ExprKindView::Tuple { exprs } => if 0 <= i < exprs.len() {
            Some(exprs[i])
        } else {
            None
        },
        ExprKindView::Variant(items) => if 0 <= i < items.len() {
            items[i].value
        } else {
            None
        },
        ExprKindView::Lambda { arg, body } => one_of(seq![*arg, *body], i),
        ExprKindView::SqLambda { arg, expr } => one_of(seq![*arg, *expr], i),
        ExprKindView::BinOp { op, lhs, rhs } => one_of(seq![*lhs, *rhs], i),
        ExprKindView::Apply { a, b } => one_of(seq![*a, *b], i),
        ExprKindView::TypeAssertion { a, b } => one_of(seq![*a, *b], i),
        ExprKindView::Case { cond, on_true, on_false } => one_of(
            seq![*cond, *on_true, *on_false],
            i,
        ),
        ExprKindView::UnOp { op, arg } => one_of(seq![*arg], i),
        ExprKindView::Access { expr, prop } => one_of(seq![*expr], i),
        ExprKindView::Ident(_) => None,
        ExprKindView::Literal(_) => None,
    }
}

pub open spec fn one_of<'s>(children: Seq<ExprView<'s>>, i: int) -> Option<ExprView<'s>> {
    if 0 <= i < children.len() {
        Some(children[i])
    } else {
        None
    }
}

/// `expr` with `new` in the place of the child that `i` names.
pub open spec fn with_child<'s>(expr: ExprView<'s>, i: int, new: ExprView<'s>) -> ExprView<'s>
    recommends
        child(expr, i) is Some,
{
    let boxed = Box::new(new);
    let kind = match expr.kind {
        ExprKindView::Object { definitions } => ExprKindView::Object {
            definitions: definitions.update(i, DefView { value: boxed, ..definitions[i] }),
        },
        ExprKindView::Scope { body } => ExprKindView::Scope {
            body: body.update(
                i,
                match body[i] {
                    ItemView::Expr(_) => ItemView::Expr(new),
                    ItemView::Def(def) => ItemView::Def(DefView { value: boxed, ..def }),
                    ItemView::Empty => ItemView::Empty,
                },
            ),
        },
        ExprKindView::Tuple { exprs } => ExprKindView::Tuple { exprs: exprs.update(i, new) },
        ExprKindView::Variant(items) => ExprKindView::Variant(
            items.update(i, VariantItemView { value: Some(new), ..items[i] }),
        ),
        ExprKindView::Lambda { arg, body } => if i == 0 {
            ExprKindView::Lambda { arg: boxed, body }
        } else {
            ExprKindView::Lambda { arg, body: boxed }
        },
        ExprKindView::SqLambda { arg, expr } => if i == 0 {
            ExprKindView::SqLambda { arg: boxed, expr }
        } else {
            ExprKindView::SqLambda { arg, expr: boxed }
        },
        ExprKindView::BinOp { op, lhs, rhs } => if i == 0 {
            ExprKindView::BinOp { op, lhs: boxed, rhs }
        } else {
            ExprKindView::BinOp { op, lhs, rhs: boxed }
        },
        ExprKindView::Apply { a, b } => if i == 0 {
            ExprKindView::Apply { a: boxed, b }
        } else {
            ExprKindView::Apply { a, b: boxed }
        },
        ExprKindView::TypeAssertion { a, b } => if i == 0 {
            ExprKindView::TypeAssertion { a: boxed, b }
        } else {
            ExprKindView::TypeAssertion { a, b: boxed }
        },
        ExprKindView::Case { cond, on_true, on_false } => if i == 0 {
            ExprKindView::Case { cond: boxed, on_true, on_false }
        } else if i == 1 {
            ExprKindView::Case { cond, on_true: boxed, on_false }
        } else {
            ExprKindView::Case { cond, on_true, on_false: boxed }
        },
        ExprKindView::UnOp { op, arg } => ExprKindView::UnOp { op, arg: boxed },
        ExprKindView::Access { expr, prop } => ExprKindView::Access { expr: boxed, prop },
        ExprKindView::Ident(name) => ExprKindView::Ident(name),
        ExprKindView::Literal(literal) => ExprKindView::Literal(literal),
    };
    ExprView { kind, span: expr.span }
}

/// The subtree of `expr` to which `path` leads: each step names a child.
pub open spec fn subtree<'s>(expr: ExprView<'s>, path: Seq<int>) -> Option<ExprView<'s>>
    decreases path.len(),
{
    if path.len() == 0 {
        Some(expr)
    } else {
        match child(expr, path[0]) {
            Some(below) => subtree(below, path.skip(1)),
            None => None,
        }
    }
}

/// `expr` with `new` in the place of the subtree to which `path` leads.
pub open spec fn with_subtree<'s>(expr: ExprView<'s>, path: Seq<int>, new: ExprView<'s>) -> ExprView<
    's,
>
    recommends
        subtree(expr, path) is Some,
    decreases path.len(),
{
    if path.len() == 0 {
        new
    } else {
        match child(expr, path[0]) {
            Some(below) => with_child(expr, path[0], with_subtree(below, path.skip(1), new)),
            None => expr,
        }
    }
}

/// The text that stands right at the node `expr`: its own name or string,
/// the name of the field it reads, or the name of its definition or
/// alternative number `i`.
pub open spec fn text<'s>(expr: ExprView<'s>, i: int) -> Option<Intern<'s>> {
    match expr.kind {
        ExprKindView::Ident(name) => Some(name),
        ExprKindView::Literal(Literal::String(text)) => Some(text),
        ExprKindView::Access { expr, prop } => Some(prop),
        ExprKindView::Object { definitions } => if 0 <= i < definitions.len() {
            Some(definitions[i].name)
        } else {
            None
        },
        ExprKindView::Scope { body } => if 0 <= i < body.len() {
            match body[i] {
                ItemView::Def(def) => Some(def.name),
                _ => None,
            }
        } else {
            None
        },
        ExprKindView::Variant(items) => if 0 <= i < items.len() {
            Some(items[i].name)
        } else {
            None
        },
        _ => None,
    }
}

/// `expr` with `new` in the place of the text that `text(expr, i)` is.
pub open spec fn with_text<'s>(expr: ExprView<'s>, i: int, new: Intern<'s>) -> ExprView<'s>
    recommends
        text(expr, i) is Some,
{
    let kind = match expr.kind {
        ExprKindView::Ident(_) => ExprKindView::Ident(new),
        ExprKindView::Literal(Literal::String(_)) => ExprKindView::Literal(Literal::String(new)),
        ExprKindView::Access { expr, prop } => ExprKindView::Access { expr, prop: new },
        ExprKindView::Object { definitions } => ExprKindView::Object {
            definitions: definitions.update(i, DefView { name: new, ..definitions[i] }),
        },
        ExprKindView::Scope { body } => ExprKindView::Scope {
            body: body.update(
                i,
                match body[i] {
                    ItemView::Def(def) => ItemView::Def(DefView { name: new, ..def }),
                    other => other,
                },
            ),
        },
        ExprKindView::Variant(items) => ExprKindView::Variant(
            items.update(i, VariantItemView { name: new, ..items[i] }),
        ),
        other => other,
    };
    ExprView { kind, span: expr.span }
}

/// With another child in the place of one, the size of a node changes by as
/// much as the child: it grows strictly when the child does.
pub proof fn lemma_size_with_child<'s>(expr: ExprView<'s>, i: int, new: ExprView<'s>)
    requires
        child(expr, i) is Some,
    ensures
        expr_size(with_child(expr, i, new)) + expr_size(child(expr, i).unwrap()) == expr_size(expr)
            + expr_size(new),
        expr_size(child(expr, i).unwrap()) < expr_size(new) ==> expr_size(expr) < expr_size(
            with_child(expr, i, new),
        ),
{
    let boxed = Box::new(new);
    match expr.kind {
        ExprKindView::Object { definitions } => {
            lemma_defs_size_update(definitions, i, DefView { value: boxed, ..definitions[i] });
        },
        ExprKindView::Scope { body } => {
            let item = match body[i] {
                ItemView::Expr(_) => ItemView::Expr(new),
                ItemView::Def(def) => ItemView::Def(DefView { value: boxed, ..def }),
                ItemView::Empty => ItemView::Empty,
            };
            lemma_items_size_update(body, i, item);
        },
        ExprKindView::Tuple { exprs } => {
            lemma_exprs_size_update(exprs, i, new);
        },
        ExprKindView::Variant(items) => {
            lemma_variant_items_size_update(
                items,
                i,
                VariantItemView { value: Some(new), ..items[i] },
            );
        },
        _ => {},
    }
}

/// With another subtree in the place of one, at whatever depth, the size of
/// a tree changes by as much as the subtree: it grows strictly when the
/// subtree does.
pub proof fn lemma_size_with_subtree<'s>(expr: ExprView<'s>, path: Seq<int>, new: ExprView<'s>)
    requires
        subtree(expr, path) is Some,
    ensures
        expr_size(with_subtree(expr, path, new)) + expr_size(subtree(expr, path).unwrap())
            == expr_size(expr) + expr_size(new),
        expr_size(subtree(expr, path).unwrap()) < expr_size(new) ==> expr_size(expr) < expr_size(
            with_subtree(expr, path, new),
        ),
    decreases path.len(),
{
    if path.len() > 0 {
        let below = child(expr, path[0]).unwrap();
        lemma_size_with_subtree(below, path.skip(1), new);
        lemma_size_with_child(expr, path[0], with_subtree(below, path.skip(1), new));
    }
}

/// With another text in the place of one that stands right at a node, the
/// size of the node changes by as many bytes as the text.
pub proof fn lemma_size_with_text<'s>(expr: ExprView<'s>, i: int, new: Intern<'s>)
    requires
        text(expr, i) is Some,
    ensures
        expr_size(with_text(expr, i, new)) + text(expr, i).unwrap().spec_len() == expr_size(expr)
            + new.spec_len(),
{
    match expr.kind {
        ExprKindView::Object { definitions } => {
            lemma_defs_size_update(definitions, i, DefView { name: new, ..definitions[i] });
        },
        ExprKindView::Scope { body } => {
            let item = match body[i] {
                ItemView::Def(def) => ItemView::Def(DefView { name: new, ..def }),
                other => other,
            };
            lemma_items_size_update(body, i, item);
        },
        ExprKindView::Variant(items) => {
            lemma_variant_items_size_update(items, i, VariantItemView { name: new, ..items[i] });
        },
        _ => {},
    }
}

/// With a longer text in the place of one, at whatever depth, the size of a
/// tree grows by exactly the bytes added.
pub proof fn lemma_size_grows_with_a_text<'s>(
    expr: ExprView<'s>,
    path: Seq<int>,
    i: int,
    new: Intern<'s>,
)
    requires
        subtree(expr, path) matches Some(node) && text(node, i) is Some,
    ensures
        ({
            let node = subtree(expr, path).unwrap();
            let old = text(node, i).unwrap();
            let grown = with_subtree(expr, path, with_text(node, i, new));
            &&& expr_size(grown) + old.spec_len() == expr_size(expr) + new.spec_len()
            &&& old.spec_len() < new.spec_len() ==> expr_size(expr) < expr_size(grown)
        }),
{
    let node = subtree(expr, path).unwrap();
    lemma_size_with_text(node, i, new);
    lemma_size_with_subtree(expr, path, with_text(node, i, new));
}

/// With one element more, at whatever place, the size of an object, a
/// scope, a tuple or a variant literal grows by the size of that element.
pub proof fn lemma_size_with_an_element_more<'s>(
    span: Span,
    i: int,
    definitions: Seq<DefView<'s>>,
    def: DefView<'s>,
    body: Seq<ItemView<'s>>,
    item: ItemView<'s>,
    exprs: Seq<ExprView<'s>>,
    element: ExprView<'s>,
    alternatives: Seq<VariantItemView<'s>>,
    alternative: VariantItemView<'s>,
)
    ensures
        0 <= i <= definitions.len() ==> expr_size(
            ExprView { kind: ExprKindView::Object { definitions: definitions.insert(i, def) }, span },
        ) == expr_size(ExprView { kind: ExprKindView::Object { definitions }, span })
            + spec_def_size(def),
        0 <= i <= body.len() ==> expr_size(
            ExprView { kind: ExprKindView::Scope { body: body.insert(i, item) }, span },
        ) == expr_size(ExprView { kind: ExprKindView::Scope { body }, span }) + item_size(item),
        0 <= i <= exprs.len() ==> expr_size(
            ExprView { kind: ExprKindView::Tuple { exprs: exprs.insert(i, element) }, span },
        ) == expr_size(ExprView { kind: ExprKindView::Tuple { exprs }, span }) + expr_size(
            element,
        ),
        0 <= i <= alternatives.len() ==> expr_size(
            ExprView { kind: ExprKindView::Variant(alternatives.insert(i, alternative)), span },
        ) == expr_size(ExprView { kind: ExprKindView::Variant(alternatives), span })
            + spec_varit_size(alternative),
{
    if 0 <= i <= definitions.len() {
        lemma_defs_size_insert(definitions, i, def);
    }
    if 0 <= i <= body.len() {
        lemma_items_size_insert(body, i, item);
    }
    if 0 <= i <= exprs.len() {
        lemma_exprs_size_insert(exprs, i, element);
    }
    if 0 <= i <= alternatives.len() {
        lemma_variant_items_size_insert(alternatives, i, alternative);
    }
}

/// With `x` in the place of its element `i`, the sum of the sizes of `exprs`
/// changes by as much as that element.
pub proof fn lemma_exprs_size_update<'s>(exprs: Seq<ExprView<'s>>, i: int, x: ExprView<'s>)
    requires
        0 <= i < exprs.len(),
    ensures
        exprs_size(exprs.update(i, x)) + expr_size(exprs[i]) == exprs_size(exprs) + expr_size(x),
    decreases exprs.len(),
{
    let changed = exprs.update(i, x);
    if i == exprs.len() - 1 {
        assert(changed.drop_last() =~= exprs.drop_last());
    } else {
        lemma_exprs_size_update(exprs.drop_last(), i, x);
        assert(changed.drop_last() =~= exprs.drop_last().update(i, x));
    }
}

pub proof fn lemma_defs_size_update<'s>(defs: Seq<DefView<'s>>, i: int, x: DefView<'s>)
    requires
        0 <= i < defs.len(),
    ensures
        defs_size(defs.update(i, x)) + spec_def_size(defs[i]) == defs_size(defs) + spec_def_size(x),
    decreases defs.len(),
{
    let changed = defs.update(i, x);
    if i == defs.len() - 1 {
        assert(changed.drop_last() =~= defs.drop_last());
    } else {
        lemma_defs_size_update(defs.drop_last(), i, x);
        assert(changed.drop_last() =~= defs.drop_last().update(i, x));
    }
}

pub proof fn lemma_items_size_update<'s>(items: Seq<ItemView<'s>>, i: int, x: ItemView<'s>)
    requires
        0 <= i < items.len(),
    ensures
        items_size(items.update(i, x)) + item_size(items[i]) == items_size(items) + item_size(x),
    decreases items.len(),
{
    let changed = items.update(i, x);
    if i == items.len() - 1 {
        assert(changed.drop_last() =~= items.drop_last());
    } else {
        lemma_items_size_update(items.drop_last(), i, x);
        assert(changed.drop_last() =~= items.drop_last().update(i, x));
    }
}

pub proof fn lemma_variant_items_size_update<'s>(
    items: Seq<VariantItemView<'s>>,
    i: int,
    x: VariantItemView<'s>,
)
    requires
        0 <= i < items.len(),
    ensures
        variant_items_size(items.update(i, x)) + spec_varit_size(items[i]) == variant_items_size(
            items,
        ) + spec_varit_size(x),
    decreases items.len(),
{
    let changed = items.update(i, x);
    if i == items.len() - 1 {
        assert(changed.drop_last() =~= items.drop_last());
    } else {
        lemma_variant_items_size_update(items.drop_last(), i, x);
        assert(changed.drop_last() =~= items.drop_last().update(i, x));
    }
}

/// With `x` put in at the place `i`, the sum of the sizes grows by the size
/// of `x`.
pub proof fn lemma_exprs_size_insert<'s>(exprs: Seq<ExprView<'s>>, i: int, x: ExprView<'s>)
    requires
        0 <= i <= exprs.len(),
    ensures
        exprs_size(exprs.insert(i, x)) == exprs_size(exprs) + expr_size(x),
    decreases exprs.len(),
{
    let longer = exprs.insert(i, x);
    if i == exprs.len() {
        assert(longer.drop_last() =~= exprs);
    } else {
        lemma_exprs_size_insert(exprs.drop_last(), i, x);
        assert(longer.drop_last() =~= exprs.drop_last().insert(i, x));
    }
}

pub proof fn lemma_defs_size_insert<'s>(defs: Seq<DefView<'s>>, i: int, x: DefView<'s>)
    requires
        0 <= i <= defs.len(),
    ensures
        defs_size(defs.insert(i, x)) == defs_size(defs) + spec_def_size(x),
    decreases defs.len(),
{
    let longer = defs.insert(i, x);
    if i == defs.len() {
        assert(longer.drop_last() =~= defs);
    } else {
        lemma_defs_size_insert(defs.drop_last(), i, x);
        assert(longer.drop_last() =~= defs.drop_last().insert(i, x));
    }
}

pub proof fn lemma_items_size_insert<'s>(items: Seq<ItemView<'s>>, i: int, x: ItemView<'s>)
    requires
        0 <= i <= items.len(),
    ensures
        items_size(items.insert(i, x)) == items_size(items) + item_size(x),
    decreases items.len(),
{
    let longer = items.insert(i, x);
    if i == items.len() {
        assert(longer.drop_last() =~= items);
    } else {
        lemma_items_size_insert(items.drop_last(), i, x);
        assert(longer.drop_last() =~= items.drop_last().insert(i, x));
    }
}

pub proof fn lemma_variant_items_size_insert<'s>(items: Seq<VariantItemView<'s>>, i: int, x: VariantItemView<'s>)
    requires
        0 <= i <= items.len(),
    ensures
        variant_items_size(items.insert(i, x)) == variant_items_size(items) + spec_varit_size(x),
    decreases items.len(),
{
    let longer = items.insert(i, x);
    if i == items.len() {
        assert(longer.drop_last() =~= items);
    } else {
        lemma_variant_items_size_insert(items.drop_last(), i, x);
        assert(longer.drop_last() =~= items.drop_last().insert(i, x));
    }
}

/// `n` as a machine number, if it is one.
pub open spec fn fits(n: nat) -> Option<usize> {
    if n <= usize::MAX {
        Some(n as usize)
    } else {
        None
    }
}

/// The sum of two sizes, where both are machine numbers and the sum is one.
fn plus(a: Option<usize>, b: Option<usize>) -> (sum: Option<usize>)
    ensures
        sum == match (a, b) {
            (Some(x), Some(y)) => fits((x + y) as nat),
            _ => None,
        },
{
    match (a, b) {
        (Some(x), Some(y)) => x.checked_add(y),
        _ => None,
    }
}

/// The estimated size of `expr` in bytes, if it is a machine number.
pub fn checked_ast_size<'s>(expr: &Expr<'s>) -> (size: Option<usize>)
    ensures
        size == fits(expr_size(expr@)),
    decreases expr,
{
    let inner = match &expr.kind {
        ExprKind::Object { definitions } => checked_defs_size(definitions),
        ExprKind::Scope { body } => checked_items_size(body),
        ExprKind::Lambda { arg, body } => plus(checked_ast_size(arg), checked_ast_size(body)),
        ExprKind::SqLambda { arg, expr } => plus(checked_ast_size(expr), checked_ast_size(arg)),
        ExprKind::BinOp { op, lhs, rhs } => plus(checked_ast_size(lhs), checked_ast_size(rhs)),
        ExprKind::UnOp { op, arg } => checked_ast_size(arg),
        ExprKind::Access { expr, prop } => plus(checked_ast_size(expr), Some(prop.len())),
        ExprKind::Case { cond, on_true, on_false } => plus(
            plus(checked_ast_size(cond), checked_ast_size(on_true)),
            checked_ast_size(on_false),
        ),
        ExprKind::Tuple { exprs } => checked_exprs_size(exprs),
        ExprKind::Apply { a, b } => plus(checked_ast_size(a), checked_ast_size(b)),
        ExprKind::TypeAssertion { a, b } => plus(checked_ast_size(a), checked_ast_size(b)),
        ExprKind::Variant(items) => checked_variant_items_size(items),
        ExprKind::Ident(name) => Some(name.len()),
        ExprKind::Literal(Literal::String(text)) => Some(text.len()),
        ExprKind::Literal(_) => Some(0),
    };
    plus(Some(core::mem::size_of::<Expr<'s>>()), inner)
}

/// The size of a definition, if it is a machine number.
pub fn checked_def_size<'s>(def: &Def<'s>) -> (size: Option<usize>)
    ensures
        size == fits(spec_def_size(def@)),
    decreases def,
{
    plus(
        plus(Some(core::mem::size_of::<Def<'s>>()), Some(def.name.len())),
        checked_ast_size(&def.value),
    )
}

/// The size of an alternative of a variant literal, if it is a machine
/// number.
pub fn checked_varit_size<'s>(varit: &VariantItem<'s>) -> (size: Option<usize>)
    ensures
        size == fits(spec_varit_size(varit@)),
    decreases varit,
{
    let value = match &varit.value {
        Some(value) => checked_ast_size(value),
        None => Some(0),
    };
    plus(plus(Some(core::mem::size_of::<VariantItem<'s>>()), Some(varit.name.len())), value)
}

fn checked_item_size<'s>(item: &Item<'s>) -> (size: Option<usize>)
    ensures
        size == fits(item_size(item@)),
    decreases item,
{
    let inner = match item {
        Item::Expr(expr) => checked_ast_size(expr),
        Item::Def(def) => checked_def_size(def),
        Item::Empty => Some(0),
    };
    plus(Some(ITEM_OVERHEAD), inner)
}

fn checked_exprs_size<'s>(exprs: &Vec<Expr<'s>>) -> (size: Option<usize>)
    ensures
        size == fits(exprs_size(exprs_view(exprs@))),
    decreases exprs,
{
    let mut total: Option<usize> = Some(0);
    let mut i: usize = 0;
    while i < exprs.len()
        invariant
            i <= exprs.len(),
            total == fits(exprs_size(exprs_view(exprs@).take(i as int))),
        decreases exprs.len() - i,
    {
        assert(exprs_view(exprs@).take(i + 1).drop_last() =~= exprs_view(exprs@).take(i as int));
        total = plus(total, checked_ast_size(&exprs[i]));
        i += 1;
    }
    assert(exprs_view(exprs@).take(i as int) =~= exprs_view(exprs@));
    total
}

fn checked_defs_size<'s>(defs: &Vec<Def<'s>>) -> (size: Option<usize>)
    ensures
        size == fits(defs_size(defs_view(defs@))),
    decreases defs,
{
    let mut total: Option<usize> = Some(0);
    let mut i: usize = 0;
    while i < defs.len()
        invariant
            i <= defs.len(),
            total == fits(defs_size(defs_view(defs@).take(i as int))),
        decreases defs.len() - i,
    {
        assert(defs_view(defs@).take(i + 1).drop_last() =~= defs_view(defs@).take(i as int));
        total = plus(total, checked_def_size(&defs[i]));
        i += 1;
    }
    assert(defs_view(defs@).take(i as int) =~= defs_view(defs@));
    total
}

fn checked_items_size<'s>(items: &Vec<Item<'s>>) -> (size: Option<usize>)
    ensures
        size == fits(items_size(items_view(items@))),
    decreases items,
{
    let mut total: Option<usize> = Some(0);
    let mut i: usize = 0;
    while i < items.len()
        invariant
            i <= items.len(),
            total == fits(items_size(items_view(items@).take(i as int))),
        decreases items.len() - i,
    {
        assert(items_view(items@).take(i + 1).drop_last() =~= items_view(items@).take(i as int));
        total = plus(total, checked_item_size(&items[i]));
        i += 1;
    }
    assert(items_view(items@).take(i as int) =~= items_view(items@));
    total
}

fn checked_variant_items_size<'s>(items: &Vec<VariantItem<'s>>) -> (size: Option<usize>)
    ensures
        size == fits(variant_items_size(variant_items_view(items@))),
    decreases items,
{
    let mut total: Option<usize> = Some(0);
    let mut i: usize = 0;
    while i < items.len()
        invariant
            i <= items.len(),
            total == fits(variant_items_size(variant_items_view(items@).take(i as int))),
        decreases items.len() - i,
    {
        assert(variant_items_view(items@).take(i + 1).drop_last() =~= variant_items_view(
            items@,
        ).take(i as int));
        total = plus(total, checked_varit_size(&items[i]));
        i += 1;
    }
    assert(variant_items_view(items@).take(i as int) =~= variant_items_view(items@));
    total
}

/// The estimated size of `expr` in bytes.
pub fn ast_size<'s>(expr: &Expr<'s>) -> (size: usize)
    requires
        expr_size(expr@) <= usize::MAX,
    ensures
        size == expr_size(expr@),
{
    match checked_ast_size(expr) {
        Some(size) => size,
        None => vstd::pervasive::unreached(),
    }
}

/// The size of a definition in bytes.
pub fn def_size<'s>(def: &Def<'s>) -> (size: usize)
    requires
        spec_def_size(def@) <= usize::MAX,
    ensures
        size == spec_def_size(def@),
{
    match checked_def_size(def) {
        Some(size) => size,
        None => vstd::pervasive::unreached(),
    }
}

/// The size of an alternative of a variant literal in bytes.
pub fn varit_size<'s>(varit: &VariantItem<'s>) -> (size: usize)
    requires
        spec_varit_size(varit@) <= usize::MAX,
    ensures
        size == spec_varit_size(varit@),
{
    match checked_varit_size(varit) {
        Some(size) => size,
        None => vstd::pervasive::unreached(),
    }
}

} // verus!
