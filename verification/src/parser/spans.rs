//! Where the nodes of a parsed tree stand: every span is in order, and the
//! span of a node holds the spans of the nodes below it.

use crate::parser::ast::{
    BinOp, DefView, ExprKindView, ExprView, ItemView, UnOp, VariantItemView,
};
use crate::parser::grammar::{
    after, asserted, bin_op, bin_op_rest, block, braced, def_block, def_expr, def_tail, eat, expr,
    has_peek, maybe_atom, more, object, object_body, operand, prefix, program, require, scope,
    lemma_tuple_has_two, lemma_variant_items_grow, scope_items, scope_tail, suffix, suffix_rest, tuple, tuple_rest,
    variant, variant_item, variant_items,
};
use crate::parser::preds::{
    Has, Is, Leaf, Level, Matcher, NameText, Never, Operator, PrefixOperator, SemicolonEnd,
    SpannedName,
};
use crate::parser::ParseError;
use crate::tokenizer::{Input, Intern, Kind, Span, Token};
use vstd::prelude::*;

verus! {

impl Span {
    /// The span does not end before it starts.
    pub open spec fn in_order(self) -> bool {
        self.start <= self.end
    }

    /// `inner` lies within this span.
    pub open spec fn holds(self, inner: Span) -> bool {
        self.start <= inner.start && inner.end <= self.end
    }
}

impl<'s> Input<'s> {
    /// The tokens stand in the source one after the other: the span of each
    /// is in order, and each ends before the next starts.
    #[verifier::opaque]
    pub open spec fn in_order(self) -> bool {
        &&& forall|i: int| 0 <= i < self.tokens.len() ==> (#[trigger] self.tokens[i]).span.in_order()
        &&& forall|i: int, j: int|
            0 <= i < j < self.tokens.len() ==> (#[trigger] self.tokens[i]).span.end <= (
            #[trigger] self.tokens[j]).span.start
    }

    /// The offset at which the tokens before `pos` have ended.
    spec fn floor(self, pos: nat) -> int {
        if pos == 0 {
            0
        } else {
            self.tokens[pos - 1].span.end as int
        }
    }
}

/// `expr` is a tree as the grammar builds it.
///
/// Every span in it is in order, and the span of each node holds those of the
/// nodes right below it, with one exception: a binary node has the span of
/// its left operand, which does not hold the right one. A lambda, an
/// application, a type assertion, a tuple that is not empty and a variant
/// literal span exactly from the start of their first child to the end of
/// their last.
///
/// No node in it is of one of the two reserved kinds, no tuple has exactly
/// one element, and every variant literal has an alternative.
pub open spec fn well_formed<'s>(expr: ExprView<'s>) -> bool
    decreases expr,
{
    &&& expr.span.in_order()
    &&& match expr.kind {
        ExprKindView::Object { definitions } => forall|i: int|
            0 <= i < definitions.len() ==> def_well_spanned(#[trigger] definitions[i])
                && expr.span.holds(definitions[i].span),
        ExprKindView::Scope { body } => forall|i: int|
            0 <= i < body.len() ==> item_well_spanned(#[trigger] body[i], expr.span),
        ExprKindView::Lambda { arg, body } => {
            &&& well_formed(*arg)
            &&& well_formed(*body)
            &&& arg.span.end <= body.span.start
            &&& expr.span == (Span { start: arg.span.start, end: body.span.end })
        },
        ExprKindView::SqLambda { arg, expr } => false,
        ExprKindView::BinOp { op, lhs, rhs } => {
            &&& well_formed(*lhs)
            &&& well_formed(*rhs)
            &&& lhs.span.end <= rhs.span.start
            &&& expr.span == lhs.span
        },
        ExprKindView::UnOp { op, arg } => well_formed(*arg) && expr.span.holds(arg.span),
        ExprKindView::Access { expr: inner, prop } => well_formed(*inner) && expr.span.holds(
            inner.span,
        ),
        ExprKindView::Case { cond, on_true, on_false } => false,
        ExprKindView::Tuple { exprs } => {
            &&& exprs.len() != 1
            &&& forall|i: int|
                0 <= i < exprs.len() ==> well_formed(#[trigger] exprs[i]) && expr.span.holds(
                    exprs[i].span,
                )
            &&& exprs.len() > 0 ==> expr.span == (Span {
                start: exprs.first().span.start,
                end: exprs.last().span.end,
            })
        },
        ExprKindView::Apply { a, b } => {
            &&& well_formed(*a)
            &&& well_formed(*b)
            &&& a.span.end <= b.span.start
            &&& expr.span == (Span { start: a.span.start, end: b.span.end })
        },
        ExprKindView::TypeAssertion { a, b } => {
            &&& well_formed(*a)
            &&& well_formed(*b)
            &&& a.span.end <= b.span.start
            &&& expr.span == (Span { start: a.span.start, end: b.span.end })
        },
        ExprKindView::Variant(items) => {
            &&& items.len() > 0
            &&& forall|i: int|
                0 <= i < items.len() ==> variant_item_well_spanned(#[trigger] items[i])
                    && expr.span.holds(items[i].span)
            &&& expr.span == (Span {
                start: items.first().span.start,
                end: items.last().span.end,
            })
        },
        ExprKindView::Ident(_) => true,
        ExprKindView::Literal(_) => true,
    }
}

/// The span of `def` is in order and holds its value, which is well spanned.
pub open spec fn def_well_spanned<'s>(def: DefView<'s>) -> bool
    decreases def,
{
    &&& def.span.in_order()
    &&& well_formed(*def.value)
    &&& def.span.holds(def.value.span)
}

/// What `item` holds is well spanned and lies within `outer`.
pub open spec fn item_well_spanned<'s>(item: ItemView<'s>, outer: Span) -> bool
    decreases item,
{
    match item {
        ItemView::Expr(expr) => well_formed(expr) && outer.holds(expr.span),
        ItemView::Def(def) => def_well_spanned(def) && outer.holds(def.span),
        ItemView::Empty => true,
    }
}

/// The span of `item` is in order; its value, if it has one, is well spanned
/// and ends it.
pub open spec fn variant_item_well_spanned<'s>(item: VariantItemView<'s>) -> bool
    decreases item,
{
    &&& item.span.in_order()
    &&& match item.value {
        Some(value) => well_formed(value) && item.span.start <= value.span.start
            && item.span.end == value.span.end,
        None => true,
    }
}

/// `tree` is well spanned and was read from the tokens from `from` up to
/// `to`, of which there is one at least: it does not start before the tokens
/// before `from` have ended, and it ends where the last of its tokens ends
/// or before.
#[verifier::opaque]
spec fn good<'s>(inp: Input<'s>, tree: ExprView<'s>, from: nat, to: nat) -> bool {
    &&& from < to <= inp.tokens.len()
    &&& well_formed(tree)
    &&& tree.span.in_order()
    &&& inp.floor(from) <= tree.span.start
    &&& tree.span.end <= inp.floor(to)
}

#[verifier::opaque]
spec fn def_good<'s>(inp: Input<'s>, def: DefView<'s>, from: nat, to: nat) -> bool {
    &&& from < to <= inp.tokens.len()
    &&& def_well_spanned(def)
    &&& inp.floor(from) <= def.span.start
    &&& def.span.end <= inp.floor(to)
}

/// The expressions of `exprs`, of which there is one at least, were read one
/// after the other from the tokens from `from` up to `to`.
#[verifier::opaque]
spec fn exprs_good<'s>(inp: Input<'s>, exprs: Seq<ExprView<'s>>, from: nat, to: nat) -> bool {
    &&& from < to <= inp.tokens.len()
    &&& exprs.len() > 0
    &&& exprs.last().span.end <= inp.floor(to)
    &&& forall|i: int|
        0 <= i < exprs.len() ==> {
            &&& well_formed(#[trigger] exprs[i])
            &&& exprs[i].span.in_order()
            &&& inp.floor(from) <= exprs[i].span.start
            &&& exprs.first().span.start <= exprs[i].span.start
            &&& exprs[i].span.end <= exprs.last().span.end
        }
}

/// The definitions of `defs` were read one after the other from the tokens
/// from `from` up to `to`.
#[verifier::opaque]
spec fn defs_good<'s>(inp: Input<'s>, defs: Seq<DefView<'s>>, from: nat, to: nat) -> bool {
    &&& from <= to <= inp.tokens.len()
    &&& defs.len() > 0 ==> defs.last().span.end <= inp.floor(to)
    &&& forall|i: int|
        0 <= i < defs.len() ==> {
            &&& def_well_spanned(#[trigger] defs[i])
            &&& inp.floor(from) <= defs[i].span.start
            &&& defs.first().span.start <= defs[i].span.start
            &&& defs[i].span.end <= defs.last().span.end
        }
}

/// The items of `items` were read from the tokens from `from` up to `to`.
#[verifier::opaque]
spec fn items_good<'s>(inp: Input<'s>, items: Seq<ItemView<'s>>, from: nat, to: nat) -> bool {
    &&& from <= to <= inp.tokens.len()
    &&& forall|i: int|
        0 <= i < items.len() ==> match #[trigger] items[i] {
            ItemView::Expr(expr) => well_formed(expr) && inp.floor(from) <= expr.span.start
                && expr.span.end <= inp.floor(to),
            ItemView::Def(def) => def_well_spanned(def) && inp.floor(from) <= def.span.start
                && def.span.end <= inp.floor(to),
            ItemView::Empty => true,
        }
}

/// The alternative `item` is well spanned and was read from the tokens from
/// `from` up to `to`.
#[verifier::opaque]
spec fn alternative_good<'s>(inp: Input<'s>, item: VariantItemView<'s>, from: nat, to: nat) -> bool {
    &&& from < to <= inp.tokens.len()
    &&& variant_item_well_spanned(item)
    &&& inp.floor(from) <= item.span.start
    &&& item.span.end <= inp.floor(to)
}

/// The alternatives of `items` were read one after the other from the tokens
/// from `from` up to `to`.
#[verifier::opaque]
spec fn variants_good<'s>(
    inp: Input<'s>,
    items: Seq<VariantItemView<'s>>,
    from: nat,
    to: nat,
) -> bool {
    &&& from <= to <= inp.tokens.len()
    &&& items.len() > 0 ==> from < to && items.last().span.end <= inp.floor(to)
    &&& forall|i: int|
        0 <= i < items.len() ==> {
            &&& variant_item_well_spanned(#[trigger] items[i])
            &&& inp.floor(from) <= items[i].span.start
            &&& items.first().span.start <= items[i].span.start
            &&& items[i].span.end <= items.last().span.end
        }
}

/// In an input that is in order the floor rises with the position, and each
/// token stands between the floor before it and the floor after it.
proof fn lemma_floors<'s>(inp: Input<'s>)
    requires
        inp.in_order(),
    ensures
        forall|p: nat, q: nat|
            p <= q <= inp.tokens.len() ==> #[trigger] inp.floor(p) <= #[trigger] inp.floor(q),
        forall|p: nat|
            p < inp.tokens.len() ==> {
                &&& inp.floor(p) <= (#[trigger] inp.tokens[p as int]).span.start
                &&& inp.tokens[p as int].span.start <= inp.tokens[p as int].span.end
                &&& inp.tokens[p as int].span.end == inp.floor(p + 1)
            },
        forall|p: nat| 0 <= #[trigger] inp.floor(p),
{
    reveal(Input::in_order);
    assert forall|p: nat, q: nat| p <= q <= inp.tokens.len() implies #[trigger] inp.floor(p)
        <= #[trigger] inp.floor(q) by {
        if 0 < p && p < q {
            assert(inp.tokens[p - 1].span.end <= inp.tokens[q - 1].span.start);
            assert(inp.tokens[q - 1].span.in_order());
        }
    }
    assert forall|p: nat| p < inp.tokens.len() implies {
        &&& inp.floor(p) <= (#[trigger] inp.tokens[p as int]).span.start
        &&& inp.tokens[p as int].span.start <= inp.tokens[p as int].span.end
        &&& inp.tokens[p as int].span.end == inp.floor(p + 1)
    } by {
        assert(inp.tokens[p as int].span.in_order());
        if p > 0 {
            assert(inp.tokens[p - 1].span.end <= inp.tokens[p as int].span.start);
        }
    }
}

proof fn lemma_widen<'s>(inp: Input<'s>, tree: ExprView<'s>, from: nat, to: nat, lo: nat, hi: nat)
    requires
        inp.in_order(),
        good(inp, tree, from, to),
        lo <= from,
        to <= hi <= inp.tokens.len(),
    ensures
        good(inp, tree, lo, hi),
{
    reveal(good);
    lemma_floors(inp);
}

proof fn lemma_lambda<'s>(
    inp: Input<'s>,
    a: ExprView<'s>,
    b: ExprView<'s>,
    from: nat,
    mid: nat,
    next: nat,
    to: nat,
)
    requires
        inp.in_order(),
        good(inp, a, from, mid),
        good(inp, b, next, to),
        mid <= next,
    ensures
        good(inp, ExprView::lambda(a, b), from, to),
{
    reveal(good);
    lemma_floors(inp);
    assert(inp.floor(mid) <= inp.floor(next));
    assert(inp.floor(from) <= inp.floor(mid));
    assert(inp.floor(next) <= inp.floor(to));
}

proof fn lemma_assertion<'s>(
    inp: Input<'s>,
    a: ExprView<'s>,
    b: ExprView<'s>,
    from: nat,
    mid: nat,
    next: nat,
    to: nat,
)
    requires
        inp.in_order(),
        good(inp, a, from, mid),
        good(inp, b, next, to),
        mid <= next,
    ensures
        good(inp, ExprView::assertion(a, b), from, to),
{
    reveal(good);
    lemma_floors(inp);
    assert(inp.floor(mid) <= inp.floor(next));
    assert(inp.floor(from) <= inp.floor(mid));
    assert(inp.floor(next) <= inp.floor(to));
}

proof fn lemma_apply<'s>(
    inp: Input<'s>,
    a: ExprView<'s>,
    b: ExprView<'s>,
    from: nat,
    mid: nat,
    next: nat,
    to: nat,
)
    requires
        inp.in_order(),
        good(inp, a, from, mid),
        good(inp, b, next, to),
        mid <= next,
    ensures
        good(inp, ExprView::apply(a, b), from, to),
{
    reveal(good);
    lemma_floors(inp);
    assert(inp.floor(mid) <= inp.floor(next));
    assert(inp.floor(from) <= inp.floor(mid));
    assert(inp.floor(next) <= inp.floor(to));
}

proof fn lemma_binary<'s>(
    inp: Input<'s>,
    op: BinOp,
    a: ExprView<'s>,
    b: ExprView<'s>,
    from: nat,
    mid: nat,
    next: nat,
    to: nat,
)
    requires
        inp.in_order(),
        good(inp, a, from, mid),
        good(inp, b, next, to),
        mid <= next,
    ensures
        good(inp, ExprView::binary(op, a, b), from, to),
{
    reveal(good);
    lemma_floors(inp);
}

proof fn lemma_prefixed<'s>(inp: Input<'s>, at: nat, op: UnOp, arg: ExprView<'s>, to: nat)
    requires
        inp.in_order(),
        at < inp.tokens.len(),
        good(inp, arg, at + 1, to),
    ensures
        good(inp, ExprView::prefixed(inp.tokens[at as int].span, op, arg), at, to),
{
    reveal(good);
    lemma_floors(inp);
}

proof fn lemma_deref<'s>(inp: Input<'s>, head: ExprView<'s>, from: nat, pos: nat)
    requires
        inp.in_order(),
        pos < inp.tokens.len(),
        good(inp, head, from, pos),
    ensures
        good(inp, ExprView::deref(head, inp.tokens[pos as int].span.end), from, pos + 1),
{
    reveal(good);
    lemma_floors(inp);
}

proof fn lemma_access<'s>(inp: Input<'s>, head: ExprView<'s>, from: nat, pos: nat, prop: Intern<'s>)
    requires
        inp.in_order(),
        pos + 1 < inp.tokens.len(),
        good(inp, head, from, pos),
    ensures
        good(inp, ExprView::access(head, inp.tokens[(pos + 1) as int].span, prop), from, pos + 2),
{
    reveal(good);
    lemma_floors(inp);
    assert(inp.floor(pos) <= inp.floor(pos + 1));
}

proof fn lemma_leaf<'s>(inp: Input<'s>, pos: nat)
    requires
        inp.in_order(),
        pos < inp.tokens.len(),
    ensures
        match Leaf.model(inp.tokens[pos as int]) {
            Some((span, kind)) => good(inp, ExprView::leaf(span, kind), pos, pos + 1),
            None => true,
        },
{
    reveal(good);
    lemma_floors(inp);
}

proof fn lemma_unit<'s>(inp: Input<'s>, at: nat, close: nat)
    requires
        inp.in_order(),
        at < close < inp.tokens.len(),
    ensures
        good(
            inp,
            ExprView::unit(inp.tokens[at as int].span.start, inp.tokens[close as int].span.end),
            at,
            close + 1,
        ),
{
    reveal(good);
    lemma_floors(inp);
    assert(inp.floor(at + 1) <= inp.floor(close));
}

proof fn lemma_scope_node<'s>(inp: Input<'s>, at: nat, close: nat, body: Seq<ItemView<'s>>)
    requires
        inp.in_order(),
        at < close < inp.tokens.len(),
        items_good(inp, body, at + 1, close),
    ensures
        good(
            inp,
            ExprView::scope(
                body,
                Span {
                    start: inp.tokens[at as int].span.start,
                    end: inp.tokens[close as int].span.end,
                },
            ),
            at,
            close + 1,
        ),
{
    reveal(good);
    reveal(items_good);
    lemma_floors(inp);
    assert(inp.floor(at + 1) <= inp.floor(close));
    let span = Span {
        start: inp.tokens[at as int].span.start,
        end: inp.tokens[close as int].span.end,
    };
    assert(inp.tokens[at as int].span.end == inp.floor(at + 1));
    assert(inp.floor(close) <= inp.tokens[close as int].span.start);
    assert forall|i: int| 0 <= i < body.len() implies item_well_spanned(
        #[trigger] body[i],
        span,
    ) by {
        match body[i] {
            ItemView::Expr(expr) => {
                assert(span.holds(expr.span));
            },
            ItemView::Def(def) => {
                assert(span.holds(def.span));
            },
            ItemView::Empty => {},
        }
    }
}

proof fn lemma_object_node<'s>(inp: Input<'s>, at: nat, close: nat, defs: Seq<DefView<'s>>)
    requires
        inp.in_order(),
        at < close < inp.tokens.len(),
        defs_good(inp, defs, at + 1, close),
    ensures
        good(
            inp,
            ExprView::object(
                defs,
                Span {
                    start: inp.tokens[at as int].span.start,
                    end: inp.tokens[close as int].span.end,
                },
            ),
            at,
            close + 1,
        ),
{
    reveal(good);
    reveal(defs_good);
    lemma_floors(inp);
    assert(inp.floor(at + 1) <= inp.floor(close));
}

proof fn lemma_tuple_node<'s>(inp: Input<'s>, exprs: Seq<ExprView<'s>>, from: nat, to: nat)
    requires
        inp.in_order(),
        exprs.len() >= 2,
        exprs_good(inp, exprs, from, to),
    ensures
        good(inp, ExprView::tuple(exprs), from, to),
{
    reveal(good);
    reveal(exprs_good);
    assert(well_formed(exprs[0]));
}

proof fn lemma_variant_node<'s>(inp: Input<'s>, items: Seq<VariantItemView<'s>>, from: nat, to: nat)
    requires
        inp.in_order(),
        items.len() > 0,
        variants_good(inp, items, from, to),
    ensures
        good(inp, ExprView::variant(items), from, to),
{
    reveal(good);
    reveal(variants_good);
    assert(variant_item_well_spanned(items[0]));
}

proof fn lemma_program_node<'s>(inp: Input<'s>, defs: Seq<DefView<'s>>, from: nat, to: nat)
    requires
        inp.in_order(),
        defs_good(inp, defs, from, to),
    ensures
        well_formed(ExprView::program(defs)),
{
    reveal(defs_good);
    if defs.len() > 0 {
        assert(def_well_spanned(defs[0]));
    }
}

/// Of a definition that its value ends.
proof fn lemma_def_open<'s>(inp: Input<'s>, at: nat, name: Intern<'s>, value: ExprView<'s>, to: nat)
    requires
        inp.in_order(),
        at < inp.tokens.len(),
        good(inp, value, at + 2, to),
    ensures
        def_good(
            inp,
            DefView {
                name,
                value: Box::new(value),
                span: Span { start: inp.tokens[at as int].span.start, end: value.span.end },
            },
            at,
            to,
        ),
{
    reveal(good);
    reveal(def_good);
    lemma_floors(inp);
    assert(inp.floor(at + 1) <= inp.floor(at + 2));
}

/// Of a definition that the semicolon at `semi` ends.
proof fn lemma_def_closed<'s>(
    inp: Input<'s>,
    at: nat,
    name: Intern<'s>,
    value: ExprView<'s>,
    semi: nat,
)
    requires
        inp.in_order(),
        semi < inp.tokens.len(),
        good(inp, value, at + 2, semi),
    ensures
        def_good(
            inp,
            DefView {
                name,
                value: Box::new(value),
                span: Span {
                    start: inp.tokens[at as int].span.start,
                    end: inp.tokens[semi as int].span.end,
                },
            },
            at,
            semi + 1,
        ),
{
    reveal(good);
    reveal(def_good);
    lemma_floors(inp);
    assert(inp.floor(at + 1) <= inp.floor(at + 2));
}

proof fn lemma_exprs_one<'s>(inp: Input<'s>, x: ExprView<'s>, from: nat, to: nat)
    requires
        good(inp, x, from, to),
    ensures
        exprs_good(inp, seq![x], from, to),
{
    reveal(good);
    reveal(exprs_good);
}

proof fn lemma_exprs_push<'s>(
    inp: Input<'s>,
    acc: Seq<ExprView<'s>>,
    x: ExprView<'s>,
    from: nat,
    pos: nat,
    next: nat,
    to: nat,
)
    requires
        inp.in_order(),
        exprs_good(inp, acc, from, pos),
        good(inp, x, next, to),
        pos <= next,
    ensures
        exprs_good(inp, acc.push(x), from, to),
{
    reveal(good);
    reveal(exprs_good);
    lemma_floors(inp);
    let all = acc.push(x);
    assert(inp.floor(from) <= inp.floor(next));
    assert(inp.floor(pos) <= inp.floor(next));
    assert(well_formed(acc[0]));
    assert forall|i: int| 0 <= i < all.len() implies {
        &&& well_formed(#[trigger] all[i])
        &&& all[i].span.in_order()
        &&& inp.floor(from) <= all[i].span.start
        &&& all.first().span.start <= all[i].span.start
        &&& all[i].span.end <= all.last().span.end
    } by {
        if i < acc.len() {
            assert(well_formed(acc[i]));
        }
    }
}

proof fn lemma_items_none<'s>(inp: Input<'s>, from: nat, to: nat)
    requires
        from <= to <= inp.tokens.len(),
    ensures
        items_good(inp, Seq::<ItemView<'s>>::empty(), from, to),
{
    reveal(items_good);
}

proof fn lemma_items_push<'s>(
    inp: Input<'s>,
    acc: Seq<ItemView<'s>>,
    from: nat,
    pos: nat,
    to: nat,
)
    requires
        inp.in_order(),
        items_good(inp, acc, from, pos),
        pos <= to <= inp.tokens.len(),
    ensures
        items_good(inp, acc.push(ItemView::Empty), from, to),
        forall|x: ExprView<'s>, next: nat, end: nat|
            from <= next && end <= to && #[trigger] good(inp, x, next, end) ==> items_good(
                inp,
                acc.push(ItemView::Expr(x)),
                from,
                to,
            ),
        forall|d: DefView<'s>, next: nat, end: nat|
            from <= next && end <= to && #[trigger] def_good(inp, d, next, end) ==> items_good(
                inp,
                acc.push(ItemView::Def(d)),
                from,
                to,
            ),
{
    reveal(good);
    reveal(def_good);
    reveal(items_good);
    lemma_floors(inp);
    assert(inp.floor(pos) <= inp.floor(to));
    assert forall|x: ExprView<'s>, next: nat, end: nat|
        from <= next && end <= to && #[trigger] good(inp, x, next, end) implies items_good(
        inp,
        acc.push(ItemView::Expr(x)),
        from,
        to,
    ) by {
        assert(inp.floor(from) <= inp.floor(next));
        assert(inp.floor(end) <= inp.floor(to));
    }
    assert forall|d: DefView<'s>, next: nat, end: nat|
        from <= next && end <= to && #[trigger] def_good(inp, d, next, end) implies items_good(
        inp,
        acc.push(ItemView::Def(d)),
        from,
        to,
    ) by {
        assert(inp.floor(from) <= inp.floor(next));
        assert(inp.floor(end) <= inp.floor(to));
    }
}

proof fn lemma_defs_none<'s>(inp: Input<'s>, from: nat, to: nat)
    requires
        from <= to <= inp.tokens.len(),
    ensures
        defs_good(inp, Seq::<DefView<'s>>::empty(), from, to),
{
    reveal(defs_good);
}

proof fn lemma_defs_push<'s>(
    inp: Input<'s>,
    acc: Seq<DefView<'s>>,
    d: DefView<'s>,
    from: nat,
    pos: nat,
    next: nat,
    to: nat,
)
    requires
        inp.in_order(),
        defs_good(inp, acc, from, pos),
        def_good(inp, d, next, to),
        from <= next,
        pos <= next,
    ensures
        defs_good(inp, acc.push(d), from, to),
{
    reveal(def_good);
    reveal(defs_good);
    lemma_floors(inp);
    let all = acc.push(d);
    assert(inp.floor(from) <= inp.floor(next));
    assert(inp.floor(pos) <= inp.floor(next));
    if acc.len() > 0 {
        assert(def_well_spanned(acc[0]));
    }
    assert forall|i: int| 0 <= i < all.len() implies {
        &&& def_well_spanned(#[trigger] all[i])
        &&& inp.floor(from) <= all[i].span.start
        &&& all.first().span.start <= all[i].span.start
        &&& all[i].span.end <= all.last().span.end
    } by {
        if i < acc.len() {
            assert(def_well_spanned(acc[i]));
        }
    }
}

/// Of the alternative without a value whose `|` is the token at `at`.
proof fn lemma_alternative_plain<'s>(inp: Input<'s>, at: nat, name: Intern<'s>)
    requires
        inp.in_order(),
        at + 1 < inp.tokens.len(),
    ensures
        alternative_good(
            inp,
            VariantItemView {
                name,
                value: None,
                span: Span {
                    start: inp.tokens[at as int].span.start,
                    end: inp.tokens[(at + 1) as int].span.end,
                },
            },
            at,
            at + 2,
        ),
{
    reveal(alternative_good);
    lemma_floors(inp);
    assert(inp.floor(at + 1) <= inp.floor(at + 2));
}

/// Of the alternative with the value `value` whose `|` is the token at `at`.
proof fn lemma_alternative_valued<'s>(
    inp: Input<'s>,
    at: nat,
    name: Intern<'s>,
    value: ExprView<'s>,
    to: nat,
)
    requires
        inp.in_order(),
        at < inp.tokens.len(),
        good(inp, value, at + 3, to),
    ensures
        alternative_good(
            inp,
            VariantItemView {
                name,
                value: Some(value),
                span: Span { start: inp.tokens[at as int].span.start, end: value.span.end },
            },
            at,
            to,
        ),
{
    reveal(good);
    reveal(alternative_good);
    lemma_floors(inp);
    assert(inp.floor(at + 1) <= inp.floor(at + 3));
}

proof fn lemma_variants_one<'s>(inp: Input<'s>, item: VariantItemView<'s>, from: nat, to: nat)
    requires
        alternative_good(inp, item, from, to),
    ensures
        variants_good(inp, seq![item], from, to),
{
    reveal(alternative_good);
    reveal(variants_good);
}

proof fn lemma_variants_push<'s>(
    inp: Input<'s>,
    acc: Seq<VariantItemView<'s>>,
    item: VariantItemView<'s>,
    from: nat,
    pos: nat,
    next: nat,
    to: nat,
)
    requires
        inp.in_order(),
        variants_good(inp, acc, from, pos),
        alternative_good(inp, item, next, to),
        from <= next,
        pos <= next,
    ensures
        variants_good(inp, acc.push(item), from, to),
{
    reveal(alternative_good);
    reveal(variants_good);
    lemma_floors(inp);
    let all = acc.push(item);
    assert(inp.floor(from) <= inp.floor(next));
    assert(inp.floor(pos) <= inp.floor(next));
    if acc.len() > 0 {
        assert(variant_item_well_spanned(acc[0]));
    }
    assert forall|i: int| 0 <= i < all.len() implies {
        &&& variant_item_well_spanned(#[trigger] all[i])
        &&& inp.floor(from) <= all[i].span.start
        &&& all.first().span.start <= all[i].span.start
        &&& all[i].span.end <= all.last().span.end
    } by {
        if i < acc.len() {
            assert(variant_item_well_spanned(acc[i]));
        }
    }
}

/// A tree that was read as a whole program from an input that is in order
/// is well spanned.
pub proof fn lemma_parsed_tree_is_well_formed<'s>(inp: Input<'s>, pos: nat)
    requires
        inp.in_order(),
    ensures
        match program(inp, pos) {
            Ok(tree) => well_formed(tree),
            Err(_) => true,
        },
{
    if pos <= inp.tokens.len() {
        lemma_defs_none(inp, pos, pos);
        lemma_object_body(inp, pos, Never, Seq::empty(), pos);
        if let Ok((defs, n)) = object_body(inp, pos, Never, Seq::empty()) {
            lemma_program_node(inp, defs, pos, pos + n);
        }
    }
}

proof fn lemma_object_body<'s, M: Matcher<'s, ()>>(
    inp: Input<'s>,
    pos: nat,
    end: M,
    acc: Seq<DefView<'s>>,
    from: nat,
)
    requires
        inp.in_order(),
        from <= pos,
        defs_good(inp, acc, from, pos),
    ensures
        match object_body(inp, pos, end, acc) {
            Ok((defs, n)) => defs_good(inp, defs, from, pos + n),
            Err(_) => true,
        },
    decreases inp.remaining(pos), 0nat,
{
    if more(inp, pos, end) == Ok::<bool, ParseError<'s>>(true) {
        if let Ok(keyword) = require(inp, pos, Is(Kind::Def)) {
            lemma_def_tail(inp, pos);
            if let Ok((def, n)) = def_tail(inp, pos + 1, keyword.span.start) {
                lemma_defs_push(inp, acc, def, from, pos, pos, pos + 1 + n);
                lemma_object_body(inp, pos + 1 + n, end, acc.push(def), from);
            }
        }
    }
}

/// Of the object literal whose opening token is the one at `at`.
proof fn lemma_object<'s>(inp: Input<'s>, at: nat)
    requires
        inp.in_order(),
        at < inp.tokens.len(),
    ensures
        match object(inp, at + 1, inp.tokens[at as int].span.start) {
            Ok((tree, n)) => good(inp, tree, at, at + 1 + n),
            Err(_) => true,
        },
    decreases inp.remaining(at + 1), 1nat,
{
    lemma_defs_none(inp, at + 1, at + 1);
    lemma_object_body(inp, at + 1, Has(Kind::CloseBrace), Seq::empty(), at + 1);
    if let Ok((defs, n)) = object_body(inp, at + 1, Has(Kind::CloseBrace), Seq::empty()) {
        if require(inp, at + 1 + n, Is(Kind::CloseBrace)) is Ok {
            lemma_object_node(inp, at, at + 1 + n, defs);
        }
    }
}

/// Of the definition whose keyword is the token at `at`.
proof fn lemma_def_tail<'s>(inp: Input<'s>, at: nat)
    requires
        inp.in_order(),
        at < inp.tokens.len(),
    ensures
        match def_tail(inp, at + 1, inp.tokens[at as int].span.start) {
            Ok((def, n)) => def_good(inp, def, at, at + 1 + n),
            Err(_) => true,
        },
    decreases inp.remaining(at + 1), 0nat,
{
    if let Ok(name) = require(inp, at + 1, NameText) {
        lemma_def_block(inp, at + 2);
        if let Ok(((value, needs_semicolon), n)) = def_block(inp, at + 2) {
            if needs_semicolon {
                if require(inp, at + 2 + n, SemicolonEnd) is Ok {
                    lemma_def_closed(inp, at, name, value, at + 2 + n);
                }
            } else {
                lemma_def_open(inp, at, name, value, at + 2 + n);
            }
        }
    }
}

proof fn lemma_braced<'s>(inp: Input<'s>, pos: nat)
    requires
        inp.in_order(),
    ensures
        match braced(inp, pos) {
            Ok((Some(tree), n)) => good(inp, tree, pos, pos + n),
            _ => true,
        },
    decreases inp.remaining(pos), 0nat,
{
    if let Ok(Some(open)) = inp.peek(pos) {
        if open.kind.tag() == Kind::OpenBrace {
            lemma_scope(inp, pos, Kind::CloseBrace);
        } else if open.kind.tag() == Kind::DotOpenBrace {
            lemma_object(inp, pos);
        }
    }
}

proof fn lemma_def_block<'s>(inp: Input<'s>, pos: nat)
    requires
        inp.in_order(),
    ensures
        match def_block(inp, pos) {
            Ok(((tree, _), n)) => good(inp, tree, pos, pos + n),
            Err(_) => true,
        },
    decreases inp.remaining(pos), 18nat,
{
    lemma_braced(inp, pos);
    lemma_def_expr(inp, pos);
}

proof fn lemma_block<'s>(inp: Input<'s>, pos: nat)
    requires
        inp.in_order(),
    ensures
        match block(inp, pos) {
            Ok((tree, n)) => good(inp, tree, pos, pos + n),
            Err(_) => true,
        },
    decreases inp.remaining(pos), 18nat,
{
    lemma_braced(inp, pos);
    lemma_expr(inp, pos);
}

/// Of what stands after the opening delimiter at `at`, up to a token of the
/// kind `closer`.
proof fn lemma_scope<'s>(inp: Input<'s>, at: nat, closer: Kind)
    requires
        inp.in_order(),
        at < inp.tokens.len(),
    ensures
        match scope(inp, at + 1, inp.tokens[at as int].span.start, Is(closer)) {
            Ok((tree, n)) => good(inp, tree, at, at + 1 + n),
            Err(_) => true,
        },
    decreases inp.remaining(at + 1), 22nat,
{
    let pos = at + 1;
    match eat(inp, pos, Is(closer)) {
        Ok(Some(_)) => {
            lemma_unit(inp, at, pos);
        },
        Ok(None) => {
            lemma_items_none(inp, pos, pos);
            match has_peek(inp, pos, Has(Kind::Def)) {
                Ok(true) => {
                    lemma_scope_tail(inp, pos, at, closer, Seq::empty());
                },
                Ok(false) => {
                    lemma_tuple(inp, pos);
                    if let Ok((first, n)) = tuple(inp, pos) {
                        match eat(inp, pos + n, Is(closer)) {
                            Ok(Some(_)) => {
                                lemma_widen(inp, first, pos, pos + n, at, pos + n + 1);
                            },
                            Ok(None) => {
                                if require(inp, pos + n, Has(Kind::Semicolon)) is Ok {
                                    lemma_items_push(inp, Seq::empty(), pos, pos, pos + n + 1);
                                    assert(good(inp, first, pos, pos + n));
                                    lemma_scope_tail(
                                        inp,
                                        pos + n + 1,
                                        at,
                                        closer,
                                        seq![ItemView::Expr(first)],
                                    );
                                }
                            },
                            Err(_) => {},
                        }
                    }
                },
                Err(_) => {},
            }
        },
        Err(_) => {},
    }
}

proof fn lemma_scope_tail<'s>(
    inp: Input<'s>,
    pos: nat,
    at: nat,
    closer: Kind,
    acc: Seq<ItemView<'s>>,
)
    requires
        inp.in_order(),
        at < pos,
        items_good(inp, acc, at + 1, pos),
    ensures
        match scope_tail(inp, pos, inp.tokens[at as int].span.start, Is(closer), acc) {
            Ok((tree, n)) => good(inp, tree, at, pos + n),
            Err(_) => true,
        },
    decreases inp.remaining(pos), 21nat,
{
    lemma_scope_items(inp, pos, closer, acc, at + 1);
    if let Ok((body, n)) = scope_items(inp, pos, Is(closer), acc) {
        if require(inp, pos + n, Is(closer)) is Ok {
            lemma_scope_node(inp, at, pos + n, body);
        }
    }
}

proof fn lemma_scope_items<'s>(
    inp: Input<'s>,
    pos: nat,
    closer: Kind,
    acc: Seq<ItemView<'s>>,
    from: nat,
)
    requires
        inp.in_order(),
        from <= pos,
        items_good(inp, acc, from, pos),
    ensures
        match scope_items(inp, pos, Is(closer), acc) {
            Ok((items, n)) => items_good(inp, items, from, pos + n),
            Err(_) => true,
        },
    decreases inp.remaining(pos), 20nat,
{
    match more(inp, pos, Is(closer)) {
        Ok(true) => {
            match eat(inp, pos, Is(Kind::Def)) {
                Ok(Some(keyword)) => {
                    lemma_def_tail(inp, pos);
                    if let Ok((def, n)) = def_tail(inp, pos + 1, keyword.span.start) {
                        assert(pos + 1 + n <= inp.tokens.len()) by {
                            reveal(def_good);
                        }
                        lemma_items_push(inp, acc, from, pos, pos + 1 + n);
                        assert(def_good(inp, def, pos, pos + 1 + n));
                        lemma_scope_items(
                            inp,
                            pos + 1 + n,
                            closer,
                            acc.push(ItemView::Def(def)),
                            from,
                        );
                    }
                },
                Ok(None) => {
                    lemma_tuple(inp, pos);
                    if let Ok((item, n)) = tuple(inp, pos) {
                        assert(good(inp, item, pos, pos + n));
                        match eat(inp, pos + n, Has(Kind::Semicolon)) {
                            Ok(Some(_)) => {
                                lemma_items_push(inp, acc, from, pos, pos + n + 1);
                                lemma_scope_items(
                                    inp,
                                    pos + n + 1,
                                    closer,
                                    acc.push(ItemView::Expr(item)),
                                    from,
                                );
                            },
                            Ok(None) => {
                                assert(pos + n <= inp.tokens.len()) by {
                                    reveal(good);
                                }
                                lemma_items_push(inp, acc, from, pos, pos + n);
                            },
                            Err(_) => {},
                        }
                    }
                },
                Err(_) => {},
            }
        },
        Ok(false) => {
            assert(pos <= inp.tokens.len()) by {
                reveal(items_good);
            }
            lemma_items_push(inp, acc, from, pos, pos);
        },
        Err(_) => {},
    }
}

proof fn lemma_tuple<'s>(inp: Input<'s>, pos: nat)
    requires
        inp.in_order(),
    ensures
        match tuple(inp, pos) {
            Ok((tree, n)) => good(inp, tree, pos, pos + n),
            Err(_) => true,
        },
    decreases inp.remaining(pos), 19nat,
{
    lemma_block(inp, pos);
    if let Ok((first, n)) = block(inp, pos) {
        if has_peek(inp, pos + n, Has(Kind::Comma)) == Ok::<bool, ParseError<'s>>(true) {
            lemma_exprs_one(inp, first, pos, pos + n);
            lemma_tuple_rest(inp, pos + n, seq![first], pos);
            if let Ok((exprs, m)) = tuple_rest(inp, pos + n, seq![first]) {
                lemma_tuple_has_two(inp, pos + n, first);
                lemma_tuple_node(inp, exprs, pos, pos + n + m);
            }
        }
    }
}

proof fn lemma_tuple_rest<'s>(inp: Input<'s>, pos: nat, acc: Seq<ExprView<'s>>, from: nat)
    requires
        inp.in_order(),
        exprs_good(inp, acc, from, pos),
    ensures
        match tuple_rest(inp, pos, acc) {
            Ok((exprs, n)) => exprs_good(inp, exprs, from, pos + n),
            Err(_) => true,
        },
    decreases inp.remaining(pos), 0nat,
{
    if eat(inp, pos, Has(Kind::Comma)) == Ok::<_, ParseError<'s>>(Some(())) {
        lemma_block(inp, pos + 1);
        if let Ok((item, n)) = block(inp, pos + 1) {
            lemma_exprs_push(inp, acc, item, from, pos, pos + 1, pos + 1 + n);
            lemma_tuple_rest(inp, pos + 1 + n, acc.push(item), from);
        }
    }
}

proof fn lemma_def_expr<'s>(inp: Input<'s>, pos: nat)
    requires
        inp.in_order(),
    ensures
        match def_expr(inp, pos) {
            Ok(((tree, _), n)) => good(inp, tree, pos, pos + n),
            Err(_) => true,
        },
    decreases inp.remaining(pos), 16nat,
{
    lemma_bin_op(inp, pos, Level::Logical);
    if let Ok((head, n)) = bin_op(inp, pos, Level::Logical) {
        lemma_braced(inp, pos + n);
        match braced(inp, pos + n) {
            Ok((Some(body), m)) => {
                lemma_lambda(inp, head, body, pos, pos + n, pos + n, pos + n + m);
                lemma_asserted(inp, pos + n + m, ExprView::lambda(head, body), false, n + m, pos);
            },
            Ok((None, _)) => {
                lemma_asserted(inp, pos + n, head, true, n, pos);
            },
            Err(_) => {},
        }
    }
}

proof fn lemma_asserted<'s>(
    inp: Input<'s>,
    pos: nat,
    subject: ExprView<'s>,
    needs_semicolon: bool,
    k: nat,
    from: nat,
)
    requires
        inp.in_order(),
        pos == from + k,
        good(inp, subject, from, pos),
    ensures
        match asserted(inp, pos, subject, needs_semicolon, k) {
            Ok(((tree, _), n)) => good(inp, tree, from, from + n),
            Err(_) => true,
        },
    decreases inp.remaining(pos), 0nat,
{
    if eat(inp, pos, Has(Kind::ColonColon)) == Ok::<_, ParseError<'s>>(Some(())) {
        lemma_bin_op(inp, pos + 1, Level::Logical);
        if let Ok((ty, n)) = bin_op(inp, pos + 1, Level::Logical) {
            lemma_assertion(inp, subject, ty, from, pos, pos + 1, pos + 1 + n);
        }
    }
}

proof fn lemma_expr<'s>(inp: Input<'s>, pos: nat)
    requires
        inp.in_order(),
    ensures
        match expr(inp, pos) {
            Ok((tree, n)) => good(inp, tree, pos, pos + n),
            Err(_) => true,
        },
    decreases inp.remaining(pos), 17nat,
{
    lemma_def_expr(inp, pos);
}

proof fn lemma_bin_op<'s>(inp: Input<'s>, pos: nat, level: Level)
    requires
        inp.in_order(),
    ensures
        match bin_op(inp, pos, level) {
            Ok((tree, n)) => good(inp, tree, pos, pos + n),
            Err(_) => true,
        },
    decreases inp.remaining(pos), 2 * level.rank() + 5,
{
    lemma_operand(inp, pos, level);
    if let Ok((first, n)) = operand(inp, pos, level) {
        lemma_bin_op_rest(inp, pos + n, level, first, pos);
    }
}

proof fn lemma_operand<'s>(inp: Input<'s>, pos: nat, level: Level)
    requires
        inp.in_order(),
    ensures
        match operand(inp, pos, level) {
            Ok((tree, n)) => good(inp, tree, pos, pos + n),
            Err(_) => true,
        },
    decreases inp.remaining(pos), 2 * level.rank() + 4,
{
    match level {
        Level::Logical => lemma_bin_op(inp, pos, Level::Equality),
        Level::Equality => lemma_bin_op(inp, pos, Level::Comparison),
        Level::Comparison => lemma_bin_op(inp, pos, Level::Terms),
        Level::Terms => lemma_bin_op(inp, pos, Level::Factors),
        Level::Factors => lemma_prefix(inp, pos),
    }
}

proof fn lemma_bin_op_rest<'s>(inp: Input<'s>, pos: nat, level: Level, lhs: ExprView<'s>, from: nat)
    requires
        inp.in_order(),
        good(inp, lhs, from, pos),
    ensures
        match bin_op_rest(inp, pos, level, lhs) {
            Ok((tree, n)) => good(inp, tree, from, pos + n),
            Err(_) => true,
        },
    decreases inp.remaining(pos), 0nat,
{
    if let Ok(Some(op)) = eat(inp, pos, Operator(level)) {
        lemma_operand(inp, pos + 1, level);
        if let Ok((rhs, n)) = operand(inp, pos + 1, level) {
            lemma_binary(inp, op, lhs, rhs, from, pos, pos + 1, pos + 1 + n);
            lemma_bin_op_rest(inp, pos + 1 + n, level, ExprView::binary(op, lhs, rhs), from);
        }
    }
}

proof fn lemma_prefix<'s>(inp: Input<'s>, pos: nat)
    requires
        inp.in_order(),
    ensures
        match prefix(inp, pos) {
            Ok((tree, n)) => good(inp, tree, pos, pos + n),
            Err(_) => true,
        },
    decreases inp.remaining(pos), 5nat,
{
    match eat(inp, pos, PrefixOperator) {
        Ok(Some((_, op))) => {
            lemma_prefix(inp, pos + 1);
            if let Ok((arg, n)) = prefix(inp, pos + 1) {
                lemma_prefixed(inp, pos, op, arg, pos + 1 + n);
            }
        },
        Ok(None) => {
            lemma_suffix(inp, pos);
        },
        Err(_) => {},
    }
}

proof fn lemma_suffix<'s>(inp: Input<'s>, pos: nat)
    requires
        inp.in_order(),
    ensures
        match suffix(inp, pos) {
            Ok((tree, n)) => good(inp, tree, pos, pos + n),
            Err(_) => true,
        },
    decreases inp.remaining(pos), 4nat,
{
    lemma_maybe_atom(inp, pos);
    match maybe_atom(inp, pos) {
        Ok((Some(head), n)) => {
            lemma_suffix_rest(inp, pos + n, head, pos);
            lemma_suffix_joins(inp, pos, head, n);
        },
        _ => {
            lemma_suffix_needs_an_atom(inp, pos);
        },
    }
}

/// Without an atom there is no operand.
proof fn lemma_suffix_needs_an_atom<'s>(inp: Input<'s>, pos: nat)
    ensures
        match maybe_atom(inp, pos) {
            Ok((Some(_), _)) => true,
            _ => suffix(inp, pos) is Err,
        },
{
}

proof fn lemma_suffix_joins<'s>(inp: Input<'s>, pos: nat, head: ExprView<'s>, n: nat)
    requires
        maybe_atom(inp, pos) == Ok::<_, ParseError<'s>>((Some(head), n)),
        match suffix_rest(inp, pos + n, head) {
            Ok((tree, m)) => good(inp, tree, pos, pos + n + m),
            Err(_) => true,
        },
    ensures
        match suffix(inp, pos) {
            Ok((tree, m)) => good(inp, tree, pos, pos + m),
            Err(_) => true,
        },
{
    assert(suffix(inp, pos) == after(suffix_rest(inp, pos + n, head), n));
}

proof fn lemma_suffix_rest<'s>(inp: Input<'s>, pos: nat, head: ExprView<'s>, from: nat)
    requires
        inp.in_order(),
        good(inp, head, from, pos),
    ensures
        match suffix_rest(inp, pos, head) {
            Ok((tree, n)) => good(inp, tree, from, pos + n),
            Err(_) => true,
        },
    decreases inp.remaining(pos), 3nat,
{
    if let Ok(Some(token)) = inp.peek(pos) {
        if token.kind.tag() == Kind::Caret {
            lemma_deref(inp, head, from, pos);
            lemma_suffix_rest(inp, pos + 1, ExprView::deref(head, token.span.end), from);
        } else if token.kind.tag() == Kind::Dot {
            if let Ok((prop_span, prop)) = require(inp, pos + 1, SpannedName) {
                lemma_access(inp, head, from, pos, prop);
                lemma_suffix_rest(inp, pos + 2, ExprView::access(head, prop_span, prop), from);
            }
        } else {
            lemma_maybe_atom(inp, pos);
            if let Ok((Some(arg), n)) = maybe_atom(inp, pos) {
                lemma_apply(inp, head, arg, from, pos, pos, pos + n);
                if n > 0 {
                    lemma_suffix_rest(inp, pos + n, ExprView::apply(head, arg), from);
                }
            }
        }
    }
}

proof fn lemma_maybe_atom<'s>(inp: Input<'s>, pos: nat)
    requires
        inp.in_order(),
    ensures
        match maybe_atom(inp, pos) {
            Ok((Some(tree), n)) => good(inp, tree, pos, pos + n),
            _ => true,
        },
    decreases inp.remaining(pos), 2nat,
{
    match eat(inp, pos, Is(Kind::OpenParen)) {
        Ok(Some(_)) => {
            lemma_scope(inp, pos, Kind::CloseParen);
        },
        Ok(None) => {
            if has_peek(inp, pos, Has(Kind::Pipe)) == Ok::<bool, ParseError<'s>>(true) {
                lemma_variant(inp, pos);
            } else if pos < inp.tokens.len() {
                lemma_leaf(inp, pos);
            }
        },
        Err(_) => {},
    }
}

proof fn lemma_variant<'s>(inp: Input<'s>, pos: nat)
    requires
        inp.in_order(),
    ensures
        match variant(inp, pos) {
            Ok((tree, n)) => good(inp, tree, pos, pos + n),
            Err(_) => true,
        },
    decreases inp.remaining(pos), 1nat,
{
    if let Ok(pipe) = require(inp, pos, Is(Kind::Pipe)) {
        lemma_variant_item(inp, pos);
        if let Ok((first, n)) = variant_item(inp, pos + 1, pipe.span.start) {
            lemma_variants_one(inp, first, pos, pos + 1 + n);
            lemma_variant_items(inp, pos + 1 + n, seq![first], pos);
            if let Ok((items, m)) = variant_items(inp, pos + 1 + n, seq![first]) {
                lemma_variant_items_grow(inp, pos + 1 + n, seq![first]);
                lemma_variant_node(inp, items, pos, pos + 1 + n + m);
            }
        }
    }
}

/// Of the alternative whose `|` is the token at `at`.
proof fn lemma_variant_item<'s>(inp: Input<'s>, at: nat)
    requires
        inp.in_order(),
        at < inp.tokens.len(),
    ensures
        match variant_item(inp, at + 1, inp.tokens[at as int].span.start) {
            Ok((item, n)) => alternative_good(inp, item, at, at + 1 + n),
            Err(_) => true,
        },
    decreases inp.remaining(at + 1), 0nat,
{
    if let Ok((_, name)) = require(inp, at + 1, SpannedName) {
        match eat(inp, at + 2, Has(Kind::Colon)) {
            Ok(None) => {
                lemma_alternative_plain(inp, at, name);
            },
            Ok(Some(_)) => {
                lemma_expr(inp, at + 3);
                if let Ok((value, n)) = expr(inp, at + 3) {
                    lemma_alternative_valued(inp, at, name, value, at + 3 + n);
                }
            },
            Err(_) => {},
        }
    }
}

proof fn lemma_variant_items<'s>(
    inp: Input<'s>,
    pos: nat,
    acc: Seq<VariantItemView<'s>>,
    from: nat,
)
    requires
        inp.in_order(),
        from <= pos,
        variants_good(inp, acc, from, pos),
    ensures
        match variant_items(inp, pos, acc) {
            Ok((items, n)) => variants_good(inp, items, from, pos + n),
            Err(_) => true,
        },
    decreases inp.remaining(pos), 0nat,
{
    if let Ok(Some(pipe)) = eat(inp, pos, Is(Kind::Pipe)) {
        lemma_variant_item(inp, pos);
        if let Ok((item, n)) = variant_item(inp, pos + 1, pipe.span.start) {
            lemma_variants_push(inp, acc, item, from, pos, pos, pos + 1 + n);
            lemma_variant_items(inp, pos + 1 + n, acc.push(item), from);
        }
    }
}

} // verus!
