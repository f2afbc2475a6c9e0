//! The grammar, as mathematics. Each production is a function of the input
//! and a position in it, and yields the tree that stands there together with
//! the number of tokens it is made of, or the error at which a parse stops.

use crate::parser::ast::{BinOp, DefView, ExprKindView, ExprView, ItemView, VariantItemView};
use crate::parser::preds::{
    Has, Is, Leaf, Level, Matcher, NameText, Never, Operator, PrefixOperator, SemicolonEnd,
    SpannedName,
};
use crate::parser::ParseError;
use crate::tokenizer::{Input, Kind, Span, Token, TokenizationError};
use vstd::prelude::*;

verus! {

/// What a production yields: a value and the number of tokens read, or the
/// error that ends the parse.
pub type Parsed<'s, T> = Result<(T, nat), ParseError<'s>>;

/// The production yields `value`, read from `n` tokens.
pub open spec fn done<'s, T>(value: T, n: nat) -> Parsed<'s, T> {
    Ok((value, n))
}

/// The production stops at `err`.
pub open spec fn failed<'s, T>(err: ParseError<'s>) -> Parsed<'s, T> {
    Err(err)
}

/// `parsed`, as seen from `k` tokens earlier.
pub open spec fn after<'s, T>(parsed: Parsed<'s, T>, k: nat) -> Parsed<'s, T> {
    match parsed {
        Ok((value, n)) => Ok((value, n + k)),
        Err(err) => Err(err),
    }
}

/// Whether a token stands at `pos` that fits `m`.
pub open spec fn has_peek<'s, M: Matcher<'s, ()>>(inp: Input<'s>, pos: nat, m: M) -> Result<
    bool,
    ParseError<'s>,
> {
    match inp.peek(pos) {
        Err(err) => Err(ParseError::lexical(err)),
        Ok(None) => Ok(false),
        Ok(Some(token)) => Ok(m.model(token) is Some),
    }
}

/// What `m` draws from the token at `pos`, which is read exactly if `m` fits
/// it.
pub open spec fn eat<'s, T, M: Matcher<'s, T>>(inp: Input<'s>, pos: nat, m: M) -> Result<
    Option<T>,
    ParseError<'s>,
> {
    match inp.peek(pos) {
        Err(err) => Err(ParseError::lexical(err)),
        Ok(None) => Ok(None),
        Ok(Some(token)) => Ok(m.model(token)),
    }
}

/// As [`require`], but the end of the input is no error.
pub open spec fn maybe_require<'s, T, M: Matcher<'s, T>>(inp: Input<'s>, pos: nat, m: M) -> Result<
    Option<T>,
    ParseError<'s>,
> {
    match inp.peek(pos) {
        Err(err) => Err(ParseError::lexical(err)),
        Ok(None) => Ok(None),
        Ok(Some(token)) => match m.model(token) {
            Some(value) => Ok(Some(value)),
            None => Err(ParseError::unexpected(token)),
        },
    }
}

/// What `m` draws from the token at `pos`, which must be there and fit.
pub open spec fn require<'s, T, M: Matcher<'s, T>>(inp: Input<'s>, pos: nat, m: M) -> Result<
    T,
    ParseError<'s>,
> {
    match maybe_require(inp, pos, m) {
        Ok(Some(value)) => Ok(value),
        Ok(None) => Err(ParseError::end_of_input()),
        Err(err) => Err(err),
    }
}

/// Whether a token stands at `pos` that does not fit `end`: whether a
/// sequence that `end` closes goes on.
pub open spec fn more<'s, T, M: Matcher<'s, T>>(inp: Input<'s>, pos: nat, end: M) -> Result<
    bool,
    ParseError<'s>,
> {
    match inp.peek(pos) {
        Err(err) => Err(ParseError::lexical(err)),
        Ok(None) => Ok(false),
        Ok(Some(token)) => Ok(end.model(token) is None),
    }
}

/// A whole program: definitions up to the end of the input.
pub open spec fn program<'s>(inp: Input<'s>, pos: nat) -> Result<ExprView<'s>, ParseError<'s>> {
    match object_body(inp, pos, Never, Seq::empty()) {
        Ok((definitions, _)) => Ok(ExprView::program(definitions)),
        Err(err) => Err(err),
    }
}

/// The definitions from `pos` up to a token that fits `end` or to the end of
/// the input, after those of `acc`.
pub open spec fn object_body<'s, M: Matcher<'s, ()>>(
    inp: Input<'s>,
    pos: nat,
    end: M,
    acc: Seq<DefView<'s>>,
) -> Parsed<'s, Seq<DefView<'s>>>
    decreases inp.remaining(pos), 0nat,
{
    match more(inp, pos, end) {
        Err(err) => Err(err),
        Ok(false) => Ok((acc, 0)),
        Ok(true) => match require(inp, pos, Is(Kind::Def)) {
            Err(err) => Err(err),
            Ok(keyword) => match def_tail(inp, pos + 1, keyword.span.start) {
                Err(err) => Err(err),
                Ok((def, n)) => after(object_body(inp, pos + 1 + n, end, acc.push(def)), 1 + n),
            },
        },
    }
}

/// An object literal of which the opening `.{` has been read: definitions up
/// to the closing brace.
pub open spec fn object<'s>(inp: Input<'s>, pos: nat, start: usize) -> Parsed<'s, ExprView<'s>>
    decreases inp.remaining(pos), 1nat,
{
    match object_body(inp, pos, Has(Kind::CloseBrace), Seq::empty()) {
        Err(err) => Err(err),
        Ok((definitions, n)) => match require(inp, pos + n, Is(Kind::CloseBrace)) {
            Err(err) => Err(err),
            Ok(close) => Ok(
                (ExprView::object(definitions, Span { start, end: close.span.end }), n + 1),
            ),
        },
    }
}

/// A definition: the keyword, and then what [`def_tail`] reads.
pub open spec fn def<'s>(inp: Input<'s>, pos: nat) -> Parsed<'s, DefView<'s>>
    decreases inp.remaining(pos), 1nat,
{
    match require(inp, pos, Is(Kind::Def)) {
        Err(err) => Err(err),
        Ok(keyword) => after(def_tail(inp, pos + 1, keyword.span.start), 1),
    }
}

/// A definition of which the keyword, which began at `start`, has been read:
/// a name and a value. A value that is a block ends the definition; any other
/// is followed by a semicolon, which ends it.
pub open spec fn def_tail<'s>(inp: Input<'s>, pos: nat, start: usize) -> Parsed<'s, DefView<'s>>
    decreases inp.remaining(pos), 0nat,
{
    match require(inp, pos, NameText) {
        Err(err) => Err(err),
        Ok(name) => match def_block(inp, pos + 1) {
            Err(err) => Err(err),
            Ok(((value, needs_semicolon), n)) => if needs_semicolon {
                match require(inp, pos + 1 + n, SemicolonEnd) {
                    Err(err) => Err(err),
                    Ok(end) => Ok(
                        (DefView { name, value: Box::new(value), span: Span { start, end } }, n + 2),
                    ),
                }
            } else {
                Ok(
                    (
                        DefView {
                            name,
                            value: Box::new(value),
                            span: Span { start, end: value.span.end },
                        },
                        n + 1,
                    ),
                )
            },
        },
    }
}

/// A brace scope `{ .. }` or an object literal `.{ .. }`, if one starts at
/// `pos`.
pub open spec fn braced<'s>(inp: Input<'s>, pos: nat) -> Parsed<'s, Option<ExprView<'s>>>
    decreases inp.remaining(pos), 0nat,
{
    match inp.peek(pos) {
        Err(err) => Err(ParseError::lexical(err)),
        Ok(None) => Ok((None, 0)),
        Ok(Some(open)) => if open.kind.tag() == Kind::OpenBrace {
            match scope(inp, pos + 1, open.span.start, Is(Kind::CloseBrace)) {
                Err(err) => Err(err),
                Ok((body, n)) => Ok((Some(body), n + 1)),
            }
        } else if open.kind.tag() == Kind::DotOpenBrace {
            match object(inp, pos + 1, open.span.start) {
                Err(err) => Err(err),
                Ok((body, n)) => Ok((Some(body), n + 1)),
            }
        } else {
            Ok((None, 0))
        },
    }
}

/// The value of a definition, and whether a semicolon must follow it.
pub open spec fn def_block<'s>(inp: Input<'s>, pos: nat) -> Parsed<'s, (ExprView<'s>, bool)>
    decreases inp.remaining(pos), 18nat,
{
    match braced(inp, pos) {
        Err(err) => Err(err),
        Ok((Some(body), n)) => Ok(((body, false), n)),
        Ok((None, _)) => def_expr(inp, pos),
    }
}

/// One element of a tuple: a block, an object literal, or an expression.
pub open spec fn block<'s>(inp: Input<'s>, pos: nat) -> Parsed<'s, ExprView<'s>>
    decreases inp.remaining(pos), 18nat,
{
    match braced(inp, pos) {
        Err(err) => Err(err),
        Ok((Some(body), n)) => Ok((body, n)),
        Ok((None, _)) => expr(inp, pos),
    }
}

/// What stands between an opening delimiter, which began at `start` and has
/// been read, and the token that fits `end`.
///
/// Nothing at all is the empty tuple. One expression alone is that
/// expression itself, with its own span. Anything else is a scope.
pub open spec fn scope<'s, M: Matcher<'s, Token<'s>>>(
    inp: Input<'s>,
    pos: nat,
    start: usize,
    end: M,
) -> Parsed<'s, ExprView<'s>>
    decreases inp.remaining(pos), 22nat,
{
    match eat(inp, pos, end) {
        Err(err) => Err(err),
        Ok(Some(close)) => Ok((ExprView::unit(start, close.span.end), 1)),
        Ok(None) => match has_peek(inp, pos, Has(Kind::Def)) {
            Err(err) => Err(err),
            Ok(true) => scope_tail(inp, pos, start, end, Seq::empty()),
            Ok(false) => match tuple(inp, pos) {
                Err(err) => Err(err),
                Ok((first, n)) => match eat(inp, pos + n, end) {
                    Err(err) => Err(err),
                    Ok(Some(_)) => Ok((first, n + 1)),
                    Ok(None) => match require(inp, pos + n, Has(Kind::Semicolon)) {
                        Err(err) => Err(err),
                        Ok(_) => after(
                            scope_tail(inp, pos + n + 1, start, end, seq![ItemView::Expr(first)]),
                            n + 1,
                        ),
                    },
                },
            },
        }
    }
}

/// The rest of a scope that holds the items of `acc` already: more items, and
/// the token that fits `end`.
pub open spec fn scope_tail<'s, M: Matcher<'s, Token<'s>>>(
    inp: Input<'s>,
    pos: nat,
    start: usize,
    end: M,
    acc: Seq<ItemView<'s>>,
) -> Parsed<'s, ExprView<'s>>
    decreases inp.remaining(pos), 21nat,
{
    match scope_items(inp, pos, end, acc) {
        Err(err) => Err(err),
        Ok((body, n)) => after(scope_close(inp, pos + n, start, end, body), n),
    }
}

/// The scope of the items of `body`, closed by the token at `pos`, which
/// must fit `end`.
pub open spec fn scope_close<'s, M: Matcher<'s, Token<'s>>>(
    inp: Input<'s>,
    pos: nat,
    start: usize,
    end: M,
    body: Seq<ItemView<'s>>,
) -> Parsed<'s, ExprView<'s>> {
    match require(inp, pos, end) {
        Err(err) => Err(err),
        Ok(close) => Ok((ExprView::scope(body, Span { start, end: close.span.end }), 1)),
    }
}

/// The items of a scope from `pos` on, after those of `acc`. Definitions and
/// expressions that a semicolon follows go on; an expression that none
/// follows is the last item, the value of the scope. Where the items end
/// otherwise, `Empty` is the last item.
pub open spec fn scope_items<'s, M: Matcher<'s, Token<'s>>>(
    inp: Input<'s>,
    pos: nat,
    end: M,
    acc: Seq<ItemView<'s>>,
) -> Parsed<'s, Seq<ItemView<'s>>>
    decreases inp.remaining(pos), 20nat,
{
    match more(inp, pos, end) {
        Err(err) => Err(err),
        Ok(false) => Ok((acc.push(ItemView::Empty), 0)),
        Ok(true) => match eat(inp, pos, Is(Kind::Def)) {
            Err(err) => Err(err),
            Ok(Some(keyword)) => match def_tail(inp, pos + 1, keyword.span.start) {
                Err(err) => Err(err),
                Ok((def, n)) => after(
                    scope_items(inp, pos + 1 + n, end, acc.push(ItemView::Def(def))),
                    1 + n,
                ),
            },
            Ok(None) => match tuple(inp, pos) {
                Err(err) => Err(err),
                Ok((item, n)) => match eat(inp, pos + n, Has(Kind::Semicolon)) {
                    Err(err) => Err(err),
                    Ok(None) => Ok((acc.push(ItemView::Expr(item)), n)),
                    Ok(Some(_)) => after(
                        scope_items(inp, pos + n + 1, end, acc.push(ItemView::Expr(item))),
                        n + 1,
                    ),
                },
            },
        },
    }
}

/// One element, or two and more between commas: the latter make a tuple.
pub open spec fn tuple<'s>(inp: Input<'s>, pos: nat) -> Parsed<'s, ExprView<'s>>
    decreases inp.remaining(pos), 19nat,
{
    match block(inp, pos) {
        Err(err) => Err(err),
        Ok((first, n)) => match has_peek(inp, pos + n, Has(Kind::Comma)) {
            Err(err) => Err(err),
            Ok(false) => Ok((first, n)),
            Ok(true) => match tuple_rest(inp, pos + n, seq![first]) {
                Err(err) => Err(err),
                Ok((exprs, m)) => Ok((ExprView::tuple(exprs), n + m)),
            },
        },
    }
}

/// The elements of `acc`, and then each element from `pos` on that a comma
/// stands before.
pub open spec fn tuple_rest<'s>(inp: Input<'s>, pos: nat, acc: Seq<ExprView<'s>>) -> Parsed<
    's,
    Seq<ExprView<'s>>,
>
    decreases inp.remaining(pos), 0nat,
{
    match eat(inp, pos, Has(Kind::Comma)) {
        Err(err) => Err(err),
        Ok(None) => Ok((acc, 0)),
        Ok(Some(_)) => match block(inp, pos + 1) {
            Err(err) => Err(err),
            Ok((item, n)) => after(tuple_rest(inp, pos + 1 + n, acc.push(item)), 1 + n),
        },
    }
}

/// An expression, and whether a definition of which it is the value needs a
/// semicolon after it.
///
/// It is an operand of the loosest tier. A block or an object literal right
/// after it makes it the parameter of a lambda with that body. Then `::` and
/// another operand of the loosest tier make a type assertion of what was read
/// so far. Only a lambda that no assertion follows needs no semicolon.
pub open spec fn def_expr<'s>(inp: Input<'s>, pos: nat) -> Parsed<'s, (ExprView<'s>, bool)>
    decreases inp.remaining(pos), 16nat,
{
    match bin_op(inp, pos, Level::Logical) {
        Err(err) => Err(err),
        Ok((head, n)) => match braced(inp, pos + n) {
            Err(err) => Err(err),
            Ok((Some(body), m)) => asserted(inp, pos + n + m, ExprView::lambda(head, body), false, n + m),
            Ok((None, _)) => asserted(inp, pos + n, head, true, n),
        },
    }
}

/// `subject`, which was read from the `k` tokens before `pos`, as the left
/// side of a type assertion if `::` stands at `pos`, and as it is if not.
pub open spec fn asserted<'s>(
    inp: Input<'s>,
    pos: nat,
    subject: ExprView<'s>,
    needs_semicolon: bool,
    k: nat,
) -> Parsed<'s, (ExprView<'s>, bool)>
    decreases inp.remaining(pos), 0nat,
{
    match eat(inp, pos, Has(Kind::ColonColon)) {
        Err(err) => Err(err),
        Ok(None) => Ok(((subject, needs_semicolon), k)),
        Ok(Some(_)) => match bin_op(inp, pos + 1, Level::Logical) {
            Err(err) => Err(err),
            Ok((ty, n)) => Ok(((ExprView::assertion(subject, ty), true), k + 1 + n)),
        },
    }
}

/// An expression. It is read as the value of a definition is.
pub open spec fn expr<'s>(inp: Input<'s>, pos: nat) -> Parsed<'s, ExprView<'s>>
    decreases inp.remaining(pos), 17nat,
{
    match def_expr(inp, pos) {
        Err(err) => Err(err),
        Ok(((value, _), n)) => Ok((value, n)),
    }
}

/// An operand of the tier `level`: operands of the next tighter tier with the
/// operators of `level` between them, grouped from the left.
pub open spec fn bin_op<'s>(inp: Input<'s>, pos: nat, level: Level) -> Parsed<'s, ExprView<'s>>
    decreases inp.remaining(pos), 2 * level.rank() + 5,
{
    match operand(inp, pos, level) {
        Err(err) => Err(err),
        Ok((first, n)) => after(bin_op_rest(inp, pos + n, level, first), n),
    }
}

/// What stands on either side of an operator of the tier `level`.
pub open spec fn operand<'s>(inp: Input<'s>, pos: nat, level: Level) -> Parsed<'s, ExprView<'s>>
    decreases inp.remaining(pos), 2 * level.rank() + 4,
{
    match level {
        Level::Logical => bin_op(inp, pos, Level::Equality),
        Level::Equality => bin_op(inp, pos, Level::Comparison),
        Level::Comparison => bin_op(inp, pos, Level::Terms),
        Level::Terms => bin_op(inp, pos, Level::Factors),
        Level::Factors => prefix(inp, pos),
    }
}

/// `lhs`, and then each operator of `level` from `pos` on with the operand
/// after it.
pub open spec fn bin_op_rest<'s>(inp: Input<'s>, pos: nat, level: Level, lhs: ExprView<'s>) -> Parsed<
    's,
    ExprView<'s>,
>
    decreases inp.remaining(pos), 0nat,
{
    match eat(inp, pos, Operator(level)) {
        Err(err) => Err(err),
        Ok(None) => Ok((lhs, 0)),
        Ok(Some(op)) => match operand(inp, pos + 1, level) {
            Err(err) => Err(err),
            Ok((rhs, n)) => after(
                bin_op_rest(inp, pos + 1 + n, level, ExprView::binary(op, lhs, rhs)),
                1 + n,
            ),
        },
    }
}

/// Any number of prefix operators, and then what [`suffix`] reads.
pub open spec fn prefix<'s>(inp: Input<'s>, pos: nat) -> Parsed<'s, ExprView<'s>>
    decreases inp.remaining(pos), 5nat,
{
    match eat(inp, pos, PrefixOperator) {
        Err(err) => Err(err),
        Ok(Some((op_span, op))) => match prefix(inp, pos + 1) {
            Err(err) => Err(err),
            Ok((arg, n)) => Ok((ExprView::prefixed(op_span, op, arg), n + 1)),
        },
        Ok(None) => suffix(inp, pos),
    }
}

/// An atom, which must be there, and what follows it: dereferences, field
/// accesses and arguments.
pub open spec fn suffix<'s>(inp: Input<'s>, pos: nat) -> Parsed<'s, ExprView<'s>>
    decreases inp.remaining(pos), 4nat,
{
    match maybe_atom(inp, pos) {
        Err(err) => Err(err),
        Ok((None, _)) => match inp.peek(pos) {
            Err(err) => Err(ParseError::lexical(err)),
            Ok(Some(token)) => Err(ParseError::unexpected(token)),
            Ok(None) => Err(ParseError::end_of_input()),
        },
        Ok((Some(head), n)) => after(suffix_rest(inp, pos + n, head), n),
    }
}

/// `head` with what follows from `pos` on, as long as something does: `^`
/// dereferences, `.` and a name reads a field, and an atom is an argument.
///
/// An atom is made of one token at least ([`lemma_atom_is_not_empty`]); the
/// test for it here makes it plain that the positions grow.
pub open spec fn suffix_rest<'s>(inp: Input<'s>, pos: nat, head: ExprView<'s>) -> Parsed<
    's,
    ExprView<'s>,
>
    decreases inp.remaining(pos), 3nat,
{
    match inp.peek(pos) {
        Err(err) => Err(ParseError::lexical(err)),
        Ok(None) => Ok((head, 0)),
        Ok(Some(token)) => if token.kind.tag() == Kind::Caret {
            after(suffix_rest(inp, pos + 1, ExprView::deref(head, token.span.end)), 1)
        } else if token.kind.tag() == Kind::Dot {
            match require(inp, pos + 1, SpannedName) {
                Err(err) => Err(err),
                Ok((prop_span, prop)) => after(
                    suffix_rest(inp, pos + 2, ExprView::access(head, prop_span, prop)),
                    2,
                ),
            }
        } else {
            match maybe_atom(inp, pos) {
                Err(err) => Err(err),
                Ok((Some(arg), n)) => if n > 0 {
                    after(suffix_rest(inp, pos + n, ExprView::apply(head, arg)), n)
                } else {
                    Ok((head, 0))
                },
                Ok((None, _)) => Ok((head, 0)),
            }
        },
    }
}

/// The atom that starts at `pos`, if one does: what stands between
/// parentheses, a variant literal, a literal or a name.
pub open spec fn maybe_atom<'s>(inp: Input<'s>, pos: nat) -> Parsed<'s, Option<ExprView<'s>>>
    decreases inp.remaining(pos), 2nat,
{
    match eat(inp, pos, Is(Kind::OpenParen)) {
        Err(err) => Err(err),
        Ok(Some(open)) => match scope(inp, pos + 1, open.span.start, Is(Kind::CloseParen)) {
            Err(err) => Err(err),
            Ok((inner, n)) => Ok((Some(inner), n + 1)),
        },
        Ok(None) => match has_peek(inp, pos, Has(Kind::Pipe)) {
            Err(err) => Err(err),
            Ok(true) => match variant(inp, pos) {
                Err(err) => Err(err),
                Ok((literal, n)) => Ok((Some(literal), n)),
            },
            Ok(false) => match eat(inp, pos, Leaf) {
                Err(err) => Err(err),
                Ok(Some((span, kind))) => Ok((Some(ExprView::leaf(span, kind)), 1)),
                Ok(None) => Ok((None, 0)),
            },
        },
    }
}

/// A variant literal: `|` and an alternative, and then every alternative
/// that follows. Without the first `|` there is none.
pub open spec fn variant<'s>(inp: Input<'s>, pos: nat) -> Parsed<'s, ExprView<'s>>
    decreases inp.remaining(pos), 1nat,
{
    match require(inp, pos, Is(Kind::Pipe)) {
        Err(err) => Err(err),
        Ok(pipe) => match variant_item(inp, pos + 1, pipe.span.start) {
            Err(err) => Err(err),
            Ok((first, n)) => match variant_items(inp, pos + 1 + n, seq![first]) {
                Err(err) => Err(err),
                Ok((items, m)) => Ok((ExprView::variant(items), 1 + n + m)),
            },
        },
    }
}

/// An alternative of which the `|`, which began at `start`, has been read: a
/// name, and after a colon the expression that is its value.
pub open spec fn variant_item<'s>(inp: Input<'s>, pos: nat, start: usize) -> Parsed<
    's,
    VariantItemView<'s>,
>
    decreases inp.remaining(pos), 0nat,
{
    match require(inp, pos, SpannedName) {
        Err(err) => Err(err),
        Ok((name_span, name)) => match eat(inp, pos + 1, Has(Kind::Colon)) {
            Err(err) => Err(err),
            Ok(None) => Ok(
                (
                    VariantItemView {
                        name,
                        value: None,
                        span: Span { start, end: name_span.end },
                    },
                    1,
                ),
            ),
            Ok(Some(_)) => match expr(inp, pos + 2) {
                Err(err) => Err(err),
                Ok((value, n)) => Ok(
                    (
                        VariantItemView {
                            name,
                            value: Some(value),
                            span: Span { start, end: value.span.end },
                        },
                        2 + n,
                    ),
                ),
            },
        },
    }
}

/// The alternatives of `acc`, and then each from `pos` on that `|` stands
/// before.
pub open spec fn variant_items<'s>(
    inp: Input<'s>,
    pos: nat,
    acc: Seq<VariantItemView<'s>>,
) -> Parsed<'s, Seq<VariantItemView<'s>>>
    decreases inp.remaining(pos), 0nat,
{
    match eat(inp, pos, Is(Kind::Pipe)) {
        Err(err) => Err(err),
        Ok(None) => Ok((acc, 0)),
        Ok(Some(pipe)) => match variant_item(inp, pos + 1, pipe.span.start) {
            Err(err) => Err(err),
            Ok((item, n)) => after(variant_items(inp, pos + 1 + n, acc.push(item)), 1 + n),
        },
    }
}

/// The operators of the tier `level` from `pos` on, each with the operand
/// after it, after those of `acc`.
pub open spec fn operands<'s>(
    inp: Input<'s>,
    pos: nat,
    level: Level,
    acc: Seq<(BinOp, ExprView<'s>)>,
) -> Parsed<'s, Seq<(BinOp, ExprView<'s>)>>
    decreases inp.remaining(pos),
{
    match eat(inp, pos, Operator(level)) {
        Err(err) => Err(err),
        Ok(None) => Ok((acc, 0)),
        Ok(Some(op)) => match operand(inp, pos + 1, level) {
            Err(err) => Err(err),
            Ok((rhs, n)) => after(operands(inp, pos + 1 + n, level, acc.push((op, rhs))), 1 + n),
        },
    }
}

/// `first` and the operands of `rest`, grouped from the left: the last
/// operator is at the root, with all that stands before it on its left.
pub open spec fn fold_left<'s>(first: ExprView<'s>, rest: Seq<(BinOp, ExprView<'s>)>) -> ExprView<
    's,
>
    decreases rest.len(),
{
    if rest.len() == 0 {
        first
    } else {
        ExprView::binary(rest.last().0, fold_left(first, rest.drop_last()), rest.last().1)
    }
}

/// An operand of a tier is the left fold of the operands read: one operand
/// alone is that operand itself, and any number of operators group from the
/// left, in the order of the source.
pub proof fn lemma_bin_op_folds_from_the_left<'s>(inp: Input<'s>, pos: nat, level: Level)
    ensures
        bin_op(inp, pos, level) == (match operand(inp, pos, level) {
            Err(err) => Err(err),
            Ok((first, n)) => match operands(inp, pos + n, level, Seq::empty()) {
                Err(err) => Err(err),
                Ok((rest, m)) => Ok((fold_left(first, rest), m + n)),
            },
        }),
{
    if let Ok((first, n)) = operand(inp, pos, level) {
        lemma_rest_folds_from_the_left(inp, pos + n, level, first, Seq::empty());
    }
}

proof fn lemma_rest_folds_from_the_left<'s>(
    inp: Input<'s>,
    pos: nat,
    level: Level,
    first: ExprView<'s>,
    acc: Seq<(BinOp, ExprView<'s>)>,
)
    ensures
        bin_op_rest(inp, pos, level, fold_left(first, acc)) == (match operands(
            inp,
            pos,
            level,
            acc,
        ) {
            Err(err) => Err(err),
            Ok((rest, m)) => Ok((fold_left(first, rest), m)),
        }),
    decreases inp.remaining(pos),
{
    if let Ok(Some(op)) = eat(inp, pos, Operator(level)) {
        if let Ok((rhs, n)) = operand(inp, pos + 1, level) {
            let longer = acc.push((op, rhs));
            assert(longer.drop_last() =~= acc);
            lemma_rest_folds_from_the_left(inp, pos + 1 + n, level, first, longer);
        }
    }
}

/// A program that parses was read to its end: no token is left over, and
/// the token stream had not failed. Whatever else the input holds ends the
/// parse with an error.
pub proof fn lemma_program_reads_everything<'s>(inp: Input<'s>, pos: nat)
    ensures
        program(inp, pos) is Ok ==> inp.failure is None && match object_body(
            inp,
            pos,
            Never,
            Seq::empty(),
        ) {
            Ok((_, n)) => pos + n >= inp.tokens.len(),
            Err(_) => false,
        },
{
    lemma_object_body_reads_everything(inp, pos, Seq::empty());
}

proof fn lemma_object_body_reads_everything<'s>(inp: Input<'s>, pos: nat, acc: Seq<DefView<'s>>)
    ensures
        match object_body(inp, pos, Never, acc) {
            Ok((_, n)) => pos + n >= inp.tokens.len() && inp.failure is None,
            Err(_) => true,
        },
    decreases inp.remaining(pos),
{
    if more(inp, pos, Never) == Ok::<bool, ParseError<'s>>(true) {
        if let Ok(keyword) = require(inp, pos, Is(Kind::Def)) {
            if let Ok((def, n)) = def_tail(inp, pos + 1, keyword.span.start) {
                lemma_object_body_reads_everything(inp, pos + 1 + n, acc.push(def));
            }
        }
    }
}

/// What stands after an opening delimiter is a tree only where the closing
/// token ends it: the last token read is of the kind `closer`. An opening
/// delimiter that is never closed gives an error.
pub proof fn lemma_scope_ends_with_its_closer<'s>(
    inp: Input<'s>,
    pos: nat,
    start: usize,
    closer: Kind,
)
    ensures
        match scope(inp, pos, start, Is(closer)) {
            Ok((_, n)) => n >= 1 && pos + n <= inp.tokens.len() && inp.tokens[pos + n
                - 1].kind.tag() == closer,
            Err(_) => true,
        },
{
    match eat(inp, pos, Is(closer)) {
        Ok(None) => match has_peek(inp, pos, Has(Kind::Def)) {
            Ok(true) => {
                lemma_scope_tail_ends_with_its_closer(inp, pos, start, closer, Seq::empty());
            },
            Ok(false) => {
                if let Ok((first, n)) = tuple(inp, pos) {
                    match eat(inp, pos + n, Is(closer)) {
                        Ok(None) => {
                            if require(inp, pos + n, Has(Kind::Semicolon)) is Ok {
                                let rest = scope_tail(
                                    inp,
                                    pos + n + 1,
                                    start,
                                    Is(closer),
                                    seq![ItemView::Expr(first)],
                                );
                                lemma_scope_tail_ends_with_its_closer(
                                    inp,
                                    pos + n + 1,
                                    start,
                                    closer,
                                    seq![ItemView::Expr(first)],
                                );
                                assert(scope(inp, pos, start, Is(closer)) == after(rest, n + 1));
                            }
                        },
                        Ok(Some(close)) => {
                            assert(scope(inp, pos, start, Is(closer)) == done(first, n + 1));
                        },
                        Err(_) => {},
                    }
                }
            },
            Err(_) => {},
        },
        Ok(Some(close)) => {
            assert(scope(inp, pos, start, Is(closer)) == done(
                ExprView::unit(start, close.span.end),
                1,
            ));
        },
        Err(_) => {},
    }
}

proof fn lemma_scope_tail_ends_with_its_closer<'s>(
    inp: Input<'s>,
    pos: nat,
    start: usize,
    closer: Kind,
    acc: Seq<ItemView<'s>>,
)
    ensures
        match scope_tail(inp, pos, start, Is(closer), acc) {
            Ok((_, n)) => n >= 1 && pos + n <= inp.tokens.len() && inp.tokens[pos + n
                - 1].kind.tag() == closer,
            Err(_) => true,
        },
{
}

/// An object literal is a tree only where a closing brace ends it.
pub proof fn lemma_object_ends_with_its_closer<'s>(inp: Input<'s>, pos: nat, start: usize)
    ensures
        match object(inp, pos, start) {
            Ok((_, n)) => n >= 1 && pos + n <= inp.tokens.len() && inp.tokens[pos + n
                - 1].kind.tag() == Kind::CloseBrace,
            Err(_) => true,
        },
{
}

/// Where the input has ended, whatever must stand there is missed: an
/// expression in any place, a definition, and what an opening delimiter
/// asks for all stop with the error for the end of the input, which has no
/// token and no span.
pub proof fn lemma_the_end_of_the_input_is_an_error<'s>(
    inp: Input<'s>,
    pos: nat,
    level: Level,
    start: usize,
    closer: Kind,
)
    requires
        inp.peek(pos) == Ok::<Option<Token<'s>>, TokenizationError>(None),
    ensures
        bin_op(inp, pos, level) == failed::<ExprView<'s>>(ParseError::end_of_input()),
        expr(inp, pos) == failed::<ExprView<'s>>(ParseError::end_of_input()),
        tuple(inp, pos) == failed::<ExprView<'s>>(ParseError::end_of_input()),
        scope(inp, pos, start, Is(closer)) == failed::<ExprView<'s>>(ParseError::end_of_input()),
        object(inp, pos, start) == failed::<ExprView<'s>>(ParseError::end_of_input()),
        variant(inp, pos) == failed::<ExprView<'s>>(ParseError::end_of_input()),
        def(inp, pos) == failed::<DefView<'s>>(ParseError::end_of_input()),
        def_tail(inp, pos, start) == failed::<DefView<'s>>(ParseError::end_of_input()),
{
    lemma_no_operand_at_the_end(inp, pos, level);
    lemma_no_operand_at_the_end(inp, pos, Level::Logical);
    assert(braced(inp, pos) == done(None::<ExprView<'s>>, 0));
    assert(def_expr(inp, pos) == failed::<(ExprView<'s>, bool)>(ParseError::end_of_input()));
    assert(expr(inp, pos) == failed::<ExprView<'s>>(ParseError::end_of_input()));
    assert(block(inp, pos) == failed::<ExprView<'s>>(ParseError::end_of_input()));
    assert(tuple(inp, pos) == failed::<ExprView<'s>>(ParseError::end_of_input()));
    assert(object_body(inp, pos, Has(Kind::CloseBrace), Seq::empty()) == done(
        Seq::<DefView<'s>>::empty(),
        0,
    ));
}

proof fn lemma_no_operand_at_the_end<'s>(inp: Input<'s>, pos: nat, level: Level)
    requires
        inp.peek(pos) == Ok::<Option<Token<'s>>, TokenizationError>(None),
    ensures
        bin_op(inp, pos, level) == failed::<ExprView<'s>>(ParseError::end_of_input()),
    decreases level.rank(),
{
    match level {
        Level::Logical => lemma_no_operand_at_the_end(inp, pos, Level::Equality),
        Level::Equality => lemma_no_operand_at_the_end(inp, pos, Level::Comparison),
        Level::Comparison => lemma_no_operand_at_the_end(inp, pos, Level::Terms),
        Level::Terms => lemma_no_operand_at_the_end(inp, pos, Level::Factors),
        Level::Factors => {
            assert(maybe_atom(inp, pos) == done(None::<ExprView<'s>>, 0));
            assert(suffix(inp, pos) == failed::<ExprView<'s>>(ParseError::end_of_input()));
            assert(prefix(inp, pos) == failed::<ExprView<'s>>(ParseError::end_of_input()));
        },
    }
}

/// After a comma comes an element: a tuple has two elements at least.
pub proof fn lemma_tuple_has_two<'s>(inp: Input<'s>, pos: nat, first: ExprView<'s>)
    requires
        has_peek(inp, pos, Has(Kind::Comma)) == Ok::<bool, ParseError<'s>>(true),
    ensures
        tuple_rest(inp, pos, seq![first]) matches Ok((exprs, _)) ==> exprs.len() >= 2,
{
    if let Ok((item, n)) = block(inp, pos + 1) {
        lemma_tuple_rest_grows(inp, pos + 1 + n, seq![first].push(item));
    }
}

/// The elements read after those of `acc` come after them.
pub proof fn lemma_tuple_rest_grows<'s>(inp: Input<'s>, pos: nat, acc: Seq<ExprView<'s>>)
    ensures
        tuple_rest(inp, pos, acc) matches Ok((exprs, _)) ==> exprs.len() >= acc.len(),
    decreases inp.remaining(pos),
{
    if eat(inp, pos, Has(Kind::Comma)) == Ok::<Option<()>, ParseError<'s>>(Some(())) {
        if let Ok((item, n)) = block(inp, pos + 1) {
            lemma_tuple_rest_grows(inp, pos + 1 + n, acc.push(item));
        }
    }
}

/// An atom that is there is made of one token at least.
pub proof fn lemma_atom_is_not_empty<'s>(inp: Input<'s>, pos: nat)
    ensures
        maybe_atom(inp, pos) matches Ok((Some(_), n)) ==> n > 0,
{
    lemma_variant_is_not_empty(inp, pos);
}

/// A variant literal is made of one token at least, and has one alternative
/// at least.
pub proof fn lemma_variant_is_not_empty<'s>(inp: Input<'s>, pos: nat)
    ensures
        match variant(inp, pos) {
            Ok((tree, n)) => n > 0 && match tree.kind {
                ExprKindView::Variant(items) => items.len() > 0,
                _ => false,
            },
            Err(_) => true,
        },
{
    if let Ok(pipe) = require(inp, pos, Is(Kind::Pipe)) {
        if let Ok((first, n)) = variant_item(inp, pos + 1, pipe.span.start) {
            lemma_variant_items_grow(inp, pos + 1 + n, seq![first]);
        }
    }
}

/// The alternatives read after those of `acc` come after them.
pub proof fn lemma_variant_items_grow<'s>(inp: Input<'s>, pos: nat, acc: Seq<VariantItemView<'s>>)
    ensures
        variant_items(inp, pos, acc) matches Ok((items, _)) ==> items.len() >= acc.len(),
    decreases inp.remaining(pos),
{
    if let Ok(Some(pipe)) = eat(inp, pos, Is(Kind::Pipe)) {
        if let Ok((item, n)) = variant_item(inp, pos + 1, pipe.span.start) {
            lemma_variant_items_grow(inp, pos + 1 + n, acc.push(item));
        }
    }
}

} // verus!
