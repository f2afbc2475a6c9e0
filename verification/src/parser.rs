//! The recursive-descent parser.

pub use crate::parser::ast::{Def, Expr, Item, VariantItem};
use crate::parser::ast::{
    defs_view, exprs_view, items_view, option_view, variant_items_view, ExprView, ItemView,
    VariantItemView,
};
use crate::parser::grammar::{after, done, failed, lemma_program_reads_everything, Parsed};
use crate::parser::preds::{
    Has, Is, Leaf, Level, Matcher, NameText, Never, Operator, PrefixOperator, SemicolonEnd,
    SpannedName,
};
use crate::parser::spans::{lemma_parsed_tree_is_well_formed, well_formed};
use crate::tokenizer::{Input, Kind, Span, Token, TokenizationError, Tokens};
use vstd::prelude::*;

pub mod ast;
pub mod grammar;
pub mod preds;
pub mod spans;
pub mod utils;

pub use crate::parser::ast::{BinOp, ExprKind, Literal, UnOp};

verus! {

/// Why a parse stopped, and where in the source, if that is known.
#[derive(Clone, Copy, Debug, PartialEq, Eq)]
pub struct ParseError<'s> {
    pub kind: ParseErrorKind<'s>,
    pub span: Option<Span>,
}

#[derive(Clone, Copy, Debug, PartialEq, Eq)]
pub enum ParseErrorKind<'s> {
    /// Another token was needed than the one found; `None` where the input
    /// had ended.
    Unexpected(Option<Token<'s>>),
    /// The token stream itself failed.
    TokenizationError(TokenizationError),
}

impl<'s> ParseError<'s> {
    /// The token stream failed with `err`.
    pub open spec fn lexical(err: TokenizationError) -> Self {
        ParseError { span: err.span, kind: ParseErrorKind::TokenizationError(err) }
    }

    /// `token` stands where another was needed.
    pub open spec fn unexpected(token: Token<'s>) -> Self {
        ParseError { span: Some(token.span), kind: ParseErrorKind::Unexpected(Some(token)) }
    }

    /// The input ended where a token was needed.
    pub open spec fn end_of_input() -> Self {
        ParseError { span: None, kind: ParseErrorKind::Unexpected(None) }
    }

    /// This error tells of what stands at `pos` in `inp`: the token found
    /// there, the end of the input, or the failure of the stream.
    pub open spec fn found_at(self, inp: Input<'s>, pos: nat) -> bool {
        match self.kind {
            ParseErrorKind::Unexpected(found) => inp.peek(pos) == Ok::<
                Option<Token<'s>>,
                TokenizationError,
            >(found),
            ParseErrorKind::TokenizationError(err) => inp.peek(pos) == Err::<
                Option<Token<'s>>,
                TokenizationError,
            >(err),
        }
    }
}

impl<'s> From<TokenizationError> for ParseError<'s> {
    fn from(err: TokenizationError) -> (res: Self) {
        ParseError { span: err.span, kind: ParseErrorKind::TokenizationError(err) }
    }
}

impl<'s> vstd::std_specs::convert::FromSpecImpl<TokenizationError> for ParseError<'s> {
    open spec fn obeys_from_spec() -> bool {
        true
    }

    open spec fn from_spec(err: TokenizationError) -> Self {
        ParseError { span: err.span, kind: ParseErrorKind::TokenizationError(err) }
    }
}

/// Reads a whole program from `tokens`: the definitions up to the end of the
/// input, as one object. The first error ends the parse, and then there is no
/// tree.
///
/// The parser calls itself once for each level of nesting in the source, so
/// that the depth of the source bounds the depth of the call stack.
pub fn parse<'s>(tokens: Tokens<'s>) -> (res: Result<Expr<'s>, ParseError<'s>>)
    ensures
        match res {
            Ok(tree) => grammar::program(tokens@, tokens.position()) == Ok::<
                ExprView<'s>,
                ParseError<'s>,
            >(tree@),
            Err(err) => grammar::program(tokens@, tokens.position()) == Err::<
                ExprView<'s>,
                ParseError<'s>,
            >(err),
        },
        res is Ok ==> tokens@.failure is None,
        res is Ok && tokens@.in_order() ==> well_formed(res->Ok_0@),
{
    proof {
        lemma_program_reads_everything(tokens@, tokens.position());
        if tokens@.in_order() {
            lemma_parsed_tree_is_well_formed(tokens@, tokens.position());
        }
    }
    Parser { tokens }.parse()
}

struct Parser<'s> {
    tokens: Tokens<'s>,
}

impl<'s> Parser<'s> {
    spec fn input(&self) -> Input<'s> {
        self.tokens@
    }

    spec fn pos(&self) -> nat {
        self.tokens.position()
    }

    /// The number of tokens not yet read.
    spec fn left(&self) -> nat {
        self.input().remaining(self.pos())
    }

    /// This parser has come from `before` by reading what `model` says, and
    /// `res` is what `model` says, seen through `view`. After an error the
    /// parser stands before what the error tells of: nothing of it was read.
    spec fn yields<T, V>(
        &self,
        before: &Self,
        res: Result<T, ParseError<'s>>,
        view: spec_fn(T) -> V,
        model: Parsed<'s, V>,
    ) -> bool {
        &&& self.input() == before.input()
        &&& match model {
            Ok((value, n)) => self.pos() == before.pos() + n && match res {
                Ok(out) => view(out) == value,
                Err(_) => false,
            },
            Err(err) => res == Err::<T, ParseError<'s>>(err) && err.found_at(
                self.input(),
                self.pos(),
            ),
        }
    }

    fn parse(self) -> (res: Result<Expr<'s>, ParseError<'s>>)
        ensures
            match res {
                Ok(tree) => grammar::program(self.input(), self.pos()) == Ok::<
                    ExprView<'s>,
                    ParseError<'s>,
                >(tree@),
                Err(err) => grammar::program(self.input(), self.pos()) == Err::<
                    ExprView<'s>,
                    ParseError<'s>,
                >(err),
            },
    {
        let mut parser = self;
        let definitions = parser.object_body(&Never)?;
        Ok(Expr::program(definitions))
    }

    fn object_body<M: Matcher<'s, ()>>(&mut self, end: &M) -> (res: Result<
        Vec<Def<'s>>,
        ParseError<'s>,
    >)
        ensures
            final(self).yields(
                old(self),
                res,
                |defs: Vec<Def<'s>>| defs_view(defs@),
                grammar::object_body(old(self).input(), old(self).pos(), *end, Seq::empty()),
            ),
        decreases old(self).left(), 1nat,
    {
        let mut defs: Vec<Def<'s>> = Vec::new();
        let ghost mut k: nat = 0;
        assert(defs_view(defs@) =~= Seq::empty());
        loop
            invariant_except_break
                grammar::object_body(old(self).input(), old(self).pos(), *end, Seq::empty())
                    == after(
                    grammar::object_body(self.input(), self.pos(), *end, defs_view(defs@)),
                    k,
                ),
            invariant
                self.input() == old(self).input(),
                self.pos() == old(self).pos() + k,
            ensures
                grammar::object_body(old(self).input(), old(self).pos(), *end, Seq::empty())
                    == done(defs_view(defs@), k),
            decreases self.left(),
        {
            if !self.more(end)? {
                break ;
            }
            let ghost before = self.pos();
            let def = self.def()?;
            proof {
                k = k + (self.pos() - before) as nat;
                assert(defs_view(defs@.push(def)) =~= defs_view(defs@).push(def@));
            }
            defs.push(def);
        }
        Ok(defs)
    }

    /// An object literal of which the opening `.{`, which began at `start`,
    /// has been read.
    fn object(&mut self, start: usize) -> (res: Result<Expr<'s>, ParseError<'s>>)
        ensures
            final(self).yields(
                old(self),
                res,
                |e: Expr<'s>| e@,
                grammar::object(old(self).input(), old(self).pos(), start),
            ),
        decreases old(self).left(), 2nat,
    {
        let definitions = self.object_body(&Has(Kind::CloseBrace))?;
        let close = self.require(&Is(Kind::CloseBrace))?;
        Ok(Expr::object(definitions, Span { start, end: close.span.end }))
    }

    fn def(&mut self) -> (res: Result<Def<'s>, ParseError<'s>>)
        ensures
            final(self).yields(
                old(self),
                res,
                |d: Def<'s>| d@,
                grammar::def(old(self).input(), old(self).pos()),
            ),
            res is Ok ==> final(self).pos() > old(self).pos() && final(self).left() < old(
                self,
            ).left(),
        decreases old(self).left(), 0nat,
    {
        let keyword = self.require(&Is(Kind::Def))?;
        let name = self.require(&NameText)?;
        let (value, needs_semicolon) = self.def_block()?;
        let end = if needs_semicolon {
            self.require(&SemicolonEnd)?
        } else {
            value.span.end
        };
        Ok(Def { name, value: Box::new(value), span: Span { start: keyword.span.start, end } })
    }

    /// A brace scope or an object literal, if one starts here.
    fn braced(&mut self) -> (res: Result<Option<Expr<'s>>, ParseError<'s>>)
        ensures
            final(self).yields(
                old(self),
                res,
                |e: Option<Expr<'s>>| option_view(e),
                grammar::braced(old(self).input(), old(self).pos()),
            ),
        decreases old(self).left(), 0nat,
    {
        if let Some(open) = self.eat(&Is(Kind::OpenBrace))? {
            Ok(Some(self.scope(open.span.start, &Is(Kind::CloseBrace))?))
        } else if let Some(open) = self.eat(&Is(Kind::DotOpenBrace))? {
            Ok(Some(self.object(open.span.start)?))
        } else {
            Ok(None)
        }
    }

    fn def_block(&mut self) -> (res: Result<(Expr<'s>, bool), ParseError<'s>>)
        ensures
            final(self).yields(
                old(self),
                res,
                |v: (Expr<'s>, bool)| (v.0@, v.1),
                grammar::def_block(old(self).input(), old(self).pos()),
            ),
        decreases old(self).left(), 28nat,
    {
        match self.braced()? {
            Some(body) => Ok((body, false)),
            None => self.def_expr(),
        }
    }

    fn block(&mut self) -> (res: Result<Expr<'s>, ParseError<'s>>)
        ensures
            final(self).yields(
                old(self),
                res,
                |e: Expr<'s>| e@,
                grammar::block(old(self).input(), old(self).pos()),
            ),
        decreases old(self).left(), 28nat,
    {
        match self.braced()? {
            Some(body) => Ok(body),
            None => self.expr(),
        }
    }

    fn scope<M: Matcher<'s, Token<'s>>>(&mut self, start: usize, end: &M) -> (res: Result<
        Expr<'s>,
        ParseError<'s>,
    >)
        ensures
            final(self).yields(
                old(self),
                res,
                |e: Expr<'s>| e@,
                grammar::scope(old(self).input(), old(self).pos(), start, *end),
            ),
        decreases old(self).left(), 32nat,
    {
        if let Some(close) = self.eat(end)? {
            return Ok(Expr::unit(start, close.span.end));
        }
        let mut body: Vec<Item<'s>> = Vec::new();
        if !self.has_peek(&Has(Kind::Def))? {
            let first = self.tuple()?;
            if self.eat(end)?.is_some() {
                return Ok(first);
            }
            self.require(&Has(Kind::Semicolon))?;
            assert(items_view(body@.push(Item::Expr(first))) =~= seq![ast::ItemView::Expr(first@)]);
            body.push(Item::Expr(first));
        } else {
            assert(items_view(body@) =~= Seq::empty());
        }
        let body = self.scope_items(end, body)?;
        let close = self.require(end)?;
        Ok(Expr::scope(body, Span { start, end: close.span.end }))
    }

    /// The items of a scope from here on, after those of `acc`.
    fn scope_items<M: Matcher<'s, Token<'s>>>(&mut self, end: &M, acc: Vec<Item<'s>>) -> (res:
        Result<Vec<Item<'s>>, ParseError<'s>>)
        ensures
            final(self).yields(
                old(self),
                res,
                |items: Vec<Item<'s>>| items_view(items@),
                grammar::scope_items(old(self).input(), old(self).pos(), *end, items_view(acc@)),
            ),
        decreases old(self).left(), 31nat,
    {
        let ghost first = items_view(acc@);
        let mut body = acc;
        let ghost mut k: nat = 0;
        loop
            invariant_except_break
                grammar::scope_items(old(self).input(), old(self).pos(), *end, first) == after(
                    grammar::scope_items(self.input(), self.pos(), *end, items_view(body@)),
                    k,
                ),
            invariant
                self.input() == old(self).input(),
                self.pos() == old(self).pos() + k,
                first == items_view(acc@),
            ensures
                grammar::scope_items(old(self).input(), old(self).pos(), *end, first) == done(
                    items_view(body@),
                    k,
                ),
            decreases self.left(),
        {
            let ghost before = self.pos();
            let (item, goes_on) = self.scope_item(end, Ghost(items_view(body@)))?;
            assert(items_view(body@.push(item)) =~= items_view(body@).push(item@));
            body.push(item);
            proof {
                k = k + (self.pos() - before) as nat;
            }
            if !goes_on {
                break ;
            }
        }
        Ok(body)
    }

    /// The next item of a scope that holds the items of `acc`, and whether
    /// more items follow it.
    fn scope_item<M: Matcher<'s, Token<'s>>>(
        &mut self,
        end: &M,
        Ghost(acc): Ghost<Seq<ItemView<'s>>>,
    ) -> (res: Result<(Item<'s>, bool), ParseError<'s>>)
        ensures
            final(self).input() == old(self).input(),
            match res {
                Ok((item, true)) => final(self).pos() > old(self).pos() && final(self).left() < old(
                    self,
                ).left() && grammar::scope_items(
                    old(self).input(),
                    old(self).pos(),
                    *end,
                    acc,
                ) == after(
                    grammar::scope_items(
                        old(self).input(),
                        final(self).pos(),
                        *end,
                        acc.push(item@),
                    ),
                    (final(self).pos() - old(self).pos()) as nat,
                ),
                Ok((item, false)) => final(self).pos() >= old(self).pos() && grammar::scope_items(
                    old(self).input(),
                    old(self).pos(),
                    *end,
                    acc,
                ) == done(acc.push(item@), (final(self).pos() - old(self).pos()) as nat),
                Err(err) => grammar::scope_items(old(self).input(), old(self).pos(), *end, acc)
                    == failed::<Seq<ItemView<'s>>>(err) && err.found_at(
                    final(self).input(),
                    final(self).pos(),
                ),
            },
        decreases old(self).left(), 30nat,
    {
        if !self.more(end)? {
            Ok((Item::Empty, false))
        } else if self.has_peek(&Has(Kind::Def))? {
            let def = self.def()?;
            Ok((Item::Def(def), true))
        } else {
            let expr = self.tuple()?;
            let semicolon = self.eat(&Has(Kind::Semicolon))?;
            Ok((Item::Expr(expr), semicolon.is_some()))
        }
    }

    fn tuple(&mut self) -> (res: Result<Expr<'s>, ParseError<'s>>)
        ensures
            final(self).yields(
                old(self),
                res,
                |e: Expr<'s>| e@,
                grammar::tuple(old(self).input(), old(self).pos()),
            ),
        decreases old(self).left(), 29nat,
    {
        let first = self.block()?;
        if self.has_peek(&Has(Kind::Comma))? {
            let ghost from = self.pos();
            let ghost n0 = (self.pos() - old(self).pos()) as nat;
            let ghost head = first@;
            let mut items: Vec<Expr<'s>> = Vec::new();
            assert(exprs_view(items@.push(first)) =~= seq![first@]);
            items.push(first);
            let ghost mut k: nat = 0;
            loop
                invariant_except_break
                    grammar::tuple_rest(self.input(), from, seq![head]) == after(
                        grammar::tuple_rest(self.input(), self.pos(), exprs_view(items@)),
                        k,
                    ),
                invariant
                    self.input() == old(self).input(),
                    self.pos() == from + k,
                    from == old(self).pos() + n0,
                    items.len() > 0,
                    grammar::tuple(old(self).input(), old(self).pos()) == (match grammar::tuple_rest(
                        self.input(),
                        from,
                        seq![head],
                    ) {
                        Err(err) => Err(err),
                        Ok((exprs, m)) => Ok((ExprView::tuple(exprs), n0 + m)),
                    }),
                ensures
                    grammar::tuple_rest(self.input(), from, seq![head]) == done(exprs_view(items@), k),
                decreases self.left(),
            {
                let ghost before = self.pos();
                if self.eat(&Has(Kind::Comma))?.is_none() {
                    break ;
                }
                let item = self.block()?;
                assert(exprs_view(items@.push(item)) =~= exprs_view(items@).push(item@));
                items.push(item);
                proof {
                    k = k + (self.pos() - before) as nat;
                }
            }
            Ok(Expr::tuple(items))
        } else {
            Ok(first)
        }
    }

    fn def_expr(&mut self) -> (res: Result<(Expr<'s>, bool), ParseError<'s>>)
        ensures
            final(self).yields(
                old(self),
                res,
                |v: (Expr<'s>, bool)| (v.0@, v.1),
                grammar::def_expr(old(self).input(), old(self).pos()),
            ),
        decreases old(self).left(), 26nat,
    {
        let head = self.logical()?;
        let (subject, needs_semicolon) = match self.braced()? {
            Some(body) => (Expr::lambda(head, body), false),
            None => (head, true),
        };
        if self.eat(&Has(Kind::ColonColon))?.is_some() {
            let ty = self.logical()?;
            Ok((Expr::assertion(subject, ty), true))
        } else {
            Ok((subject, needs_semicolon))
        }
    }

    fn expr(&mut self) -> (res: Result<Expr<'s>, ParseError<'s>>)
        ensures
            final(self).yields(
                old(self),
                res,
                |e: Expr<'s>| e@,
                grammar::expr(old(self).input(), old(self).pos()),
            ),
        decreases old(self).left(), 27nat,
    {
        let (value, _) = self.def_expr()?;
        Ok(value)
    }

    fn logical(&mut self) -> (res: Result<Expr<'s>, ParseError<'s>>)
        ensures
            final(self).yields(
                old(self),
                res,
                |e: Expr<'s>| e@,
                grammar::bin_op(old(self).input(), old(self).pos(), Level::Logical),
            ),
        decreases old(self).left(), 25nat,
    {
        self.bin_op(Level::Logical)
    }

    fn equal(&mut self) -> (res: Result<Expr<'s>, ParseError<'s>>)
        ensures
            final(self).yields(
                old(self),
                res,
                |e: Expr<'s>| e@,
                grammar::bin_op(old(self).input(), old(self).pos(), Level::Equality),
            ),
        decreases old(self).left(), 22nat,
    {
        self.bin_op(Level::Equality)
    }

    fn cmp(&mut self) -> (res: Result<Expr<'s>, ParseError<'s>>)
        ensures
            final(self).yields(
                old(self),
                res,
                |e: Expr<'s>| e@,
                grammar::bin_op(old(self).input(), old(self).pos(), Level::Comparison),
            ),
        decreases old(self).left(), 19nat,
    {
        self.bin_op(Level::Comparison)
    }

    fn terms(&mut self) -> (res: Result<Expr<'s>, ParseError<'s>>)
        ensures
            final(self).yields(
                old(self),
                res,
                |e: Expr<'s>| e@,
                grammar::bin_op(old(self).input(), old(self).pos(), Level::Terms),
            ),
        decreases old(self).left(), 16nat,
    {
        self.bin_op(Level::Terms)
    }

    fn factors(&mut self) -> (res: Result<Expr<'s>, ParseError<'s>>)
        ensures
            final(self).yields(
                old(self),
                res,
                |e: Expr<'s>| e@,
                grammar::bin_op(old(self).input(), old(self).pos(), Level::Factors),
            ),
        decreases old(self).left(), 13nat,
    {
        self.bin_op(Level::Factors)
    }

    /// What stands on either side of an operator of the tier `level`.
    fn operand(&mut self, level: Level) -> (res: Result<Expr<'s>, ParseError<'s>>)
        ensures
            final(self).yields(
                old(self),
                res,
                |e: Expr<'s>| e@,
                grammar::operand(old(self).input(), old(self).pos(), level),
            ),
        decreases old(self).left(), 3 * level.rank() + 8,
    {
        match level {
            Level::Logical => self.equal(),
            Level::Equality => self.cmp(),
            Level::Comparison => self.terms(),
            Level::Terms => self.factors(),
            Level::Factors => self.prefix(),
        }
    }

    fn prefix(&mut self) -> (res: Result<Expr<'s>, ParseError<'s>>)
        ensures
            final(self).yields(
                old(self),
                res,
                |e: Expr<'s>| e@,
                grammar::prefix(old(self).input(), old(self).pos()),
            ),
        decreases old(self).left(), 7nat,
    {
        if let Some((op_span, op)) = self.eat(&PrefixOperator)? {
            let arg = self.prefix()?;
            Ok(Expr::prefixed(op_span, op, arg))
        } else {
            self.suffix()
        }
    }

    fn suffix(&mut self) -> (res: Result<Expr<'s>, ParseError<'s>>)
        ensures
            final(self).yields(
                old(self),
                res,
                |e: Expr<'s>| e@,
                grammar::suffix(old(self).input(), old(self).pos()),
            ),
        decreases old(self).left(), 6nat,
    {
        match self.maybe_atom()? {
            Some(head) => self.suffix_rest(head),
            None => match self.tokens.peek() {
                Ok(Some(token)) => Err(
                    ParseError {
                        kind: ParseErrorKind::Unexpected(Some(*token)),
                        span: Some(token.span),
                    },
                ),
                Ok(None) => Err(ParseError { kind: ParseErrorKind::Unexpected(None), span: None }),
                Err(err) => Err(ParseError::from(err)),
            },
        }
    }

    /// `atom` with the dereferences, field accesses and arguments that
    /// follow it.
    fn suffix_rest(&mut self, atom: Expr<'s>) -> (res: Result<Expr<'s>, ParseError<'s>>)
        ensures
            final(self).yields(
                old(self),
                res,
                |e: Expr<'s>| e@,
                grammar::suffix_rest(old(self).input(), old(self).pos(), atom@),
            ),
        decreases old(self).left(), 5nat,
    {
        let ghost first = atom@;
        let mut head = atom;
        let ghost mut k: nat = 0;
        loop
            invariant_except_break
                grammar::suffix_rest(old(self).input(), old(self).pos(), first) == after(
                    grammar::suffix_rest(self.input(), self.pos(), head@),
                    k,
                ),
            invariant
                self.input() == old(self).input(),
                self.pos() == old(self).pos() + k,
                first == atom@,
            ensures
                grammar::suffix_rest(old(self).input(), old(self).pos(), first) == done(head@, k),
            decreases self.left(),
        {
            let ghost before = self.pos();
            let (next, applied) = self.suffix_step(head)?;
            head = next;
            if !applied {
                break ;
            }
            proof {
                k = k + (self.pos() - before) as nat;
            }
        }
        Ok(head)
    }

    /// `head` with the one dereference, field access or argument that
    /// follows it, and whether one did.
    fn suffix_step(&mut self, head: Expr<'s>) -> (res: Result<(Expr<'s>, bool), ParseError<'s>>)
        ensures
            final(self).input() == old(self).input(),
            match res {
                Ok((next, true)) => final(self).pos() > old(self).pos() && final(self).left() < old(
                    self,
                ).left() && grammar::suffix_rest(
                    old(self).input(),
                    old(self).pos(),
                    head@,
                ) == after(
                    grammar::suffix_rest(old(self).input(), final(self).pos(), next@),
                    (final(self).pos() - old(self).pos()) as nat,
                ),
                Ok((next, false)) => next@ == head@ && final(self).pos() == old(self).pos()
                    && grammar::suffix_rest(old(self).input(), old(self).pos(), head@) == done(
                    head@,
                    0,
                ),
                Err(err) => grammar::suffix_rest(old(self).input(), old(self).pos(), head@)
                    == failed::<ExprView<'s>>(err) && err.found_at(
                    final(self).input(),
                    final(self).pos(),
                ),
            },
        decreases old(self).left(), 4nat,
    {
        if let Some(caret) = self.eat(&Is(Kind::Caret))? {
            Ok((Expr::deref(head, caret.span.end), true))
        } else if self.eat(&Is(Kind::Dot))?.is_some() {
            let (prop_span, prop) = self.require(&SpannedName)?;
            Ok((Expr::access(head, prop_span, prop), true))
        } else if let Some(arg) = self.maybe_atom()? {
            Ok((Expr::apply(head, arg), true))
        } else {
            Ok((head, false))
        }
    }

    fn maybe_atom(&mut self) -> (res: Result<Option<Expr<'s>>, ParseError<'s>>)
        ensures
            final(self).yields(
                old(self),
                res,
                |e: Option<Expr<'s>>| option_view(e),
                grammar::maybe_atom(old(self).input(), old(self).pos()),
            ),
            res matches Ok(Some(_)) ==> final(self).pos() > old(self).pos() && final(self).left()
                < old(self).left(),
        decreases old(self).left(), 2nat,
    {
        if let Some(open) = self.eat(&Is(Kind::OpenParen))? {
            Ok(Some(self.scope(open.span.start, &Is(Kind::CloseParen))?))
        } else if self.has_peek(&Has(Kind::Pipe))? {
            Ok(Some(self.variant()?))
        } else if let Some((span, kind)) = self.eat(&Leaf)? {
            Ok(Some(Expr::leaf(span, kind)))
        } else {
            Ok(None)
        }
    }

    fn variant(&mut self) -> (res: Result<Expr<'s>, ParseError<'s>>)
        ensures
            final(self).yields(
                old(self),
                res,
                |e: Expr<'s>| e@,
                grammar::variant(old(self).input(), old(self).pos()),
            ),
            res is Ok ==> final(self).pos() > old(self).pos() && final(self).left() < old(
                self,
            ).left(),
        decreases old(self).left(), 1nat,
    {
        let pipe = self.require(&Is(Kind::Pipe))?;
        let first = self.variant_item(pipe.span.start)?;
        let ghost from = self.pos();
        let ghost n0 = (self.pos() - old(self).pos()) as nat;
        let ghost head = first@;
        let mut items: Vec<VariantItem<'s>> = Vec::new();
        assert(variant_items_view(items@.push(first)) =~= seq![first@]);
        items.push(first);
        let ghost mut k: nat = 0;
        loop
            invariant_except_break
                grammar::variant_items(self.input(), from, seq![head]) == after(
                    grammar::variant_items(self.input(), self.pos(), variant_items_view(items@)),
                    k,
                ),
            invariant
                self.input() == old(self).input(),
                self.pos() == from + k,
                from == old(self).pos() + n0,
                n0 > 0,
                self.left() < old(self).left(),
                items.len() > 0,
                grammar::variant(old(self).input(), old(self).pos()) == (
                match grammar::variant_items(self.input(), from, seq![head]) {
                    Err(err) => Err(err),
                    Ok((all, m)) => Ok((ExprView::variant(all), n0 + m)),
                }),
            ensures
                grammar::variant_items(self.input(), from, seq![head]) == done(
                    variant_items_view(items@),
                    k,
                ),
            decreases self.left(),
        {
            let ghost before = self.pos();
            let pipe = match self.eat(&Is(Kind::Pipe))? {
                Some(pipe) => pipe,
                None => {
                    break ;
                },
            };
            let item = self.variant_item(pipe.span.start)?;
            assert(variant_items_view(items@.push(item)) =~= variant_items_view(items@).push(
                item@,
            ));
            items.push(item);
            proof {
                k = k + (self.pos() - before) as nat;
            }
        }
        Ok(Expr::variant(items))
    }

    /// An alternative of a variant literal of which the `|`, which began at
    /// `start`, has been read.
    fn variant_item(&mut self, start: usize) -> (res: Result<VariantItem<'s>, ParseError<'s>>)
        ensures
            final(self).yields(
                old(self),
                res,
                |item: VariantItem<'s>| item@,
                grammar::variant_item(old(self).input(), old(self).pos(), start),
            ),
            res is Ok ==> final(self).pos() > old(self).pos(),
        decreases old(self).left(), 0nat,
    {
        let (name_span, name) = self.require(&SpannedName)?;
        if self.eat(&Has(Kind::Colon))?.is_some() {
            let value = self.expr()?;
            let end = value.span.end;
            Ok(VariantItem { name, value: Some(value), span: Span { start, end } })
        } else {
            Ok(VariantItem { name, value: None, span: Span { start, end: name_span.end } })
        }
    }

    fn bin_op(&mut self, level: Level) -> (res: Result<Expr<'s>, ParseError<'s>>)
        ensures
            final(self).yields(
                old(self),
                res,
                |e: Expr<'s>| e@,
                grammar::bin_op(old(self).input(), old(self).pos(), level),
            ),
        decreases old(self).left(), 3 * level.rank() + 9,
    {
        let mut lhs = self.operand(level)?;
        let ghost from = self.pos();
        let ghost n0 = (self.pos() - old(self).pos()) as nat;
        let ghost first = lhs@;
        let ghost mut k: nat = 0;
        loop
            invariant_except_break
                grammar::bin_op_rest(self.input(), from, level, first) == after(
                    grammar::bin_op_rest(self.input(), self.pos(), level, lhs@),
                    k,
                ),
            invariant
                self.input() == old(self).input(),
                self.pos() == from + k,
                from == old(self).pos() + n0,
                grammar::bin_op(old(self).input(), old(self).pos(), level) == after(
                    grammar::bin_op_rest(self.input(), from, level, first),
                    n0,
                ),
            ensures
                grammar::bin_op_rest(self.input(), from, level, first) == done(lhs@, k),
            decreases self.left(),
        {
            let ghost before = self.pos();
            let op = match self.eat(&Operator(level))? {
                Some(op) => op,
                None => {
                    break ;
                },
            };
            let rhs = self.operand(level)?;
            lhs = Expr::binary(op, lhs, rhs);
            proof {
                k = k + (self.pos() - before) as nat;
            }
        }
        Ok(lhs)
    }

    /// Whether a token is next that does not fit `end`.
    fn more<T, M: Matcher<'s, T>>(&self, end: &M) -> (res: Result<bool, ParseError<'s>>)
        ensures
            res == grammar::more(self.input(), self.pos(), *end),
            res matches Err(err) ==> err.found_at(self.input(), self.pos()),
    {
        match self.tokens.peek() {
            Ok(Some(token)) => Ok(end.test(token).is_none()),
            Ok(None) => Ok(false),
            Err(err) => Err(ParseError::from(err)),
        }
    }

    /// Whether a token is next that fits `m`. Reads nothing.
    fn has_peek<M: Matcher<'s, ()>>(&self, m: &M) -> (res: Result<bool, ParseError<'s>>)
        ensures
            res == grammar::has_peek(self.input(), self.pos(), *m),
            res matches Err(err) ==> err.found_at(self.input(), self.pos()),
    {
        match self.tokens.peek() {
            Ok(Some(token)) => Ok(m.test(token).is_some()),
            Ok(None) => Ok(false),
            Err(err) => Err(ParseError::from(err)),
        }
    }

    /// Reads the next token, which must be there and fit `m`.
    fn require<T, M: Matcher<'s, T>>(&mut self, m: &M) -> (res: Result<T, ParseError<'s>>)
        ensures
            final(self).input() == old(self).input(),
            res == grammar::require(old(self).input(), old(self).pos(), *m),
            res matches Err(err) ==> err.found_at(final(self).input(), final(self).pos()),
            final(self).pos() == old(self).pos() + (if res is Ok {
                1nat
            } else {
                0nat
            }),
    {
        match self.maybe_require(m) {
            Ok(Some(value)) => Ok(value),
            Ok(None) => Err(ParseError { kind: ParseErrorKind::Unexpected(None), span: None }),
            Err(err) => Err(err),
        }
    }

    /// Reads the next token, which must fit `m` if it is there.
    fn maybe_require<T, M: Matcher<'s, T>>(&mut self, m: &M) -> (res: Result<
        Option<T>,
        ParseError<'s>,
    >)
        ensures
            final(self).input() == old(self).input(),
            res == grammar::maybe_require(old(self).input(), old(self).pos(), *m),
            res matches Err(err) ==> err.found_at(final(self).input(), final(self).pos()),
            final(self).pos() == old(self).pos() + (if res matches Ok(Some(_)) {
                1nat
            } else {
                0nat
            }),
    {
        match self.tokens.peek() {
            Ok(Some(token)) => match m.test(token) {
                Some(value) => {
                    let _ = self.tokens.next();
                    Ok(Some(value))
                },
                None => Err(
                    ParseError { span: Some(token.span), kind: ParseErrorKind::Unexpected(Some(*token)) },
                ),
            },
            Ok(None) => Ok(None),
            Err(err) => Err(ParseError::from(err)),
        }
    }

    /// Reads the next token if it fits `m`, and nothing if it does not.
    fn eat<T, M: Matcher<'s, T>>(&mut self, m: &M) -> (res: Result<Option<T>, ParseError<'s>>)
        ensures
            final(self).input() == old(self).input(),
            res == grammar::eat(old(self).input(), old(self).pos(), *m),
            res matches Err(err) ==> err.found_at(final(self).input(), final(self).pos()),
            final(self).pos() == old(self).pos() + (if res matches Ok(Some(_)) {
                1nat
            } else {
                0nat
            }),
    {
        match self.tokens.peek() {
            Ok(Some(token)) => match m.test(token) {
                Some(value) => {
                    let _ = self.tokens.next();
                    Ok(Some(value))
                },
                None => Ok(None),
            },
            Ok(None) => Ok(None),
            Err(err) => Err(ParseError::from(err)),
        }
    }
}

} // verus!
