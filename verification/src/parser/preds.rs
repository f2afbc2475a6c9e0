//! Token matchers: small values that test a token and may draw a value from
//! it. The parser looks at its input through these alone.

use crate::parser::ast::{BinOp, ExprKind, Literal, UnOp};
use crate::tokenizer::{Intern, Kind, Span, Token, TokenKind};
use vstd::prelude::*;

verus! {

/// A pure test of one token that yields a value where the token fits.
pub trait Matcher<'s, T> {
    /// What the matcher draws from `token`; `None` where it does not apply.
    spec fn model(&self, token: Token<'s>) -> Option<T>;

    fn test(&self, token: &Token<'s>) -> (out: Option<T>)
        ensures
            out == self.model(*token),
    ;
}

/// Fits a token of the given kind, and yields the token.
pub struct Is(pub Kind);

/// Fits a token of the given kind, and yields nothing: for looking ahead.
pub struct Has(pub Kind);

/// Fits no token.
pub struct Never;

/// The precedence tiers of the binary operators, from the loosest binding to
/// the tightest.
#[derive(Clone, Copy, Debug, PartialEq, Eq, Structural)]
pub enum Level {
    Logical,
    Equality,
    Comparison,
    Terms,
    Factors,
}

impl Level {
    /// The tiers in numbers: a looser tier has the greater one.
    pub open spec fn rank(self) -> nat {
        match self {
            Level::Logical => 5,
            Level::Equality => 4,
            Level::Comparison => 3,
            Level::Terms => 2,
            Level::Factors => 1,
        }
    }
}

/// Fits the operator tokens of one tier, and yields the operator.
pub struct Operator(pub Level);

/// Fits the tokens that stand before an operand, and yields the token's span
/// and the operator.
pub struct PrefixOperator;

/// Fits a name, and yields its text.
pub struct NameText;

/// Fits a name, and yields its span and its text.
pub struct SpannedName;

/// Fits a semicolon, and yields the offset at which it ends.
pub struct SemicolonEnd;

/// Fits a literal or a name, and yields its span and the node it stands for.
pub struct Leaf;

impl<'s> Matcher<'s, Token<'s>> for Is {
    open spec fn model(&self, token: Token<'s>) -> Option<Token<'s>> {
        if token.kind.tag() == self.0 {
            Some(token)
        } else {
            None
        }
    }

    fn test(&self, token: &Token<'s>) -> (out: Option<Token<'s>>) {
        if token.kind.tag() == self.0 {
            Some(*token)
        } else {
            None
        }
    }
}

impl<'s> Matcher<'s, ()> for Has {
    open spec fn model(&self, token: Token<'s>) -> Option<()> {
        if token.kind.tag() == self.0 {
            Some(())
        } else {
            None
        }
    }

    fn test(&self, token: &Token<'s>) -> (out: Option<()>) {
        if token.kind.tag() == self.0 {
            Some(())
        } else {
            None
        }
    }
}

impl<'s> Matcher<'s, ()> for Never {
    open spec fn model(&self, token: Token<'s>) -> Option<()> {
        None
    }

    fn test(&self, token: &Token<'s>) -> (out: Option<()>) {
        None
    }
}

impl<'s> Matcher<'s, BinOp> for Operator {
    open spec fn model(&self, token: Token<'s>) -> Option<BinOp> {
        match (self.0, token.kind) {
            (Level::Logical, TokenKind::AmpAmp) => Some(BinOp::And),
            (Level::Logical, TokenKind::PipePipe) => Some(BinOp::Or),
            (Level::Equality, TokenKind::Equal) => Some(BinOp::Equal),
            (Level::Equality, TokenKind::NotEqual) => Some(BinOp::NotEqual),
            (Level::Comparison, TokenKind::Gt) => Some(BinOp::Gt),
            (Level::Comparison, TokenKind::GtEq) => Some(BinOp::GtEq),
            (Level::Comparison, TokenKind::Lt) => Some(BinOp::Lt),
            (Level::Comparison, TokenKind::LtEq) => Some(BinOp::LtEq),
            (Level::Terms, TokenKind::Plus) => Some(BinOp::Add),
            (Level::Terms, TokenKind::Minus) => Some(BinOp::Sub),
            (Level::Factors, TokenKind::Star) => Some(BinOp::Mul),
            (Level::Factors, TokenKind::Slash) => Some(BinOp::Div),
            (Level::Factors, TokenKind::Percent) => Some(BinOp::Mod),
            _ => None,
        }
    }

    fn test(&self, token: &Token<'s>) -> (out: Option<BinOp>) {
        match (self.0, token.kind) {
            (Level::Logical, TokenKind::AmpAmp) => Some(BinOp::And),
            (Level::Logical, TokenKind::PipePipe) => Some(BinOp::Or),
            (Level::Equality, TokenKind::Equal) => Some(BinOp::Equal),
            (Level::Equality, TokenKind::NotEqual) => Some(BinOp::NotEqual),
            (Level::Comparison, TokenKind::Gt) => Some(BinOp::Gt),
            (Level::Comparison, TokenKind::GtEq) => Some(BinOp::GtEq),
            (Level::Comparison, TokenKind::Lt) => Some(BinOp::Lt),
            (Level::Comparison, TokenKind::LtEq) => Some(BinOp::LtEq),
            (Level::Terms, TokenKind::Plus) => Some(BinOp::Add),
            (Level::Terms, TokenKind::Minus) => Some(BinOp::Sub),
            (Level::Factors, TokenKind::Star) => Some(BinOp::Mul),
            (Level::Factors, TokenKind::Slash) => Some(BinOp::Div),
            (Level::Factors, TokenKind::Percent) => Some(BinOp::Mod),
            _ => None,
        }
    }
}

impl<'s> Matcher<'s, (Span, UnOp)> for PrefixOperator {
    open spec fn model(&self, token: Token<'s>) -> Option<(Span, UnOp)> {
        match token.kind {
            TokenKind::Bang => Some((token.span, UnOp::Not)),
            TokenKind::SetKw => Some((token.span, UnOp::SetOp)),
            TokenKind::Val => Some((token.span, UnOp::Val)),
            TokenKind::Caret => Some((token.span, UnOp::Ref)),
            _ => None,
        }
    }

    fn test(&self, token: &Token<'s>) -> (out: Option<(Span, UnOp)>) {
        match token.kind {
            TokenKind::Bang => Some((token.span, UnOp::Not)),
            TokenKind::SetKw => Some((token.span, UnOp::SetOp)),
            TokenKind::Val => Some((token.span, UnOp::Val)),
            TokenKind::Caret => Some((token.span, UnOp::Ref)),
            _ => None,
        }
    }
}

impl<'s> Matcher<'s, Intern<'s>> for NameText {
    open spec fn model(&self, token: Token<'s>) -> Option<Intern<'s>> {
        match token.kind {
            TokenKind::Name(name) => Some(name),
            _ => None,
        }
    }

    fn test(&self, token: &Token<'s>) -> (out: Option<Intern<'s>>) {
        match token.kind {
            TokenKind::Name(name) => Some(name),
            _ => None,
        }
    }
}

impl<'s> Matcher<'s, (Span, Intern<'s>)> for SpannedName {
    open spec fn model(&self, token: Token<'s>) -> Option<(Span, Intern<'s>)> {
        match token.kind {
            TokenKind::Name(name) => Some((token.span, name)),
            _ => None,
        }
    }

    fn test(&self, token: &Token<'s>) -> (out: Option<(Span, Intern<'s>)>) {
        match token.kind {
            TokenKind::Name(name) => Some((token.span, name)),
            _ => None,
        }
    }
}

impl<'s> Matcher<'s, usize> for SemicolonEnd {
    open spec fn model(&self, token: Token<'s>) -> Option<usize> {
        match token.kind {
            TokenKind::Semicolon => Some(token.span.end),
            _ => None,
        }
    }

    fn test(&self, token: &Token<'s>) -> (out: Option<usize>) {
        match token.kind {
            TokenKind::Semicolon => Some(token.span.end),
            _ => None,
        }
    }
}

impl<'s> Matcher<'s, (Span, ExprKind<'s>)> for Leaf {
    open spec fn model(&self, token: Token<'s>) -> Option<(Span, ExprKind<'s>)> {
        match token.kind {
            TokenKind::Float(bits) => Some((token.span, ExprKind::Literal(Literal::Float(bits)))),
            TokenKind::Integer(value) => Some(
                (token.span, ExprKind::Literal(Literal::Integer(value))),
            ),
            TokenKind::String(text) => Some((token.span, ExprKind::Literal(Literal::String(text)))),
            TokenKind::Name(name) => Some((token.span, ExprKind::Ident(name))),
            _ => None,
        }
    }

    fn test(&self, token: &Token<'s>) -> (out: Option<(Span, ExprKind<'s>)>) {
        match token.kind {
            TokenKind::Float(bits) => Some((token.span, ExprKind::Literal(Literal::Float(bits)))),
            TokenKind::Integer(value) => Some(
                (token.span, ExprKind::Literal(Literal::Integer(value))),
            ),
            TokenKind::String(text) => Some((token.span, ExprKind::Literal(Literal::String(text)))),
            TokenKind::Name(name) => Some((token.span, ExprKind::Ident(name))),
            _ => None,
        }
    }
}

} // verus!
