//! Tokens, their source spans, and the token stream that the parser reads.

use vstd::prelude::*;

verus! {

/// A half-open interval `[start, end)` of byte offsets into the source text.
#[derive(Clone, Copy, Debug, PartialEq, Eq, Structural)]
pub struct Span {
    pub start: usize,
    pub end: usize,
}

/// A handle to interned text. The text lives in a store that outlives every
/// tree built from it; the handle is freely copied.
#[derive(Clone, Copy, Debug, PartialEq, Eq, Hash)]
pub struct Intern<'s>(pub &'s str);

impl<'s> Intern<'s> {
    /// The length of the text in bytes.
    pub open spec fn spec_len(self) -> nat {
        self.0.len() as nat
    }

    /// The length of the text in bytes.
    pub fn len(&self) -> (n: usize)
        ensures
            n == self.spec_len(),
    {
        self.0.len()
    }
}

/// What a token is. Names and string literals carry their interned text,
/// numbers their value; a float is held as the bit pattern of its binary64
/// value.
#[derive(Clone, Copy, Debug, PartialEq, Eq)]
pub enum TokenKind<'s> {
    Def,
    SetKw,
    Val,
    Float(u64),
    Integer(i64),
    String(Intern<'s>),
    Name(Intern<'s>),
    OpenBrace,
    CloseBrace,
    DotOpenBrace,
    OpenParen,
    CloseParen,
    Dot,
    Comma,
    Semicolon,
    Colon,
    ColonColon,
    Pipe,
    PipePipe,
    Amp,
    AmpAmp,
    Bang,
    Caret,
    Assign,
    Equal,
    NotEqual,
    Gt,
    GtEq,
    Lt,
    LtEq,
    Plus,
    Minus,
    Star,
    Slash,
    Percent,
}

/// A token kind without what it carries.
#[derive(Clone, Copy, Debug, PartialEq, Eq, Structural)]
pub enum Kind {
    Def,
    SetKw,
    Val,
    Float,
    Integer,
    String,
    Name,
    OpenBrace,
    CloseBrace,
    DotOpenBrace,
    OpenParen,
    CloseParen,
    Dot,
    Comma,
    Semicolon,
    Colon,
    ColonColon,
    Pipe,
    PipePipe,
    Amp,
    AmpAmp,
    Bang,
    Caret,
    Assign,
    Equal,
    NotEqual,
    Gt,
    GtEq,
    Lt,
    LtEq,
    Plus,
    Minus,
    Star,
    Slash,
    Percent,
}

impl<'s> TokenKind<'s> {
    /// This kind without what it carries.
    pub open spec fn spec_tag(&self) -> Kind {
        match *self {
            TokenKind::Def => Kind::Def,
            TokenKind::SetKw => Kind::SetKw,
            TokenKind::Val => Kind::Val,
            TokenKind::Float(_) => Kind::Float,
            TokenKind::Integer(_) => Kind::Integer,
            TokenKind::String(_) => Kind::String,
            TokenKind::Name(_) => Kind::Name,
            TokenKind::OpenBrace => Kind::OpenBrace,
            TokenKind::CloseBrace => Kind::CloseBrace,
            TokenKind::DotOpenBrace => Kind::DotOpenBrace,
            TokenKind::OpenParen => Kind::OpenParen,
            TokenKind::CloseParen => Kind::CloseParen,
            TokenKind::Dot => Kind::Dot,
            TokenKind::Comma => Kind::Comma,
            TokenKind::Semicolon => Kind::Semicolon,
            TokenKind::Colon => Kind::Colon,
            TokenKind::ColonColon => Kind::ColonColon,
            TokenKind::Pipe => Kind::Pipe,
            TokenKind::PipePipe => Kind::PipePipe,
            TokenKind::Amp => Kind::Amp,
            TokenKind::AmpAmp => Kind::AmpAmp,
            TokenKind::Bang => Kind::Bang,
            TokenKind::Caret => Kind::Caret,
            TokenKind::Assign => Kind::Assign,
            TokenKind::Equal => Kind::Equal,
            TokenKind::NotEqual => Kind::NotEqual,
            TokenKind::Gt => Kind::Gt,
            TokenKind::GtEq => Kind::GtEq,
            TokenKind::Lt => Kind::Lt,
            TokenKind::LtEq => Kind::LtEq,
            TokenKind::Plus => Kind::Plus,
            TokenKind::Minus => Kind::Minus,
            TokenKind::Star => Kind::Star,
            TokenKind::Slash => Kind::Slash,
            TokenKind::Percent => Kind::Percent,
        }
    }

    /// This kind without what it carries.
    #[verifier::when_used_as_spec(spec_tag)]
    pub fn tag(&self) -> (kind: Kind)
        ensures
            kind == self.spec_tag(),
    {
        match self {
            TokenKind::Def => Kind::Def,
            TokenKind::SetKw => Kind::SetKw,
            TokenKind::Val => Kind::Val,
            TokenKind::Float(_) => Kind::Float,
            TokenKind::Integer(_) => Kind::Integer,
            TokenKind::String(_) => Kind::String,
            TokenKind::Name(_) => Kind::Name,
            TokenKind::OpenBrace => Kind::OpenBrace,
            TokenKind::CloseBrace => Kind::CloseBrace,
            TokenKind::DotOpenBrace => Kind::DotOpenBrace,
            TokenKind::OpenParen => Kind::OpenParen,
            TokenKind::CloseParen => Kind::CloseParen,
            TokenKind::Dot => Kind::Dot,
            TokenKind::Comma => Kind::Comma,
            TokenKind::Semicolon => Kind::Semicolon,
            TokenKind::Colon => Kind::Colon,
            TokenKind::ColonColon => Kind::ColonColon,
            TokenKind::Pipe => Kind::Pipe,
            TokenKind::PipePipe => Kind::PipePipe,
            TokenKind::Amp => Kind::Amp,
            TokenKind::AmpAmp => Kind::AmpAmp,
            TokenKind::Bang => Kind::Bang,
            TokenKind::Caret => Kind::Caret,
            TokenKind::Assign => Kind::Assign,
            TokenKind::Equal => Kind::Equal,
            TokenKind::NotEqual => Kind::NotEqual,
            TokenKind::Gt => Kind::Gt,
            TokenKind::GtEq => Kind::GtEq,
            TokenKind::Lt => Kind::Lt,
            TokenKind::LtEq => Kind::LtEq,
            TokenKind::Plus => Kind::Plus,
            TokenKind::Minus => Kind::Minus,
            TokenKind::Star => Kind::Star,
            TokenKind::Slash => Kind::Slash,
            TokenKind::Percent => Kind::Percent,
        }
    }
}

/// A lexical unit: what it is and where it stands.
#[derive(Clone, Copy, Debug, PartialEq, Eq)]
pub struct Token<'s> {
    pub kind: TokenKind<'s>,
    pub span: Span,
}

/// The text at `span` (or at an unknown place) is no token.
#[derive(Clone, Copy, Debug, PartialEq, Eq)]
pub struct TokenizationError {
    pub span: Option<Span>,
}

/// The mathematical content of a token stream: the tokens it yields, in
/// order, and then either the end of the input or a lexical error.
pub struct Input<'s> {
    pub tokens: Seq<Token<'s>>,
    pub failure: Option<TokenizationError>,
}

impl<'s> Input<'s> {
    /// What a stream positioned before token number `pos` shows next.
    pub open spec fn peek(self, pos: nat) -> Result<Option<Token<'s>>, TokenizationError> {
        if pos < self.tokens.len() {
            Ok(Some(self.tokens[pos as int]))
        } else {
            match self.failure {
                Some(err) => Err(err),
                None => Ok(None),
            }
        }
    }

    /// The number of tokens from `pos` to the end.
    pub open spec fn remaining(self, pos: nat) -> nat {
        if pos <= self.tokens.len() {
            (self.tokens.len() - pos) as nat
        } else {
            0
        }
    }
}

/// A fallible, peekable stream of tokens: a lexer's whole output and a cursor
/// into it.
pub struct Tokens<'s> {
    tokens: Vec<Token<'s>>,
    failure: Option<TokenizationError>,
    pos: usize,
}

impl<'s> View for Tokens<'s> {
    type V = Input<'s>;

    closed spec fn view(&self) -> Input<'s> {
        Input { tokens: self.tokens@, failure: self.failure }
    }
}

impl<'s> Tokens<'s> {
    /// The number of tokens already taken from the stream.
    pub closed spec fn position(&self) -> nat {
        self.pos as nat
    }

    /// A stream that yields `tokens` and then ends, with `failure` if the
    /// lexer gave up there.
    pub fn new(tokens: Vec<Token<'s>>, failure: Option<TokenizationError>) -> (stream: Self)
        ensures
            stream@ == (Input { tokens: tokens@, failure }),
            stream.position() == 0,
    {
        Tokens { tokens, failure, pos: 0 }
    }

    /// The next token, which stays in the stream.
    pub fn peek(&self) -> (res: Result<Option<&Token<'s>>, TokenizationError>)
        ensures
            match self@.peek(self.position()) {
                Ok(Some(token)) => res == Ok::<_, TokenizationError>(Some(&token)),
                Ok(None) => res == Ok::<Option<&Token<'s>>, TokenizationError>(None),
                Err(err) => res == Err::<Option<&Token<'s>>, _>(err),
            },
    {
        if self.pos < self.tokens.len() {
            Ok(Some(&self.tokens[self.pos]))
        } else {
            match self.failure {
                Some(err) => Err(err),
                None => Ok(None),
            }
        }
    }

    /// Takes the next token from the stream.
    pub fn next(&mut self) -> (res: Result<Option<Token<'s>>, TokenizationError>)
        ensures
            final(self)@ == old(self)@,
            res == old(self)@.peek(old(self).position()),
            final(self).position() == old(self).position() + (if res matches Ok(Some(_)) {
                1nat
            } else {
                0nat
            }),
    {
        if self.pos < self.tokens.len() {
            let token: Token<'s> = self.tokens[self.pos];
            self.pos = self.pos + 1;
            Ok(Some(token))
        } else {
            match self.failure {
                Some(err) => Err(err),
                None => Ok(None),
            }
        }
    }
}

} // verus!
