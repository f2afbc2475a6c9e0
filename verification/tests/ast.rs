use langparse::parser::ast::{BinOp, Def, Expr, ExprKind, Item, Literal, UnOp, VariantItem};
use langparse::parser::preds::{
    Has, Is, Leaf, Level, Matcher, NameText, Never, Operator, PrefixOperator, SemicolonEnd,
    SpannedName,
};
use langparse::tokenizer::{Intern, Kind, Span, Token, TokenKind};

fn sp(start: usize, end: usize) -> Span {
    Span { start, end }
}

fn ident(name: &str, start: usize, end: usize) -> Expr<'_> {
    Expr { kind: ExprKind::Ident(Intern(name)), span: sp(start, end) }
}

fn token(kind: TokenKind<'_>) -> Token<'_> {
    Token { kind, span: sp(3, 7) }
}

#[test]
fn nodes_of_two_children_span_from_the_first_to_the_second() {
    let e = Expr::lambda(ident("a", 2, 3), ident("b", 6, 9));
    assert_eq!(e.span, sp(2, 9));
    assert!(matches!(e.kind, ExprKind::Lambda { .. }));
    let e = Expr::assertion(ident("a", 2, 3), ident("b", 6, 9));
    assert_eq!(e.span, sp(2, 9));
    assert!(matches!(e.kind, ExprKind::TypeAssertion { .. }));
    let e = Expr::apply(ident("a", 2, 3), ident("b", 6, 9));
    assert_eq!(e.span, sp(2, 9));
    assert_eq!(
        e.kind,
        ExprKind::Apply { a: Box::new(ident("a", 2, 3)), b: Box::new(ident("b", 6, 9)) }
    );
}

#[test]
fn a_binary_node_has_the_span_of_its_left_operand() {
    let e = Expr::binary(BinOp::Mod, ident("a", 2, 3), ident("b", 6, 9));
    assert_eq!(e.span, sp(2, 3));
    assert_eq!(
        e.kind,
        ExprKind::BinOp {
            op: BinOp::Mod,
            lhs: Box::new(ident("a", 2, 3)),
            rhs: Box::new(ident("b", 6, 9)),
        }
    );
}

#[test]
fn unary_nodes_span_the_mark_and_the_operand() {
    let e = Expr::prefixed(sp(1, 2), UnOp::Ref, ident("a", 4, 5));
    assert_eq!(e.span, sp(1, 5));
    assert_eq!(e.kind, ExprKind::UnOp { op: UnOp::Ref, arg: Box::new(ident("a", 4, 5)) });
    let e = Expr::deref(ident("a", 4, 5), 6);
    assert_eq!(e.span, sp(4, 6));
    assert_eq!(e.kind, ExprKind::UnOp { op: UnOp::Deref, arg: Box::new(ident("a", 4, 5)) });
    let e = Expr::access(ident("a", 4, 5), sp(6, 9), Intern("len"));
    assert_eq!(e.span, sp(4, 9));
    assert_eq!(e.kind, ExprKind::Access { expr: Box::new(ident("a", 4, 5)), prop: Intern("len") });
}

#[test]
fn sequences_span_from_their_first_to_their_last() {
    let e = Expr::tuple(vec![ident("a", 1, 2), ident("b", 4, 5), ident("c", 7, 8)]);
    assert_eq!(e.span, sp(1, 8));
    let e = Expr::variant(vec![
        VariantItem { name: Intern("A"), value: None, span: sp(0, 2) },
        VariantItem { name: Intern("B"), value: None, span: sp(3, 5) },
    ]);
    assert_eq!(e.span, sp(0, 5));
    let e = Expr::program(vec![
        Def { name: Intern("a"), value: Box::new(ident("x", 6, 7)), span: sp(2, 8) },
        Def { name: Intern("b"), value: Box::new(ident("y", 15, 16)), span: sp(9, 17) },
    ]);
    assert_eq!(e.span, sp(2, 17));
    assert_eq!(Expr::program(vec![]).span, sp(0, 0));
    assert_eq!(Expr::program(vec![]).kind, ExprKind::Object { definitions: vec![] });
}

#[test]
fn delimited_nodes_take_the_span_they_are_given() {
    assert_eq!(Expr::unit(3, 5), Expr { kind: ExprKind::Tuple { exprs: vec![] }, span: sp(3, 5) });
    let e = Expr::scope(vec![Item::Empty], sp(1, 4));
    assert_eq!(e, Expr { kind: ExprKind::Scope { body: vec![Item::Empty] }, span: sp(1, 4) });
    let e = Expr::object(vec![], sp(1, 4));
    assert_eq!(e, Expr { kind: ExprKind::Object { definitions: vec![] }, span: sp(1, 4) });
    let e = Expr::leaf(sp(1, 4), ExprKind::Literal(Literal::Integer(7)));
    assert_eq!(e, Expr { kind: ExprKind::Literal(Literal::Integer(7)), span: sp(1, 4) });
}

#[test]
fn the_text_of_a_name_has_its_length_in_bytes() {
    assert_eq!(Intern("").len(), 0);
    assert_eq!(Intern("abc").len(), 3);
    assert_eq!(Intern("añb").len(), 4);
}

#[test]
fn a_kind_has_its_tag() {
    assert_eq!(TokenKind::Def.tag(), Kind::Def);
    assert_eq!(TokenKind::SetKw.tag(), Kind::SetKw);
    assert_eq!(TokenKind::Name(Intern("x")).tag(), Kind::Name);
    assert_eq!(TokenKind::Integer(3).tag(), Kind::Integer);
    assert_eq!(TokenKind::Float(0).tag(), Kind::Float);
    assert_eq!(TokenKind::String(Intern("s")).tag(), Kind::String);
    assert_eq!(TokenKind::DotOpenBrace.tag(), Kind::DotOpenBrace);
    assert_eq!(TokenKind::Percent.tag(), Kind::Percent);
    assert_ne!(TokenKind::Pipe.tag(), Kind::PipePipe);
}

#[test]
fn kind_tests_fit_their_kind_alone() {
    let brace = token(TokenKind::OpenBrace);
    assert_eq!(Is(Kind::OpenBrace).test(&brace), Some(brace));
    assert_eq!(Is(Kind::CloseBrace).test(&brace), None);
    assert_eq!(Has(Kind::OpenBrace).test(&brace), Some(()));
    assert_eq!(Has(Kind::Def).test(&brace), None);
    assert_eq!(Never.test(&brace), None);
    let name = token(TokenKind::Name(Intern("n")));
    assert_eq!(Is(Kind::Name).test(&name), Some(name));
}

#[test]
fn operators_belong_to_their_tier() {
    let table = [
        (Level::Logical, TokenKind::AmpAmp, BinOp::And),
        (Level::Logical, TokenKind::PipePipe, BinOp::Or),
        (Level::Equality, TokenKind::Equal, BinOp::Equal),
        (Level::Equality, TokenKind::NotEqual, BinOp::NotEqual),
        (Level::Comparison, TokenKind::Gt, BinOp::Gt),
        (Level::Comparison, TokenKind::GtEq, BinOp::GtEq),
        (Level::Comparison, TokenKind::Lt, BinOp::Lt),
        (Level::Comparison, TokenKind::LtEq, BinOp::LtEq),
        (Level::Terms, TokenKind::Plus, BinOp::Add),
        (Level::Terms, TokenKind::Minus, BinOp::Sub),
        (Level::Factors, TokenKind::Star, BinOp::Mul),
        (Level::Factors, TokenKind::Slash, BinOp::Div),
        (Level::Factors, TokenKind::Percent, BinOp::Mod),
    ];
    let levels =
        [Level::Logical, Level::Equality, Level::Comparison, Level::Terms, Level::Factors];
    for (level, kind, op) in table {
        for other in levels {
            let expected = if other == level { Some(op) } else { None };
            assert_eq!(Operator(other).test(&token(kind)), expected);
        }
    }
    assert_eq!(Operator(Level::Logical).test(&token(TokenKind::Amp)), None);
    assert_eq!(Operator(Level::Equality).test(&token(TokenKind::Assign)), None);
}

#[test]
fn value_maps_draw_from_the_token() {
    assert_eq!(PrefixOperator.test(&token(TokenKind::Bang)), Some((sp(3, 7), UnOp::Not)));
    assert_eq!(PrefixOperator.test(&token(TokenKind::SetKw)), Some((sp(3, 7), UnOp::SetOp)));
    assert_eq!(PrefixOperator.test(&token(TokenKind::Val)), Some((sp(3, 7), UnOp::Val)));
    assert_eq!(PrefixOperator.test(&token(TokenKind::Caret)), Some((sp(3, 7), UnOp::Ref)));
    assert_eq!(PrefixOperator.test(&token(TokenKind::Minus)), None);
    assert_eq!(NameText.test(&token(TokenKind::Name(Intern("n")))), Some(Intern("n")));
    assert_eq!(NameText.test(&token(TokenKind::String(Intern("n")))), None);
    assert_eq!(
        SpannedName.test(&token(TokenKind::Name(Intern("n")))),
        Some((sp(3, 7), Intern("n")))
    );
    assert_eq!(SpannedName.test(&token(TokenKind::Def)), None);
    assert_eq!(SemicolonEnd.test(&token(TokenKind::Semicolon)), Some(7));
    assert_eq!(SemicolonEnd.test(&token(TokenKind::Colon)), None);
    assert_eq!(
        Leaf.test(&token(TokenKind::Integer(-4))),
        Some((sp(3, 7), ExprKind::Literal(Literal::Integer(-4))))
    );
    assert_eq!(
        Leaf.test(&token(TokenKind::Float(9))),
        Some((sp(3, 7), ExprKind::Literal(Literal::Float(9))))
    );
    assert_eq!(
        Leaf.test(&token(TokenKind::String(Intern("s")))),
        Some((sp(3, 7), ExprKind::Literal(Literal::String(Intern("s")))))
    );
    assert_eq!(
        Leaf.test(&token(TokenKind::Name(Intern("s")))),
        Some((sp(3, 7), ExprKind::Ident(Intern("s"))))
    );
    assert_eq!(Leaf.test(&token(TokenKind::OpenParen)), None);
}
