use langparse::parser::ast::{BinOp, Def, Expr, ExprKind, Item, Literal, UnOp, VariantItem};
use langparse::parser::{parse, ParseError, ParseErrorKind};
use langparse::tokenizer::{Intern, Span, Token, TokenKind, TokenizationError, Tokens};

fn word(text: &str) -> TokenKind<'_> {
    match text {
        "def" => TokenKind::Def,
        "set" => TokenKind::SetKw,
        "val" => TokenKind::Val,
        _ => TokenKind::Name(Intern(text)),
    }
}

fn punct(text: &str) -> Option<TokenKind<'static>> {
    Some(match text {
        ".{" => TokenKind::DotOpenBrace,
        "::" => TokenKind::ColonColon,
        "||" => TokenKind::PipePipe,
        "&&" => TokenKind::AmpAmp,
        "==" => TokenKind::Equal,
        "!=" => TokenKind::NotEqual,
        ">=" => TokenKind::GtEq,
        "<=" => TokenKind::LtEq,
        "{" => TokenKind::OpenBrace,
        "}" => TokenKind::CloseBrace,
        "(" => TokenKind::OpenParen,
        ")" => TokenKind::CloseParen,
        "." => TokenKind::Dot,
        "," => TokenKind::Comma,
        ";" => TokenKind::Semicolon,
        ":" => TokenKind::Colon,
        "|" => TokenKind::Pipe,
        "&" => TokenKind::Amp,
        "!" => TokenKind::Bang,
        "^" => TokenKind::Caret,
        "=" => TokenKind::Assign,
        ">" => TokenKind::Gt,
        "<" => TokenKind::Lt,
        "+" => TokenKind::Plus,
        "-" => TokenKind::Minus,
        "*" => TokenKind::Star,
        "/" => TokenKind::Slash,
        "%" => TokenKind::Percent,
        _ => return None,
    })
}

/// Splits `src` into tokens, longest match first.
fn lex(src: &str) -> Vec<Token<'_>> {
    let bytes = src.as_bytes();
    let mut tokens = Vec::new();
    let mut i = 0;
    while i < bytes.len() {
        let c = bytes[i];
        if c.is_ascii_whitespace() {
            i += 1;
            continue;
        }
        let start = i;
        let kind = if c.is_ascii_alphabetic() || c == b'_' {
            while i < bytes.len() && (bytes[i].is_ascii_alphanumeric() || bytes[i] == b'_') {
                i += 1;
            }
            word(&src[start..i])
        } else if c.is_ascii_digit() {
            while i < bytes.len() && bytes[i].is_ascii_digit() {
                i += 1;
            }
            if i + 1 < bytes.len() && bytes[i] == b'.' && bytes[i + 1].is_ascii_digit() {
                i += 1;
                while i < bytes.len() && bytes[i].is_ascii_digit() {
                    i += 1;
                }
                TokenKind::Float(src[start..i].parse::<f64>().unwrap().to_bits())
            } else {
                TokenKind::Integer(src[start..i].parse::<i64>().unwrap())
            }
        } else if c == b'"' {
            i += 1;
            while bytes[i] != b'"' {
                i += 1;
            }
            i += 1;
            TokenKind::String(Intern(&src[start + 1..i - 1]))
        } else if i + 2 <= bytes.len() && punct(&src[i..i + 2]).is_some() {
            i += 2;
            punct(&src[start..i]).unwrap()
        } else {
            i += 1;
            punct(&src[start..i]).unwrap()
        };
        tokens.push(Token { kind, span: Span { start, end: i } });
    }
    tokens
}

fn run(src: &str) -> Result<Expr<'_>, ParseError<'_>> {
    parse(Tokens::new(lex(src), None))
}

/// The definitions of the program `src`.
fn defs(src: &str) -> Vec<Def<'_>> {
    match run(src).unwrap().kind {
        ExprKind::Object { definitions } => definitions,
        other => panic!("no object: {:?}", other),
    }
}

/// The value of the one definition that `src` holds.
fn value(src: &str) -> Expr<'_> {
    let mut definitions = defs(src);
    assert_eq!(definitions.len(), 1);
    *definitions.remove(0).value
}

fn sp(start: usize, end: usize) -> Span {
    Span { start, end }
}

fn ident(name: &str, start: usize) -> Expr<'_> {
    Expr { kind: ExprKind::Ident(Intern(name)), span: sp(start, start + name.len()) }
}

fn num(value: i64, start: usize, end: usize) -> Expr<'static> {
    Expr { kind: ExprKind::Literal(Literal::Integer(value)), span: sp(start, end) }
}

fn bin<'s>(op: BinOp, lhs: Expr<'s>, rhs: Expr<'s>, span: Span) -> Expr<'s> {
    Expr { kind: ExprKind::BinOp { op, lhs: Box::new(lhs), rhs: Box::new(rhs) }, span }
}

fn apply<'s>(a: Expr<'s>, b: Expr<'s>, span: Span) -> Expr<'s> {
    Expr { kind: ExprKind::Apply { a: Box::new(a), b: Box::new(b) }, span }
}

fn unexpected(token: Token<'_>) -> ParseError<'_> {
    ParseError { kind: ParseErrorKind::Unexpected(Some(token)), span: Some(token.span) }
}

fn end_of_input() -> ParseError<'static> {
    ParseError { kind: ParseErrorKind::Unexpected(None), span: None }
}

#[test]
fn empty_program_is_an_empty_object_at_zero() {
    let tree = run("").unwrap();
    assert_eq!(tree, Expr { kind: ExprKind::Object { definitions: vec![] }, span: sp(0, 0) });
}

#[test]
fn program_spans_its_definitions() {
    let tree = run("  def a 1; def b 2;").unwrap();
    assert_eq!(tree.span, sp(2, 19));
    match tree.kind {
        ExprKind::Object { definitions } => {
            assert_eq!(definitions.len(), 2);
            assert_eq!(definitions[0].name, Intern("a"));
            assert_eq!(definitions[0].span, sp(2, 10));
            assert_eq!(*definitions[0].value, num(1, 8, 9));
            assert_eq!(definitions[1].name, Intern("b"));
            assert_eq!(definitions[1].span, sp(11, 19));
        },
        other => panic!("no object: {:?}", other),
    }
}

#[test]
fn multiplication_binds_tighter_than_addition() {
    // def r 1 + 2 * 3;
    let tree = value("def r 1 + 2 * 3;");
    let product = bin(BinOp::Mul, num(2, 10, 11), num(3, 14, 15), sp(10, 11));
    assert_eq!(tree, bin(BinOp::Add, num(1, 6, 7), product, sp(6, 7)));
}

#[test]
fn a_product_before_a_sum_is_its_left_operand() {
    let tree = value("def r 1 * 2 + 3;");
    let product = bin(BinOp::Mul, num(1, 6, 7), num(2, 10, 11), sp(6, 7));
    assert_eq!(tree, bin(BinOp::Add, product, num(3, 14, 15), sp(6, 7)));
}

#[test]
fn subtraction_groups_from_the_left() {
    let tree = value("def r a - b - c;");
    let inner = bin(BinOp::Sub, ident("a", 6), ident("b", 10), sp(6, 7));
    assert_eq!(tree, bin(BinOp::Sub, inner, ident("c", 14), sp(6, 7)));
}

#[test]
fn every_tier_has_its_operators() {
    let cases = [
        ("&&", BinOp::And),
        ("||", BinOp::Or),
        ("==", BinOp::Equal),
        ("!=", BinOp::NotEqual),
        (">", BinOp::Gt),
        (">=", BinOp::GtEq),
        ("<", BinOp::Lt),
        ("<=", BinOp::LtEq),
        ("+", BinOp::Add),
        ("-", BinOp::Sub),
        ("*", BinOp::Mul),
        ("/", BinOp::Div),
        ("%", BinOp::Mod),
    ];
    for (text, op) in cases {
        let src = format!("def r a {} b;", text);
        let tree = value(&src);
        match tree.kind {
            ExprKind::BinOp { op: found, lhs, rhs } => {
                assert_eq!(found, op);
                assert_eq!(*lhs, ident("a", 6));
                assert_eq!(*rhs, ident("b", 9 + text.len()));
            },
            other => panic!("no binary node: {:?}", other),
        }
    }
}

#[test]
fn the_tiers_nest_from_loose_to_tight() {
    // a || b == c < d + e * f  reads as  a || (b == (c < (d + (e * f))))
    let tree = value("def r a || b == c < d + e * f;");
    let mut ops = Vec::new();
    let mut node = tree;
    loop {
        match node.kind {
            ExprKind::BinOp { op, lhs, rhs } => {
                assert!(matches!(lhs.kind, ExprKind::Ident(_)));
                ops.push(op);
                node = *rhs;
            },
            ExprKind::Ident(name) => {
                assert_eq!(name, Intern("f"));
                break;
            },
            other => panic!("unexpected node: {:?}", other),
        }
    }
    assert_eq!(ops, vec![BinOp::Or, BinOp::Equal, BinOp::Lt, BinOp::Add, BinOp::Mul]);
}

#[test]
fn application_groups_from_the_left() {
    let tree = value("def r f a b;");
    let inner = apply(ident("f", 6), ident("a", 8), sp(6, 9));
    assert_eq!(tree, apply(inner, ident("b", 10), sp(6, 11)));
}

#[test]
fn scope_with_a_tail_value_has_no_empty_item() {
    let tree = value("def r (a; b);");
    assert_eq!(
        tree,
        Expr {
            kind: ExprKind::Scope {
                body: vec![Item::Expr(ident("a", 7)), Item::Expr(ident("b", 10))],
            },
            span: sp(6, 12),
        }
    );
}

#[test]
fn scope_closed_by_a_semicolon_ends_in_empty() {
    let tree = value("def r (a; b;);");
    assert_eq!(
        tree,
        Expr {
            kind: ExprKind::Scope {
                body: vec![Item::Expr(ident("a", 7)), Item::Expr(ident("b", 10)), Item::Empty],
            },
            span: sp(6, 13),
        }
    );
}

#[test]
fn scope_of_one_closed_statement() {
    let tree = value("def r (a;);");
    assert_eq!(
        tree,
        Expr {
            kind: ExprKind::Scope { body: vec![Item::Expr(ident("a", 7)), Item::Empty] },
            span: sp(6, 10),
        }
    );
}

#[test]
fn scope_with_definitions() {
    let tree = value("def r { def x 1; x }");
    let x = Def { name: Intern("x"), value: Box::new(num(1, 14, 15)), span: sp(8, 16) };
    assert_eq!(
        tree,
        Expr {
            kind: ExprKind::Scope { body: vec![Item::Def(x), Item::Expr(ident("x", 17))] },
            span: sp(6, 20),
        }
    );
}

#[test]
fn scope_of_definitions_alone_ends_in_empty() {
    let tree = value("def r { def x 1; }");
    let x = Def { name: Intern("x"), value: Box::new(num(1, 14, 15)), span: sp(8, 16) };
    assert_eq!(
        tree,
        Expr { kind: ExprKind::Scope { body: vec![Item::Def(x), Item::Empty] }, span: sp(6, 18) }
    );
}

#[test]
fn empty_parentheses_are_the_empty_tuple() {
    let tree = value("def r ();");
    assert_eq!(tree, Expr { kind: ExprKind::Tuple { exprs: vec![] }, span: sp(6, 8) });
}

#[test]
fn empty_braces_are_the_empty_tuple() {
    let tree = value("def r {}");
    assert_eq!(tree, Expr { kind: ExprKind::Tuple { exprs: vec![] }, span: sp(6, 8) });
}

#[test]
fn parentheses_round_one_expression_leave_no_node() {
    let tree = value("def r (a);");
    assert_eq!(tree, ident("a", 7));
}

#[test]
fn commas_make_a_tuple() {
    let tree = value("def r (a, b, c);");
    assert_eq!(
        tree,
        Expr {
            kind: ExprKind::Tuple { exprs: vec![ident("a", 7), ident("b", 10), ident("c", 13)] },
            span: sp(7, 14),
        }
    );
}

#[test]
fn variant_alternatives_keep_their_order() {
    let tree = value("def r |Ok |Err: 2;");
    assert_eq!(
        tree,
        Expr {
            kind: ExprKind::Variant(vec![
                VariantItem { name: Intern("Ok"), value: None, span: sp(6, 9) },
                VariantItem { name: Intern("Err"), value: Some(num(2, 16, 17)), span: sp(10, 17) },
            ]),
            span: sp(6, 17),
        }
    );
}

#[test]
fn variant_values_that_end_in_a_block_are_followed_by_alternatives() {
    let tree = value("def r |Ok: x {1} |Err: 2;");
    match tree.kind {
        ExprKind::Variant(items) => {
            assert_eq!(items.len(), 2);
            assert_eq!(items[0].name, Intern("Ok"));
            assert!(matches!(items[0].value.as_ref().unwrap().kind, ExprKind::Lambda { .. }));
            assert_eq!(items[1].name, Intern("Err"));
            assert_eq!(items[1].value, Some(num(2, 23, 24)));
        },
        other => panic!("no variant: {:?}", other),
    }
}

#[test]
fn a_variant_after_a_value_is_its_argument() {
    // The `|` after the value `1` starts an atom, and an atom after an
    // atom is an argument.
    let tree = value("def r |Ok: 1 |Err: 2;");
    let inner = Expr {
        kind: ExprKind::Variant(vec![VariantItem {
            name: Intern("Err"),
            value: Some(num(2, 19, 20)),
            span: sp(13, 20),
        }]),
        span: sp(13, 20),
    };
    assert_eq!(
        tree,
        Expr {
            kind: ExprKind::Variant(vec![VariantItem {
                name: Intern("Ok"),
                value: Some(apply(num(1, 11, 12), inner, sp(11, 20))),
                span: sp(6, 20),
            }]),
            span: sp(6, 20),
        }
    );
}

#[test]
fn block_valued_definition_needs_no_semicolon() {
    let definitions = defs("def f x { x }");
    assert_eq!(definitions.len(), 1);
    assert_eq!(definitions[0].name, Intern("f"));
    // The braces round one expression leave no node, so that the value ends
    // where `x` ends, and the definition with it.
    assert_eq!(definitions[0].span, sp(0, 11));
    assert_eq!(
        *definitions[0].value,
        Expr {
            kind: ExprKind::Lambda {
                arg: Box::new(ident("x", 6)),
                body: Box::new(ident("x", 10)),
            },
            span: sp(6, 11),
        }
    );
}

#[test]
fn block_valued_definitions_follow_each_other() {
    let definitions = defs("def f x { x } def g .{ def h 1; } def k { 2 }");
    assert_eq!(definitions.len(), 3);
    assert_eq!(definitions[1].name, Intern("g"));
    assert!(matches!(definitions[1].value.kind, ExprKind::Object { .. }));
    assert_eq!(definitions[2].name, Intern("k"));
}

#[test]
fn plain_definition_needs_its_semicolon() {
    assert_eq!(run("def a 1").unwrap_err(), end_of_input());
    assert!(run("def a 1;").is_ok());
    let src = "def a 1 def b 2;";
    assert_eq!(
        run(src).unwrap_err(),
        unexpected(Token { kind: TokenKind::Def, span: sp(8, 11) })
    );
}

#[test]
fn an_assignment_mark_starts_no_value() {
    let assign = Token { kind: TokenKind::Assign, span: sp(6, 7) };
    assert_eq!(run("def a = 1").unwrap_err(), unexpected(assign));
    assert_eq!(run("def a = 1;").unwrap_err(), unexpected(assign));
}

#[test]
fn type_assertion() {
    let tree = value("def r x :: Int;");
    assert_eq!(
        tree,
        Expr {
            kind: ExprKind::TypeAssertion {
                a: Box::new(ident("x", 6)),
                b: Box::new(ident("Int", 11)),
            },
            span: sp(6, 14),
        }
    );
}

#[test]
fn type_assertion_as_a_statement() {
    let tree = value("def r (x :: Int; y);");
    match tree.kind {
        ExprKind::Scope { body } => {
            assert_eq!(body.len(), 2);
            assert!(matches!(
                body[0],
                Item::Expr(Expr { kind: ExprKind::TypeAssertion { .. }, .. })
            ));
        },
        other => panic!("no scope: {:?}", other),
    }
}

#[test]
fn lambda_with_an_object_body() {
    let tree = value("def r x .{ def y 1; }");
    match tree.kind {
        ExprKind::Lambda { arg, body } => {
            assert_eq!(*arg, ident("x", 6));
            assert_eq!(body.span, sp(8, 21));
            assert!(matches!(body.kind, ExprKind::Object { .. }));
        },
        other => panic!("no lambda: {:?}", other),
    }
    assert_eq!(defs("def r x .{ def y 1; }")[0].span, sp(0, 21));
}

#[test]
fn an_assertion_may_follow_either_lambda_form_in_either_place() {
    // as the value of a definition
    for src in ["def r x { 1 } :: T;", "def r x .{ } :: T;"] {
        let tree = value(src);
        match tree.kind {
            ExprKind::TypeAssertion { a, b } => {
                assert!(matches!(a.kind, ExprKind::Lambda { .. }));
                assert!(matches!(b.kind, ExprKind::Ident(_)));
            },
            other => panic!("no assertion: {:?}", other),
        }
    }
    // as a general expression
    for src in ["def r (x { 1 } :: T);", "def r (x .{ } :: T);"] {
        let tree = value(src);
        match tree.kind {
            ExprKind::TypeAssertion { a, b } => {
                assert!(matches!(a.kind, ExprKind::Lambda { .. }));
                assert!(matches!(b.kind, ExprKind::Ident(_)));
            },
            other => panic!("no assertion: {:?}", other),
        }
    }
    // and then the definition needs its semicolon again
    assert_eq!(run("def r x { 1 } :: T").unwrap_err(), end_of_input());
}

#[test]
fn a_lambda_has_one_body() {
    assert_eq!(
        run("def r (x { 1 } .{ });").unwrap_err(),
        unexpected(Token { kind: TokenKind::DotOpenBrace, span: sp(15, 17) })
    );
    assert_eq!(
        run("def r x .{ } { 1 }").unwrap_err(),
        unexpected(Token { kind: TokenKind::OpenBrace, span: sp(13, 14) })
    );
}

#[test]
fn sugar_applies_to_each_element_of_a_tuple() {
    let tree = value("def r (x { y; }, z :: T);");
    match tree.kind {
        ExprKind::Tuple { exprs } => {
            assert_eq!(exprs.len(), 2);
            assert!(matches!(exprs[0].kind, ExprKind::Lambda { .. }));
            assert_eq!(exprs[0].span, sp(7, 15));
            assert!(matches!(exprs[1].kind, ExprKind::TypeAssertion { .. }));
            assert_eq!(exprs[1].span, sp(17, 23));
        },
        other => panic!("no tuple: {:?}", other),
    }
}

#[test]
fn tuples_are_items_of_a_scope() {
    let tree = value("def r (a, b; c);");
    match tree.kind {
        ExprKind::Scope { body } => {
            assert_eq!(body.len(), 2);
            match &body[0] {
                Item::Expr(Expr { kind: ExprKind::Tuple { exprs }, span }) => {
                    assert_eq!(exprs.len(), 2);
                    assert_eq!(*span, sp(7, 11));
                },
                other => panic!("no tuple: {:?}", other),
            }
            assert_eq!(body[1], Item::Expr(ident("c", 13)));
        },
        other => panic!("no scope: {:?}", other),
    }
}

#[test]
fn parentheses_nest() {
    assert_eq!(value("def r (((a)));"), ident("a", 9));
    let tree = value("def r f (g x) ();");
    let inner = apply(ident("g", 9), ident("x", 11), sp(9, 12));
    let first = apply(ident("f", 6), inner, sp(6, 12));
    let unit = Expr { kind: ExprKind::Tuple { exprs: vec![] }, span: sp(14, 16) };
    assert_eq!(tree, apply(first, unit, sp(6, 16)));
}

#[test]
fn prefix_operators_nest_to_the_right() {
    let tree = value("def r ! set val ^ a;");
    let mut ops = Vec::new();
    let mut starts = Vec::new();
    let mut node = tree;
    loop {
        match node.kind {
            ExprKind::UnOp { op, arg } => {
                ops.push(op);
                starts.push(node.span);
                node = *arg;
            },
            _ => break,
        }
    }
    assert_eq!(ops, vec![UnOp::Not, UnOp::SetOp, UnOp::Val, UnOp::Ref]);
    assert_eq!(starts, vec![sp(6, 19), sp(8, 19), sp(12, 19), sp(16, 19)]);
    assert_eq!(node, ident("a", 18));
}

#[test]
fn suffixes_apply_in_the_order_written() {
    let tree = value("def r a^.b c;");
    let deref = Expr {
        kind: ExprKind::UnOp { op: UnOp::Deref, arg: Box::new(ident("a", 6)) },
        span: sp(6, 8),
    };
    let access =
        Expr { kind: ExprKind::Access { expr: Box::new(deref), prop: Intern("b") }, span: sp(6, 10) };
    assert_eq!(tree, apply(access, ident("c", 11), sp(6, 12)));
}

#[test]
fn literals() {
    assert_eq!(
        value("def r 2.5;"),
        Expr { kind: ExprKind::Literal(Literal::Float(2.5f64.to_bits())), span: sp(6, 9) }
    );
    assert_eq!(
        value("def r \"hi\";"),
        Expr { kind: ExprKind::Literal(Literal::String(Intern("hi"))), span: sp(6, 10) }
    );
    assert_eq!(value("def r 42;"), num(42, 6, 8));
}

#[test]
fn object_literal() {
    let tree = value("def r (.{ def a 1; def b 2; }, c);");
    match tree.kind {
        ExprKind::Tuple { exprs } => {
            assert_eq!(exprs.len(), 2);
            assert_eq!(exprs[0].span, sp(7, 29));
            match &exprs[0].kind {
                ExprKind::Object { definitions } => assert_eq!(definitions.len(), 2),
                other => panic!("no object: {:?}", other),
            }
        },
        other => panic!("no tuple: {:?}", other),
    }
}

#[test]
fn unterminated_parenthesis_is_an_error() {
    assert_eq!(run("def r (a").unwrap_err(), end_of_input());
    assert_eq!(run("def r (a; b").unwrap_err(), end_of_input());
    assert_eq!(run("def r (").unwrap_err(), ParseError {
        kind: ParseErrorKind::Unexpected(None),
        span: None
    });
    assert_eq!(run("def r { def x 1;").unwrap_err(), end_of_input());
    assert_eq!(run("def r .{ def x 1;").unwrap_err(), end_of_input());
}

#[test]
fn wrong_closing_token_is_an_error() {
    assert_eq!(
        run("def r (a };").unwrap_err(),
        unexpected(Token { kind: TokenKind::CloseBrace, span: sp(9, 10) })
    );
    assert_eq!(
        run("def r (a b; c d e f").unwrap_err(),
        end_of_input()
    );
}

#[test]
fn a_program_holds_definitions_alone() {
    assert_eq!(
        run("1 + 2").unwrap_err(),
        unexpected(Token { kind: TokenKind::Integer(1), span: sp(0, 1) })
    );
    assert_eq!(
        run("def a 1; }").unwrap_err(),
        unexpected(Token { kind: TokenKind::CloseBrace, span: sp(9, 10) })
    );
}

#[test]
fn missing_operand_reports_the_token_found_with_its_span() {
    assert_eq!(
        run("def r 1 + ;").unwrap_err(),
        ParseError {
            kind: ParseErrorKind::Unexpected(Some(Token {
                kind: TokenKind::Semicolon,
                span: sp(10, 11)
            })),
            span: Some(sp(10, 11)),
        }
    );
    assert_eq!(
        run("def a )").unwrap_err(),
        unexpected(Token { kind: TokenKind::CloseParen, span: sp(6, 7) })
    );
    assert_eq!(
        run("def r (a; ,)").unwrap_err(),
        unexpected(Token { kind: TokenKind::Comma, span: sp(10, 11) })
    );
    assert_eq!(
        run("def r ! ^ ;").unwrap_err(),
        unexpected(Token { kind: TokenKind::Semicolon, span: sp(10, 11) })
    );
}

#[test]
fn missing_operand_at_the_end_of_the_input_has_no_span() {
    assert_eq!(run("def r 1 +").unwrap_err(), end_of_input());
    assert_eq!(run("def r").unwrap_err(), end_of_input());
    assert_eq!(run("def r |A: ").unwrap_err(), end_of_input());
    assert_eq!(run("def r x ::").unwrap_err(), end_of_input());
}

#[test]
fn missing_name_is_an_error() {
    assert_eq!(
        run("def 1;").unwrap_err(),
        unexpected(Token { kind: TokenKind::Integer(1), span: sp(4, 5) })
    );
    assert_eq!(run("def").unwrap_err(), end_of_input());
    assert_eq!(
        run("def r a.1;").unwrap_err(),
        unexpected(Token { kind: TokenKind::Integer(1), span: sp(8, 9) })
    );
    assert_eq!(
        run("def r |1;").unwrap_err(),
        unexpected(Token { kind: TokenKind::Integer(1), span: sp(7, 8) })
    );
}

#[test]
fn lexical_error_ends_the_parse_with_its_span() {
    let failure = TokenizationError { span: Some(sp(8, 9)) };
    let res = parse(Tokens::new(lex("def r 1 +"), Some(failure)));
    assert_eq!(
        res.unwrap_err(),
        ParseError { kind: ParseErrorKind::TokenizationError(failure), span: Some(sp(8, 9)) }
    );
    let res = parse(Tokens::new(lex(""), Some(failure)));
    assert_eq!(res.unwrap_err(), ParseError::from(failure));
    let nowhere = TokenizationError { span: None };
    let res = parse(Tokens::new(lex("def r 1;"), Some(nowhere)));
    assert_eq!(
        res.unwrap_err(),
        ParseError { kind: ParseErrorKind::TokenizationError(nowhere), span: None }
    );
}

#[test]
fn a_parse_error_before_the_lexical_error_comes_first() {
    let failure = TokenizationError { span: Some(sp(20, 21)) };
    let res = parse(Tokens::new(lex("def r );"), Some(failure)));
    assert_eq!(
        res.unwrap_err(),
        unexpected(Token { kind: TokenKind::CloseParen, span: sp(6, 7) })
    );
}

#[test]
fn the_stream_yields_its_tokens_in_order() {
    let mut stream = Tokens::new(lex("a b"), None);
    let a = Token { kind: TokenKind::Name(Intern("a")), span: sp(0, 1) };
    let b = Token { kind: TokenKind::Name(Intern("b")), span: sp(2, 3) };
    assert_eq!(stream.peek(), Ok(Some(&a)));
    assert_eq!(stream.peek(), Ok(Some(&a)));
    assert_eq!(stream.next(), Ok(Some(a)));
    assert_eq!(stream.next(), Ok(Some(b)));
    assert_eq!(stream.peek(), Ok(None));
    assert_eq!(stream.next(), Ok(None));
    let failure = TokenizationError { span: None };
    let mut failing = Tokens::new(lex("a"), Some(failure));
    assert_eq!(failing.next(), Ok(Some(a)));
    assert_eq!(failing.peek(), Err(failure));
    assert_eq!(failing.next(), Err(failure));
}

#[test]
fn parsing_goes_on_from_where_the_stream_stands() {
    let mut stream = Tokens::new(lex("; def a 1;"), None);
    assert!(stream.next().unwrap().is_some());
    let tree = parse(stream).unwrap();
    assert_eq!(tree.span, sp(2, 10));
}

#[test]
fn every_span_is_ordered_and_holds_its_children() {
    fn check(expr: &Expr<'_>) {
        assert!(expr.span.start <= expr.span.end);
        let within = |child: &Expr<'_>| {
            assert!(expr.span.start <= child.span.start && child.span.end <= expr.span.end);
            check(child);
        };
        match &expr.kind {
            ExprKind::Object { definitions } => {
                for def in definitions {
                    assert!(expr.span.start <= def.span.start && def.span.end <= expr.span.end);
                    assert!(def.span.start <= def.value.span.start);
                    assert!(def.value.span.end <= def.span.end);
                    check(&def.value);
                }
            },
            ExprKind::Scope { body } => {
                for item in body {
                    match item {
                        Item::Expr(e) => within(e),
                        Item::Def(d) => {
                            assert!(expr.span.start <= d.span.start && d.span.end <= expr.span.end);
                            check(&d.value);
                        },
                        Item::Empty => {},
                    }
                }
            },
            ExprKind::Lambda { arg, body } => {
                assert_eq!(expr.span, Span { start: arg.span.start, end: body.span.end });
                within(arg);
                within(body);
            },
            ExprKind::BinOp { lhs, rhs, .. } => {
                assert_eq!(expr.span, lhs.span);
                check(lhs);
                check(rhs);
            },
            ExprKind::UnOp { arg, .. } => within(arg),
            ExprKind::Access { expr: inner, .. } => within(inner),
            ExprKind::Tuple { exprs } => {
                if !exprs.is_empty() {
                    assert_eq!(expr.span.start, exprs[0].span.start);
                    assert_eq!(expr.span.end, exprs[exprs.len() - 1].span.end);
                }
                for e in exprs {
                    within(e);
                }
            },
            ExprKind::Apply { a, b } | ExprKind::TypeAssertion { a, b } => {
                assert_eq!(expr.span, Span { start: a.span.start, end: b.span.end });
                within(a);
                within(b);
            },
            ExprKind::Variant(items) => {
                assert_eq!(expr.span.start, items[0].span.start);
                assert_eq!(expr.span.end, items[items.len() - 1].span.end);
                for item in items {
                    if let Some(v) = &item.value {
                        assert!(item.span.start <= v.span.start && v.span.end == item.span.end);
                        check(v);
                    }
                }
            },
            ExprKind::Ident(_) | ExprKind::Literal(_) => {},
            ExprKind::SqLambda { .. } | ExprKind::Case { .. } => panic!("never built"),
        }
    }
    let src = "def main args { def t (1, 2.5, \"s\"); set x :: T; f (a + b * c) .{ def k |A |B: g^ .h; }; (x; y;) } def n !a == b && c;";
    check(&run(src).unwrap());
}
