use langparse::parser::ast::{BinOp, Def, Expr, ExprKind, Item, Literal, UnOp, VariantItem};
use langparse::parser::utils::{
    ast_size, checked_ast_size, checked_def_size, checked_varit_size, def_size, varit_size,
    ITEM_OVERHEAD,
};
use langparse::tokenizer::{Intern, Span};
use std::mem::size_of;

const AT: Span = Span { start: 0, end: 0 };

fn node(kind: ExprKind<'_>) -> Expr<'_> {
    Expr { kind, span: AT }
}

fn ident(name: &str) -> Expr<'_> {
    node(ExprKind::Ident(Intern(name)))
}

fn boxed(name: &str) -> Box<Expr<'_>> {
    Box::new(ident(name))
}

fn def<'s>(name: &'s str, value: Expr<'s>) -> Def<'s> {
    Def { name: Intern(name), value: Box::new(value), span: AT }
}

fn record() -> usize {
    size_of::<Expr<'static>>()
}

#[test]
fn item_overhead_is_eight_bytes() {
    assert_eq!(ITEM_OVERHEAD, 8);
}

#[test]
fn a_name_counts_its_record_and_its_text() {
    assert_eq!(ast_size(&ident("abc")), record() + 3);
    assert_eq!(ast_size(&ident("")), record());
    assert_eq!(ast_size(&ident("é")), record() + 2);
    assert_eq!(checked_ast_size(&ident("abc")), Some(record() + 3));
}

#[test]
fn literals_count_their_text_only_where_they_have_one() {
    assert_eq!(ast_size(&node(ExprKind::Literal(Literal::Integer(i64::MAX)))), record());
    assert_eq!(ast_size(&node(ExprKind::Literal(Literal::Float(1.5f64.to_bits())))), record());
    assert_eq!(ast_size(&node(ExprKind::Literal(Literal::String(Intern("hello"))))), record() + 5);
}

#[test]
fn nodes_with_children_count_them() {
    let two = 2 * record() + 1 + 2;
    assert_eq!(
        ast_size(&node(ExprKind::Lambda { arg: boxed("a"), body: boxed("bc") })),
        record() + two
    );
    assert_eq!(
        ast_size(&node(ExprKind::SqLambda { arg: boxed("a"), expr: boxed("bc") })),
        record() + two
    );
    assert_eq!(
        ast_size(&node(ExprKind::BinOp { op: BinOp::Add, lhs: boxed("a"), rhs: boxed("bc") })),
        record() + two
    );
    assert_eq!(
        ast_size(&node(ExprKind::Apply { a: boxed("a"), b: boxed("bc") })),
        record() + two
    );
    assert_eq!(
        ast_size(&node(ExprKind::TypeAssertion { a: boxed("a"), b: boxed("bc") })),
        record() + two
    );
    assert_eq!(
        ast_size(&node(ExprKind::UnOp { op: UnOp::Not, arg: boxed("bc") })),
        2 * record() + 2
    );
    assert_eq!(
        ast_size(&node(ExprKind::Access { expr: boxed("bc"), prop: Intern("field") })),
        2 * record() + 2 + 5
    );
    assert_eq!(
        ast_size(&node(ExprKind::Case {
            cond: boxed("a"),
            on_true: boxed("bc"),
            on_false: boxed("def"),
        })),
        4 * record() + 6
    );
}

#[test]
fn a_tuple_sums_its_elements() {
    assert_eq!(ast_size(&node(ExprKind::Tuple { exprs: vec![] })), record());
    assert_eq!(
        ast_size(&node(ExprKind::Tuple { exprs: vec![ident("a"), ident("bc"), ident("def")] })),
        4 * record() + 6
    );
}

#[test]
fn a_definition_counts_its_record_its_name_and_its_value() {
    let d = def("name", ident("v"));
    assert_eq!(def_size(&d), size_of::<Def<'static>>() + 4 + record() + 1);
    assert_eq!(checked_def_size(&d), Some(size_of::<Def<'static>>() + 4 + record() + 1));
    let object = node(ExprKind::Object { definitions: vec![d, def("x", ident("yz"))] });
    assert_eq!(
        ast_size(&object),
        record() + 2 * size_of::<Def<'static>>() + 4 + 1 + 2 * record() + 1 + 2
    );
    assert_eq!(ast_size(&node(ExprKind::Object { definitions: vec![] })), record());
}

#[test]
fn each_item_of_a_scope_adds_its_place() {
    let scope = node(ExprKind::Scope {
        body: vec![Item::Def(def("x", ident("y"))), Item::Expr(ident("abc")), Item::Empty],
    });
    let expected = record()
        + (size_of::<Def<'static>>() + 1 + record() + 1 + 8)
        + (record() + 3 + 8)
        + 8;
    assert_eq!(ast_size(&scope), expected);
    assert_eq!(ast_size(&node(ExprKind::Scope { body: vec![Item::Empty] })), record() + 8);
}

#[test]
fn an_alternative_counts_its_record_its_name_and_its_value() {
    let plain = VariantItem { name: Intern("Ok"), value: None, span: AT };
    let valued = VariantItem { name: Intern("Err"), value: Some(ident("e")), span: AT };
    assert_eq!(varit_size(&plain), size_of::<VariantItem<'static>>() + 2);
    assert_eq!(varit_size(&valued), size_of::<VariantItem<'static>>() + 3 + record() + 1);
    assert_eq!(checked_varit_size(&plain), Some(size_of::<VariantItem<'static>>() + 2));
    let literal = node(ExprKind::Variant(vec![plain, valued]));
    assert_eq!(
        ast_size(&literal),
        record() + 2 * size_of::<VariantItem<'static>>() + 2 + 3 + record() + 1
    );
}

#[test]
fn the_size_is_the_same_each_time() {
    let tree = node(ExprKind::Tuple { exprs: vec![ident("a"), ident("bc")] });
    assert_eq!(ast_size(&tree), ast_size(&tree));
    assert_eq!(checked_ast_size(&tree), Some(ast_size(&tree)));
}

#[test]
fn the_size_grows_with_a_text() {
    assert!(ast_size(&ident("ab")) > ast_size(&ident("a")));
    let short = node(ExprKind::Access { expr: boxed("x"), prop: Intern("p") });
    let long = node(ExprKind::Access { expr: boxed("x"), prop: Intern("pq") });
    assert_eq!(ast_size(&long), ast_size(&short) + 1);
    let short = node(ExprKind::Object { definitions: vec![def("a", ident("x"))] });
    let long = node(ExprKind::Object { definitions: vec![def("abc", ident("x"))] });
    assert_eq!(ast_size(&long), ast_size(&short) + 2);
    let short = node(ExprKind::Variant(vec![VariantItem { name: Intern("A"), value: None, span: AT }]));
    let long = node(ExprKind::Variant(vec![VariantItem { name: Intern("AB"), value: None, span: AT }]));
    assert_eq!(ast_size(&long), ast_size(&short) + 1);
}

#[test]
fn the_size_grows_with_a_child() {
    let small = node(ExprKind::Apply { a: boxed("f"), b: boxed("x") });
    let large = node(ExprKind::Apply {
        a: boxed("f"),
        b: Box::new(node(ExprKind::UnOp { op: UnOp::Deref, arg: boxed("x") })),
    });
    assert_eq!(ast_size(&large), ast_size(&small) + record());
    let outer_small = node(ExprKind::Tuple { exprs: vec![ident("a"), small] });
    let outer_large = node(ExprKind::Tuple { exprs: vec![ident("a"), large] });
    assert_eq!(ast_size(&outer_large), ast_size(&outer_small) + record());
}
