use hcl::expr::{
    BinaryOp, BinaryOperator, Conditional, Expression, ForExpr, FuncCall, Heredoc,
    HeredocStripMode, ObjectKey, Operation, RawExpression, TemplateExpr, Traversal,
    TraversalOperator,
};
use hcl::format::{to_string, Formatter};
use hcl::ident::Identifier;
use hcl::number::Number;
use hcl::ser::Serializer;
use hcl::structure::{Attribute, Block, BlockLabel, Body};

fn id(s: &str) -> Identifier {
    Identifier::unchecked(s.to_string())
}

fn string(s: &str) -> Expression {
    Expression::String(s.to_string())
}

fn num(n: u64) -> Expression {
    Expression::Number(Number::PosInt(n))
}

fn attr_body(key: &str, expr: Expression) -> Body {
    Body::builder().add_attribute(Attribute::new(id(key), expr)).build()
}

fn binary(lhs: Expression, op: BinaryOperator, rhs: Expression) -> Expression {
    Expression::Operation(Box::new(Operation::Binary(BinaryOp::new(lhs, op, rhs))))
}

#[test]
fn serialize_body() {
    let object = Expression::Object(vec![
        (ObjectKey::Identifier(id("foo")), string("bar")),
        (
            ObjectKey::Expression(string("enabled")),
            Expression::Raw(RawExpression::new("var.enabled".to_string())),
        ),
        (
            ObjectKey::Expression(Expression::Raw(RawExpression::new("var.name".to_string()))),
            string("the value"),
        ),
    ]);
    let value = Body::builder()
        .add_attribute(Attribute::new(id("foo"), num(1)))
        .add_attribute(Attribute::new(id("bar"), string("baz")))
        .add_block(
            Block::builder(id("qux"))
                .add_attribute(Attribute::new(id("foo"), string("bar")))
                .add_block(
                    Block::builder(id("with_labels"))
                        .add_label(BlockLabel::Identifier(id("label1")))
                        .add_label(BlockLabel::String("lab\"el2".to_string()))
                        .add_attribute(Attribute::new(
                            id("baz"),
                            Expression::Array(vec![num(1), num(2), num(3)]),
                        ))
                        .build(),
                )
                .add_attribute(Attribute::new(id("an_object"), object))
                .build(),
        )
        .build();

    let expected = r#"foo = 1
bar = "baz"

qux {
  foo = "bar"

  with_labels label1 "lab\"el2" {
    baz = [
      1,
      2,
      3
    ]
  }

  an_object = {
    foo = "bar"
    "enabled" = var.enabled
    var.name = "the value"
  }
}
"#;

    assert_eq!(to_string(&value), expected);
}

#[test]
fn serialize_empty_block() {
    let body = Body::builder().add_block(Block::builder(id("empty")).build()).build();
    assert_eq!(to_string(&body), "empty {}\n");
}

#[test]
fn serialize_traversal() {
    let t = Traversal::new(
        Expression::Variable(id("var")),
        vec![
            TraversalOperator::GetAttr(id("foo")),
            TraversalOperator::FullSplat,
            TraversalOperator::GetAttr(id("bar")),
            TraversalOperator::Index(num(1)),
            TraversalOperator::AttrSplat,
            TraversalOperator::GetAttr(id("baz")),
            TraversalOperator::LegacyIndex(42),
        ],
    );
    assert_eq!(
        to_string(&attr_body("attr", Expression::Traversal(Box::new(t)))),
        "attr = var.foo[*].bar[1].*.baz.42\n"
    );
}

#[test]
fn serialize_conditional() {
    let c = Conditional::new(Expression::Variable(id("cond_var")), string("yes"), string("no"));
    assert_eq!(
        to_string(&attr_body("cond", Expression::Conditional(Box::new(c)))),
        "cond = cond_var ? \"yes\" : \"no\"\n"
    );
}

#[test]
fn serialize_operation() {
    assert_eq!(
        to_string(&attr_body("op", binary(num(1), BinaryOperator::Plus, num(2)))),
        "op = 1 + 2\n"
    );
}

#[test]
fn serialize_for_expr() {
    let list = ForExpr::new(
        id("item"),
        Expression::Variable(id("items")),
        Expression::FuncCall(Box::new(
            FuncCall::builder(id("func")).arg(Expression::Variable(id("item"))).build(),
        )),
    )
    .with_cond_expr(Expression::Variable(id("item")));
    let object = ForExpr::new(
        id("value"),
        Expression::Variable(id("items")),
        Expression::FuncCall(Box::new(
            FuncCall::builder(id("tolower")).arg(Expression::Variable(id("value"))).build(),
        )),
    )
    .with_key_var(id("key"))
    .with_key_expr(Expression::FuncCall(Box::new(
        FuncCall::builder(id("toupper")).arg(Expression::Variable(id("key"))).build(),
    )))
    .with_cond_expr(binary(
        Expression::Variable(id("value")),
        BinaryOperator::NotEq,
        Expression::Null,
    ))
    .with_grouping(true);
    let body = Body::builder()
        .add_attribute(Attribute::new(id("list"), Expression::ForExpr(Box::new(list))))
        .add_attribute(Attribute::new(id("object"), Expression::ForExpr(Box::new(object))))
        .build();

    let expected = r#"
list = [for item in items : func(item) if item]
object = {for key, value in items : toupper(key) => tolower(value)... if value != null}
"#
    .trim_start();

    assert_eq!(to_string(&body), expected);
}

#[test]
fn serialize_func_call() {
    assert_eq!(
        to_string(&attr_body("attr", Expression::FuncCall(Box::new(FuncCall::new(id("foo")))))),
        "attr = foo()\n"
    );
    let f = FuncCall::builder(id("foo")).arg(num(1)).arg(string("two")).build();
    assert_eq!(
        to_string(&attr_body("attr", Expression::FuncCall(Box::new(f)))),
        "attr = foo(1, \"two\")\n"
    );
    let f = FuncCall::builder(id("foo"))
        .arg(num(1))
        .arg(Expression::Array(vec![string("two"), string("three")]))
        .expand_final(true)
        .build();
    assert_eq!(
        to_string(&attr_body("attr", Expression::FuncCall(Box::new(f)))),
        "attr = foo(1, [\"two\", \"three\"]...)\n"
    );
}

#[test]
fn serialize_heredoc() {
    let body = Body::builder()
        .add_block(
            Block::builder(id("content"))
                .add_attribute(Attribute::new(
                    id("heredoc"),
                    Expression::TemplateExpr(Box::new(TemplateExpr::Heredoc(Heredoc::new(
                        id("HEREDOC"),
                        "foo\n  bar\nbaz\n".to_string(),
                    )))),
                ))
                .add_attribute(Attribute::new(
                    id("heredoc_indent"),
                    Expression::TemplateExpr(Box::new(TemplateExpr::Heredoc(
                        Heredoc::new(id("HEREDOC"), "    foo\n      bar\n    baz\n".to_string())
                            .with_strip_mode(HeredocStripMode::Indent),
                    ))),
                ))
                .build(),
        )
        .build();

    let expected = r#"content {
  heredoc = <<HEREDOC
foo
  bar
baz
HEREDOC
  heredoc_indent = <<-HEREDOC
    foo
      bar
    baz
  HEREDOC
}
"#;

    assert_eq!(to_string(&body), expected);
}

#[test]
fn serialize_with_custom_formatter() {
    let body = || {
        Body::builder()
            .add_attribute(Attribute::new(id("foo"), num(1)))
            .add_attribute(Attribute::new(id("bar"), string("baz")))
            .add_block(
                Block::builder(id("qux"))
                    .add_attribute(Attribute::new(id("foo"), string("bar")))
                    .add_block(
                        Block::builder(id("baz"))
                            .add_attribute(Attribute::new(id("qux"), Expression::Bool(true)))
                            .build(),
                    )
                    .add_attribute(Attribute::new(id("baz"), string("qux")))
                    .build(),
            )
            .build()
    };

    let default_expected = r#"foo = 1
bar = "baz"

qux {
  foo = "bar"

  baz {
    qux = true
  }

  baz = "qux"
}
"#;

    let custom_expected = r#"foo = 1
bar = "baz"
qux {
    foo = "bar"
    baz {
        qux = true
    }
    baz = "qux"
}
"#;

    assert_eq!(to_string(&body()), default_expected);

    let formatter = Formatter::builder().indent("    ").dense(true).build();
    let mut ser = Serializer::with_formatter(formatter);
    ser.serialize(&body());
    assert_eq!(ser.into_inner(), custom_expected);
}

#[test]
fn serialize_nested_expression() {
    let e = Expression::Parenthesis(Box::new(Expression::Variable(id("foo"))));
    assert_eq!(to_string(&attr_body("attr", e)), "attr = (foo)\n");
}

#[test]
fn serialize_identifiers_with_hyphens() {
    assert_eq!(to_string(&attr_body("hyphen-ated", Expression::Null)), "hyphen-ated = null\n");
}

#[test]
fn tests_roundtrip() {
    let input = Body::builder()
        .add_block(
            Block::builder(id("resource"))
                .add_label(BlockLabel::String("aws_s3_bucket".to_string()))
                .add_label(BlockLabel::String("mybucket".to_string()))
                .add_attribute(Attribute::new(
                    id("count"),
                    Expression::Conditional(Box::new(Conditional::new(
                        Expression::Traversal(Box::new(Traversal::new(
                            Expression::Variable(id("var")),
                            vec![TraversalOperator::GetAttr(id("enabled"))],
                        ))),
                        num(1),
                        num(0),
                    ))),
                ))
                .add_attribute(Attribute::new(id("bucket"), string("mybucket")))
                .add_attribute(Attribute::new(id("force_destroy"), Expression::Bool(true)))
                .add_block(
                    Block::builder(id("server_side_encryption_configuration"))
                        .add_block(
                            Block::builder(id("rule"))
                                .add_block(
                                    Block::builder(id("apply_server_side_encryption_by_default"))
                                        .add_attribute(Attribute::new(
                                            id("kms_master_key_id"),
                                            Expression::Traversal(Box::new(Traversal::new(
                                                Expression::Variable(id("aws_kms_key")),
                                                vec![
                                                    TraversalOperator::GetAttr(id("mykey")),
                                                    TraversalOperator::GetAttr(id("arn")),
                                                ],
                                            ))),
                                        ))
                                        .add_attribute(Attribute::new(
                                            id("sse_algorithm"),
                                            string("aws:kms"),
                                        ))
                                        .build(),
                                )
                                .build(),
                        )
                        .build(),
                )
                .add_attribute(Attribute::new(
                    id("tags"),
                    Expression::Object(vec![
                        (ObjectKey::Expression(string("application")), string("myapp")),
                        (
                            ObjectKey::Identifier(id("team")),
                            Expression::TemplateExpr(Box::new(TemplateExpr::QuotedString(
                                "${var.team}".to_string(),
                            ))),
                        ),
                        (
                            ObjectKey::Identifier(id("environment")),
                            Expression::Parenthesis(Box::new(Expression::Variable(id(
                                "environment",
                            )))),
                        ),
                    ]),
                ))
                .build(),
        )
        .build();

    let serialized = to_string(&input);
    let output = hcl::parse(&serialized).unwrap();
    assert_eq!(input, output);
}
