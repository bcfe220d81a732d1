use hcl::expr::{
    BinaryOp, BinaryOperator, Expression, ForExpr, FuncCall, ObjectKey, Operation, Traversal,
    TraversalOperator, UnaryOp, UnaryOperator,
};
use hcl::ident::Identifier;
use hcl::number::Number;
use hcl::structure::{Attribute, Block, BlockLabel, Body};
use hcl::value::Value;

fn id(s: &str) -> Identifier {
    Identifier::unchecked(s.to_string())
}

fn var(s: &str) -> Expression {
    Expression::Variable(id(s))
}

fn string(s: &str) -> Expression {
    Expression::String(s.to_string())
}

fn num(n: u64) -> Expression {
    Expression::Number(Number::PosInt(n))
}

fn vstr(s: &str) -> Value {
    Value::String(s.to_string())
}

fn obj(entries: Vec<(&str, Value)>) -> Value {
    Value::Object(entries.into_iter().map(|(k, v)| (k.to_string(), v)).collect())
}

fn attr(key: &str, expr: Expression) -> Attribute {
    Attribute::new(id(key), expr)
}

fn attrs(pairs: Vec<(&str, Expression)>) -> Body {
    let mut b = Body::builder();
    for (k, e) in pairs {
        b = b.add_attribute(attr(k, e));
    }
    b.build()
}

fn traversal(root: &str, attrs: &[&str]) -> Expression {
    Expression::Traversal(Box::new(Traversal::new(
        var(root),
        attrs.iter().map(|a| TraversalOperator::GetAttr(id(a))).collect(),
    )))
}

fn call(name: &str, args: Vec<Expression>) -> Expression {
    let mut f = FuncCall::builder(id(name));
    for a in args {
        f = f.arg(a);
    }
    Expression::FuncCall(Box::new(f.build()))
}

#[test]
fn errors() {
    assert!(hcl::from_str(r#"invalid["#).is_err());
}

#[test]
fn block() {
    assert_eq!(
        hcl::from_str(r#"resource "aws_s3_bucket" "mybucket" { name = "mybucket" }"#).unwrap(),
        obj(vec![(
            "resource",
            obj(vec![(
                "aws_s3_bucket",
                obj(vec![("mybucket", obj(vec![("name", vstr("mybucket"))]))]),
            )]),
        )])
    );

    assert_eq!(
        hcl::from_str(r#"block { name = "asdf" }"#).unwrap(),
        obj(vec![("block", obj(vec![("name", vstr("asdf"))]))])
    );
}

#[test]
fn duplicate_block() {
    let input = r#"
        block {
          foo {
            bar = "baz"
          }

          foo {
            bar = 1
          }
        }

        other "one" "two" {
          foo = "bar"
        }

        other "two" "three" {
          bar = "baz"
        }
    "#;

    let expected = obj(vec![
        (
            "block",
            obj(vec![(
                "foo",
                Value::Array(vec![
                    obj(vec![("bar", vstr("baz"))]),
                    obj(vec![("bar", Value::Number(Number::PosInt(1)))]),
                ]),
            )]),
        ),
        (
            "other",
            obj(vec![
                ("one", obj(vec![("two", obj(vec![("foo", vstr("bar"))]))])),
                ("two", obj(vec![("three", obj(vec![("bar", vstr("baz"))]))])),
            ]),
        ),
    ]);
    assert_eq!(hcl::from_str(input).unwrap(), expected);

    let input = r#"
        foo { bar = "baz" }
        foo { bar = 1 }
    "#;
    let expected = obj(vec![(
        "foo",
        Value::Array(vec![
            obj(vec![("bar", vstr("baz"))]),
            obj(vec![("bar", Value::Number(Number::PosInt(1)))]),
        ]),
    )]);
    assert_eq!(hcl::from_str(input).unwrap(), expected);
}

#[test]
fn duplicate_attribute() {
    let input = r#"
        foo = ["bar"]
        foo = ["baz"]
    "#;
    assert_eq!(
        hcl::from_str(input).unwrap(),
        obj(vec![("foo", Value::Array(vec![vstr("baz")]))])
    );
}

#[test]
fn duplicate_attribute_and_block() {
    let input = r#"
        foo = ["bar"]
        foo { bar = "baz" }
    "#;
    assert_eq!(
        hcl::from_str(input).unwrap(),
        obj(vec![("foo", obj(vec![("bar", vstr("baz"))]))])
    );

    let input = r#"
        foo { bar = "baz" }
        foo = ["bar"]
    "#;
    assert_eq!(
        hcl::from_str(input).unwrap(),
        obj(vec![("foo", Value::Array(vec![vstr("bar")]))])
    );
}

#[test]
fn func_call() {
    let input = r#"attr = foo(1, "bar", ["baz", "qux"]...)"#;
    let f = FuncCall::builder(id("foo"))
        .arg(num(1))
        .arg(string("bar"))
        .arg(Expression::Array(vec![string("baz"), string("qux")]))
        .expand_final(true)
        .build();
    let expected = attrs(vec![("attr", Expression::FuncCall(Box::new(f)))]);
    assert_eq!(hcl::parse(input).unwrap(), expected);
}

#[test]
fn operations() {
    let input = r#"
        unary = !variable
        binary = 1 + 1
    "#;
    let expected = attrs(vec![
        (
            "unary",
            Expression::Operation(Box::new(Operation::Unary(UnaryOp::new(
                UnaryOperator::Not,
                var("variable"),
            )))),
        ),
        (
            "binary",
            Expression::Operation(Box::new(Operation::Binary(BinaryOp::new(
                num(1),
                BinaryOperator::Plus,
                num(1),
            )))),
        ),
    ]);
    assert_eq!(hcl::parse(input).unwrap(), expected);
}

#[test]
fn for_exprs() {
    let input = r#"
        list = [for item in items : func(item) if item]
        object = {for key, value in items : toupper(key) => tolower(value)...}
    "#;
    let expected = attrs(vec![
        (
            "list",
            Expression::ForExpr(Box::new(
                ForExpr::new(id("item"), var("items"), call("func", vec![var("item")]))
                    .with_cond_expr(var("item")),
            )),
        ),
        (
            "object",
            Expression::ForExpr(Box::new(
                ForExpr::new(id("value"), var("items"), call("tolower", vec![var("value")]))
                    .with_key_var(id("key"))
                    .with_key_expr(call("toupper", vec![var("key")]))
                    .with_grouping(true),
            )),
        ),
    ]);
    assert_eq!(hcl::parse(input).unwrap(), expected);
}

#[test]
fn negative_numbers() {
    let input = r#"
        float = -4.2
        float_exp = -4.2e10
        signed = -42
    "#;
    let expected = attrs(vec![
        ("float", Expression::Number(Number::Float("-4.2".to_string()))),
        ("float_exp", Expression::Number(Number::Float("-4.2e10".to_string()))),
        ("signed", Expression::Number(Number::NegInt(-42))),
    ]);
    assert_eq!(hcl::parse(input).unwrap(), expected);
}

#[test]
fn null_in_variable_expr() {
    let expected = attrs(vec![("foo", var("null_foo"))]);
    assert_eq!(hcl::parse("foo = null_foo").unwrap(), expected);
}

#[test]
fn object_with_variable_expr_key() {
    let input = "providers = { aws.eu-central-1 = aws.eu-central-1 }";
    let expected = attrs(vec![(
        "providers",
        Expression::Object(vec![(
            ObjectKey::Expression(traversal("aws", &["eu-central-1"])),
            traversal("aws", &["eu-central-1"]),
        )]),
    )]);
    assert_eq!(hcl::parse(input).unwrap(), expected);
}

#[test]
fn traversal_with_expression() {
    let input =
        "route_table_id = aws_route_table.private[count.index % var.availability_zone_count].id";
    let index = Expression::Operation(Box::new(Operation::Binary(BinaryOp::new(
        traversal("count", &["index"]),
        BinaryOperator::Mod,
        traversal("var", &["availability_zone_count"]),
    ))));
    let expected = attrs(vec![(
        "route_table_id",
        Expression::Traversal(Box::new(Traversal::new(
            var("aws_route_table"),
            vec![
                TraversalOperator::GetAttr(id("private")),
                TraversalOperator::Index(index),
                TraversalOperator::GetAttr(id("id")),
            ],
        ))),
    )]);
    assert_eq!(hcl::parse(input).unwrap(), expected);
}

#[test]
fn parse_rejects_invalid_documents() {
    assert!(hcl::parse("foo = ").is_err());
    assert!(hcl::parse("foo = 1 bar = 2").is_err());
    assert!(hcl::parse("block {").is_err());
    assert!(hcl::parse("foo = \"unterminated").is_err());
    assert!(hcl::parse("foo = \"\\q\"").is_err());
    assert!(hcl::parse("foo = 99999999999999999999999").is_err());
    assert!(hcl::parse("{ , }").is_err());
}

#[test]
fn parse_comments_and_empty_input() {
    assert_eq!(hcl::parse("").unwrap(), Body::builder().build());
    let input = "# comment\nfoo = 1 # trailing\n// line\n/* inline */ bar = true\n";
    let expected = attrs(vec![("foo", num(1)), ("bar", Expression::Bool(true))]);
    assert_eq!(hcl::parse(input).unwrap(), expected);
}

#[test]
fn parse_block_labels() {
    let input = "block ident \"str label\" {\n  a = null\n}\n";
    let expected = Body::builder()
        .add_block(
            Block::builder(id("block"))
                .add_label(BlockLabel::Identifier(id("ident")))
                .add_label(BlockLabel::String("str label".to_string()))
                .add_attribute(attr("a", Expression::Null))
                .build(),
        )
        .build();
    assert_eq!(hcl::parse(input).unwrap(), expected);
}

#[test]
fn parse_strings_and_numbers() {
    let input = "s = \"a\\tb $${x}\"\nf = 1.5e3\nn = 0\n";
    let expected = attrs(vec![
        ("s", string("a\tb ${x}")),
        ("f", Expression::Number(Number::Float("1.5e3".to_string()))),
        ("n", num(0)),
    ]);
    assert_eq!(hcl::parse(input).unwrap(), expected);
}

#[test]
fn parse_conditional_and_splat() {
    let input = "x = var.enabled ? a[*].id : b.*.name\n";
    let cond = Expression::Conditional(Box::new(hcl::expr::Conditional::new(
        traversal("var", &["enabled"]),
        Expression::Traversal(Box::new(Traversal::new(
            var("a"),
            vec![TraversalOperator::FullSplat, TraversalOperator::GetAttr(id("id"))],
        ))),
        Expression::Traversal(Box::new(Traversal::new(
            var("b"),
            vec![TraversalOperator::AttrSplat, TraversalOperator::GetAttr(id("name"))],
        ))),
    )));
    assert_eq!(hcl::parse(input).unwrap(), attrs(vec![("x", cond)]));
}

#[test]
fn values_of_expressions() {
    let value = hcl::from_str("foo = [true, 2, \"three\", var.enabled]\nbar = (1)\n").unwrap();
    let expected = obj(vec![
        (
            "foo",
            Value::Array(vec![
                Value::Bool(true),
                Value::Number(Number::PosInt(2)),
                vstr("three"),
                vstr("${var.enabled}"),
            ]),
        ),
        ("bar", Value::Number(Number::PosInt(1))),
    ]);
    assert_eq!(value, expected);
}

#[test]
fn unescape_strings() {
    let input = r#"
        block "label\\with\\backslashes" {
          string_attr = "I \u2665 unicode"

          object_attr = {
            "key\nwith\nnewlines" = true
          }

          heredoc = <<-EOS
            heredoc template with \
            escaped newline and \\backslash is not unescaped yet
          EOS
        }
    "#;

    let expected = Body::builder()
        .add_block(
            Block::builder(id("block"))
                .add_label(BlockLabel::String("label\\with\\backslashes".to_string()))
                .add_attribute(attr("string_attr", string("I \u{2665} unicode")))
                .add_attribute(attr(
                    "object_attr",
                    Expression::Object(vec![(
                        ObjectKey::Expression(string("key\nwith\nnewlines")),
                        Expression::Bool(true),
                    )]),
                ))
                .add_attribute(attr(
                    "heredoc",
                    Expression::TemplateExpr(Box::new(hcl::expr::TemplateExpr::Heredoc(
                        hcl::expr::Heredoc::new(
                            id("EOS"),
                            "            heredoc template with escaped newline and \\backslash is not unescaped yet\n".to_string(),
                        )
                        .with_strip_mode(hcl::expr::HeredocStripMode::Indent),
                    ))),
                ))
                .build(),
        )
        .build();

    assert_eq!(hcl::parse(input).unwrap(), expected);
}

#[test]
fn parse_number() {
    assert_eq!(
        hcl::parse_expr("12e+10"),
        Ok(Expression::Number(Number::Float("12e+10".to_string())))
    );
}

#[test]
fn test_parse_number() {
    assert_eq!(
        hcl::parse_expr("1.1"),
        Ok(Expression::Number(Number::Float("1.1".to_string())))
    );
    assert_eq!(hcl::parse_expr("1"), Ok(num(1)));
    assert_eq!(hcl::parse_expr("NaN"), Ok(var("NaN")));
}

#[test]
fn invalid_exprs() {
    let inputs = ["{ , }", "{ foo = 1 bar = 1 }"];

    for input in inputs {
        assert!(hcl::parse_expr(input).is_err());
    }
}

#[test]
fn parse_expr_whole_input() {
    assert_eq!(hcl::parse_expr("\"abc\""), Ok(string("abc")));
    assert!(hcl::parse_expr("1 +").is_err());
    assert!(hcl::parse_expr("").is_err());
    assert_eq!(
        hcl::parse_expr("a ? 1 : 2").map(|e| matches!(e, Expression::Conditional(_))),
        Ok(true)
    );
}
