use hcl::expr::BinaryOperator::{Div, Mod, Mul, Plus};
use hcl::expr::{BinaryOp, BinaryOperator, Expression, Operation};
use hcl::number::Number;
use hcl::template::{Element, StripMode, Template};
use hcl::value::Value;
use hcl::convert::body_to_value;
use hcl::expr::{Heredoc, HeredocStripMode, RawExpression, TemplateExpr};
use hcl::ident::Identifier;
use hcl::structure::{Attribute, Block, BlockLabel, Body};

fn num(n: u64) -> Expression {
    Expression::Number(Number::PosInt(n))
}

fn bin(l: Expression, op: BinaryOperator, r: Expression) -> Expression {
    Expression::Operation(Box::new(Operation::Binary(BinaryOp::new(l, op, r))))
}

fn binop(l: Expression, op: BinaryOperator, r: Expression) -> BinaryOp {
    BinaryOp::new(l, op, r)
}

#[test]
fn normalize_binary_op() {
    let op = binop(bin(num(1), Plus, num(2)), Div, bin(num(3), Mul, num(4)));
    let expected = binop(num(1), Plus, bin(num(2), Div, bin(num(3), Mul, num(4))));
    assert_eq!(op.normalize(), expected);

    let op = binop(bin(num(1), Plus, num(2)), Plus, bin(num(3), Plus, num(4)));
    let expected = binop(bin(num(1), Plus, num(2)), Plus, bin(num(3), Plus, num(4)));
    assert_eq!(op.normalize(), expected);

    let op = binop(
        bin(num(1), Div, num(2)),
        Mul,
        bin(num(3), Plus, bin(num(4), Mod, num(5))),
    );
    let expected = binop(
        bin(bin(num(1), Div, num(2)), Mul, num(3)),
        Plus,
        bin(num(4), Mod, num(5)),
    );
    assert_eq!(op.normalize(), expected);

    let sub = |e: Expression| Expression::Parenthesis(Box::new(e));
    let op = binop(
        sub(bin(num(1), Div, num(2))),
        Mul,
        sub(bin(num(3), Mod, sub(bin(num(4), Plus, num(5))))),
    );
    let expected = binop(
        sub(bin(num(1), Div, num(2))),
        Mul,
        sub(bin(num(3), Mod, sub(bin(num(4), Plus, num(5))))),
    );
    assert_eq!(op.normalize(), expected);

    let op = binop(bin(bin(num(1), Plus, num(2)), Mul, num(3)), Div, num(4));
    let expected = binop(num(1), Plus, bin(bin(num(2), Mul, num(3)), Div, num(4)));
    assert_eq!(op.normalize(), expected);

    let op = binop(num(1), Div, bin(bin(num(2), Plus, num(3)), Mul, num(4)));
    let expected = binop(bin(num(1), Div, num(2)), Plus, bin(num(3), Mul, num(4)));
    assert_eq!(op.normalize(), expected);
}

#[test]
fn value_accessors() {
    let mut v = Value::Array(vec![Value::Bool(true)]);
    assert!(v.is_array());
    assert_eq!(v.as_array().map(|a| a.len()), Some(1));
    v.as_array_mut().unwrap().push(Value::Null);
    assert_eq!(v.as_array().map(|a| a.len()), Some(2));
    assert_eq!(Value::Number(Number::NegInt(-3)).as_i64(), Some(-3));
    assert_eq!(Value::Number(Number::NegInt(-3)).as_u64(), None);
    assert_eq!(Value::Number(Number::PosInt(3)).as_u64(), Some(3));
    assert!(Value::Number(Number::Float("1.5".to_string())).is_f64());
    assert_eq!(Value::String("a".to_string()).as_str(), Some("a"));
    assert_eq!(Value::Bool(false).as_bool(), Some(false));
    assert!(Value::Null.is_null());
    let mut t = Value::Bool(true);
    assert_eq!(t.take(), Value::Bool(true));
    assert!(t.is_null());
}

#[test]
fn templates_parse_and_write() {
    let t = Template::from_text("foo $${baz} ${bar}, %{if cond ~} qux %{~ endif}").unwrap();
    assert_eq!(t.to_text(), "foo $${baz} ${bar}, %{ if cond ~} qux %{~ endif }");
    assert_eq!(t.elements.len(), 4);
    match &t.elements[3] {
        Element::Directive(_) => {}
        _ => panic!("expected a directive"),
    }

    let t = Template::from_text("Bill:\n%{ for item in items ~}\n- ${item}\n%{ endfor ~}\n").unwrap();
    assert_eq!(t.to_text(), "Bill:\n%{ for item in items ~}\n- ${item}\n%{ endfor ~}\n");

    let t = Template::from_text("%{ for k, v in m }${k}=${v}%{ endfor }").unwrap();
    assert_eq!(t.to_text(), "%{ for k, v in m }${k}=${v}%{ endfor }");

    assert!(Template::from_text("${").is_err());
    assert!(Template::from_text("%{ if a }x").is_err());
    assert!(Template::from_text("%{ endif }").is_err());
    assert_eq!(StripMode::from_bools(true, false), StripMode::Start);
}

#[test]
fn body_into_value() {
    let id = |x: &str| Identifier::unchecked(x.to_string());
    let st = |x: &str| Expression::String(x.to_string());
    let label = |x: &str| BlockLabel::String(x.to_string());
    let body = Body::builder()
        .add_attribute(Attribute::new(id("foo"), st("bar")))
        .add_attribute(Attribute::new(id("bar"), st("baz")))
        .add_block(
            Block::builder(id("bar"))
                .add_label(label("baz"))
                .add_attribute(Attribute::new(id("foo"), st("bar")))
                .build(),
        )
        .add_block(
            Block::builder(id("bar"))
                .add_label(label("qux"))
                .add_attribute(Attribute::new(id("foo"), Expression::Number(Number::PosInt(1))))
                .build(),
        )
        .add_block(
            Block::builder(id("bar"))
                .add_label(label("baz"))
                .add_attribute(Attribute::new(id("bar"), st("baz")))
                .add_attribute(Attribute::new(
                    id("baz"),
                    Expression::Raw(RawExpression::new("var.foo".to_string())),
                ))
                .build(),
        )
        .add_attribute(Attribute::new(id("foo"), st("baz")))
        .add_attribute(Attribute::new(
            id("heredoc"),
            Expression::TemplateExpr(Box::new(TemplateExpr::Heredoc(
                Heredoc::new(id("EOS"), "  foo \\\n  bar ${baz}\\\\backslash".to_string())
                    .with_strip_mode(HeredocStripMode::Indent),
            ))),
        ))
        .build();
    let v = body_to_value(&body.0);
    let s = |x: &str| Value::String(x.to_string());
    let o = |es: Vec<(&str, Value)>| {
        Value::Object(es.into_iter().map(|(k, v)| (k.to_string(), v)).collect())
    };
    let expected = o(vec![
        ("foo", s("baz")),
        (
            "bar",
            o(vec![
                (
                    "baz",
                    Value::Array(vec![
                        o(vec![("foo", s("bar"))]),
                        o(vec![("bar", s("baz")), ("baz", s("${var.foo}"))]),
                    ]),
                ),
                ("qux", o(vec![("foo", Value::Number(Number::PosInt(1)))])),
            ]),
        ),
        ("heredoc", s("foo bar ${baz}\\backslash")),
    ]);
    assert_eq!(v, expected);
}

#[test]
fn body_text_into_value() {
    let v = hcl::from_str(
        "foo = \"bar\"\nbar = \"baz\"\nbar \"baz\" { foo = \"bar\" }\nbar \"qux\" { foo = 1 }\nbar \"baz\" {\n  bar = \"baz\"\n  baz = var.foo\n}\nfoo = \"baz\"\n",
    )
    .unwrap();
    assert_eq!(v.as_object().map(|o| o.len()), Some(2));
    assert_eq!(Value::default(), Value::Null);
}
