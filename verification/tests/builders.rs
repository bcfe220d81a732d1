use hcl::expr::{
    BinaryOperator, Conditional, Expression, ObjectKey, FuncCall, Heredoc, HeredocStripMode, TemplateExpr, Traversal,
    TraversalOperator, UnaryOperator,
};
use hcl::ident::Identifier;
use hcl::number::Number;
use hcl::structure::{Attribute, Block, BlockLabel, Body, Structure};
use hcl::template::{Element, Template};

fn id(s: &str) -> Identifier {
    Identifier::unchecked(s.to_string())
}

fn num(n: u64) -> Expression {
    Expression::Number(Number::PosInt(n))
}

fn attr(k: &str, n: u64) -> Attribute {
    Attribute::new(id(k), num(n))
}

fn mixed_body() -> Body {
    Body::builder()
        .add_attributes(vec![attr("a", 1)])
        .add_blocks(vec![Block::new(id("b"), vec![], Body::new())])
        .add_structures(vec![Structure::Attribute(attr("c", 3))])
        .build()
}

#[test]
fn body_builder_adds_in_order() {
    let body = mixed_body();
    assert_eq!(body.len(), 3);
    assert!(body.0[0].is_attribute());
    assert!(body.0[1].is_block());
    assert!(body.0[2].is_attribute());
}

#[test]
fn body_into_attributes_and_blocks() {
    assert_eq!(mixed_body().into_attributes(), vec![attr("a", 1), attr("c", 3)]);
    assert_eq!(
        mixed_body().into_blocks(),
        vec![Block::new(id("b"), vec![], Body::new())]
    );
    assert!(Body::new().into_attributes().is_empty());
    let body = mixed_body();
    let attrs = body.attributes();
    assert_eq!(attrs.len(), 2);
    assert_eq!(attrs[1].key(), "c");
    assert_eq!(body.blocks().len(), 1);
    assert_eq!(body.blocks()[0].identifier(), "b");
}

#[test]
fn block_builder_batches() {
    let block = Block::builder(id("resource"))
        .add_labels(vec![
            BlockLabel::String("aws_s3_bucket".to_string()),
            BlockLabel::Identifier(id("bucket")),
        ])
        .add_attributes(vec![attr("x", 1), attr("y", 2)])
        .add_blocks(vec![Block::new(id("inner"), vec![], Body::new())])
        .add_structures(vec![Structure::Attribute(attr("z", 3))])
        .build();
    assert_eq!(block.labels().len(), 2);
    assert_eq!(block.body().len(), 4);
    assert_eq!(block.identifier(), "resource");
}

#[test]
fn structure_mut_accessors() {
    let mut s = Structure::Attribute(attr("a", 1));
    if let Some(a) = s.as_attribute_mut() {
        a.expr = num(2);
    }
    assert_eq!(s, Structure::Attribute(attr("a", 2)));
    assert!(s.as_block_mut().is_none());

    let mut b = Structure::Block(Block::new(id("b"), vec![], Body::new()));
    if let Some(block) = b.as_block_mut() {
        block.labels.push(BlockLabel::String("l".to_string()));
    }
    assert_eq!(b.as_block().map(|x| x.labels().len()), Some(1));
    assert!(b.as_attribute_mut().is_none());
}

#[test]
fn traversal_chain_and_variadic() {
    let t = Traversal::new(Expression::Variable(id("var")), vec![TraversalOperator::GetAttr(id("a"))])
        .chain(TraversalOperator::LegacyIndex(1));
    assert_eq!(
        t.operators,
        vec![TraversalOperator::GetAttr(id("a")), TraversalOperator::LegacyIndex(1)]
    );
    let f = FuncCall::builder(id("f")).arg(num(1)).variadic(true).build();
    assert!(f.expand_final);
    assert_eq!(f.args.len(), 1);
}

#[test]
fn template_from_expr() {
    let t = Template::from_expr(&TemplateExpr::QuotedString("a ${b}".to_string())).unwrap();
    assert_eq!(t.elements().len(), 2);
    let h = Heredoc::new(id("EOT"), "  x ${y}\n  z\n".to_string())
        .with_strip_mode(HeredocStripMode::Indent);
    let t = Template::from_expr(&TemplateExpr::Heredoc(h)).unwrap();
    assert_eq!(t.to_text(), "x ${y}\nz\n");
    assert!(Template::from_expr(&TemplateExpr::QuotedString("${".to_string())).is_err());

    let mut t = Template::new().add_literal("a".to_string());
    t.elements_mut().push(Element::Literal("b".to_string()));
    assert_eq!(t.elements().len(), 2);
}

#[test]
fn operator_texts_parse_back() {
    for op in [
        BinaryOperator::Eq,
        BinaryOperator::NotEq,
        BinaryOperator::LessEq,
        BinaryOperator::GreaterEq,
        BinaryOperator::Less,
        BinaryOperator::Greater,
        BinaryOperator::Plus,
        BinaryOperator::Minus,
        BinaryOperator::Mul,
        BinaryOperator::Div,
        BinaryOperator::Mod,
        BinaryOperator::And,
        BinaryOperator::Or,
    ] {
        assert_eq!(BinaryOperator::from_str(op.as_str()), Ok(op));
    }
    for op in [UnaryOperator::Neg, UnaryOperator::Not] {
        assert_eq!(UnaryOperator::from_str(op.as_str()), Ok(op));
    }
    assert!(BinaryOperator::from_str("=").is_err());
}

#[test]
fn format_parse_roundtrip_nested() {
    let inner = Block::builder(id("inner"))
        .add_label(BlockLabel::String("x y".to_string()))
        .add_attribute(Attribute::new(id("enabled"), Expression::Bool(true)))
        .add_attribute(Attribute::new(id("name"), Expression::String("a \"q\" ${b}".to_string())))
        .build();
    let body = Body::builder()
        .add_attribute(Attribute::new(id("count"), num(42)))
        .add_attribute(Attribute::new(id("nothing"), Expression::Null))
        .add_attribute(Attribute::new(id("below"), Expression::Number(Number::NegInt(-5))))
        .add_attribute(Attribute::new(
            id("list"),
            Expression::Array(vec![num(1), Expression::String("two".to_string()), Expression::Variable(id("three"))]),
        ))
        .add_attribute(Attribute::new(id("none"), Expression::Array(vec![])))
        .add_attribute(Attribute::new(id("paren"), Expression::Parenthesis(Box::new(num(1)))))
        .add_attribute(Attribute::new(
            id("tags"),
            Expression::Object(vec![
                (ObjectKey::Identifier(id("application")), Expression::String("myapp".to_string())),
                (
                    ObjectKey::Expression(Expression::String("team".to_string())),
                    Expression::TemplateExpr(Box::new(TemplateExpr::QuotedString("${var.team}".to_string()))),
                ),
            ]),
        ))
        .add_attribute(Attribute::new(id("no_tags"), Expression::Object(vec![])))
        .add_attribute(Attribute::new(
            id("lists"),
            Expression::Object(vec![
                (ObjectKey::Identifier(id("ports")), Expression::Array(vec![num(80), num(443)])),
                (
                    ObjectKey::Identifier(id("mixed")),
                    Expression::Array(vec![
                        Expression::Parenthesis(Box::new(num(1))),
                        Expression::Traversal(Box::new(Traversal::new(
                            Expression::Variable(id("format")),
                            vec![TraversalOperator::GetAttr(id("x"))],
                        ))),
                        Expression::FuncCall(Box::new(FuncCall {
                            name: id("f"),
                            args: vec![num(2)],
                            expand_final: false,
                        })),
                        Expression::Conditional(Box::new(Conditional::new(
                            Expression::Variable(id("fort")),
                            num(1),
                            Expression::String("no".to_string()),
                        ))),
                    ]),
                ),
                (ObjectKey::Identifier(id("none")), Expression::Array(vec![])),
                (ObjectKey::Identifier(id("path")), Expression::Traversal(Box::new(Traversal::new(
                    Expression::Variable(id("a")),
                    vec![TraversalOperator::FullSplat],
                )))),
            ]),
        ))
        .add_attribute(Attribute::new(
            id("splats"),
            Expression::Traversal(Box::new(Traversal::new(
                Expression::Variable(id("list")),
                vec![
                    TraversalOperator::FullSplat,
                    TraversalOperator::GetAttr(id("id")),
                    TraversalOperator::AttrSplat,
                    TraversalOperator::LegacyIndex(0),
                    TraversalOperator::Index(Expression::String("k".to_string())),
                    TraversalOperator::Index(num(3)),
                    TraversalOperator::Index(Expression::Variable(id("i"))),
                ],
            ))),
        ))
        .add_attribute(Attribute::new(
            id("call"),
            Expression::FuncCall(Box::new(FuncCall {
                name: id("element"),
                args: vec![Expression::Variable(id("list")), num(0), Expression::String("s".to_string())],
                expand_final: false,
            })),
        ))
        .add_attribute(Attribute::new(
            id("now"),
            Expression::FuncCall(Box::new(FuncCall { name: id("timestamp"), args: vec![], expand_final: false })),
        ))
        .add_attribute(Attribute::new(
            id("pick"),
            Expression::Conditional(Box::new(Conditional::new(
                Expression::Traversal(Box::new(Traversal::new(
                    Expression::Variable(id("var")),
                    vec![TraversalOperator::Index(num(0))],
                ))),
                Expression::Null,
                Expression::Bool(false),
            ))),
        ))
        .add_attribute(Attribute::new(
            id("team"),
            Expression::TemplateExpr(Box::new(TemplateExpr::QuotedString("${var.team}\n".to_string()))),
        ))
        .add_attribute(Attribute::new(
            id("choice"),
            Expression::Conditional(Box::new(Conditional::new(
                Expression::Variable(id("a")),
                num(1),
                Expression::String("x".to_string()),
            ))),
        ))
        .add_attribute(Attribute::new(
            id("path"),
            Expression::Traversal(Box::new(Traversal::new(
                Expression::Variable(id("var")),
                vec![TraversalOperator::GetAttr(id("foo")), TraversalOperator::GetAttr(id("bar"))],
            ))),
        ))
        .add_block(
            Block::builder(id("resource"))
                .add_label(BlockLabel::Identifier(id("aws_s3_bucket")))
                .add_attribute(Attribute::new(id("source"), Expression::Variable(id("other"))))
                .add_block(inner)
                .add_block(Block::new(id("empty"), vec![], Body::new()))
                .build(),
        )
        .build();
    let text = hcl::format::to_string(&body);
    assert_eq!(hcl::parse(&text), Ok(body));
}

#[test]
fn strip_mode_text_and_raw_text() {
    assert_eq!(HeredocStripMode::from_str("<<"), Ok(HeredocStripMode::NoStrip));
    assert_eq!(HeredocStripMode::from_str("indent"), Ok(HeredocStripMode::Indent));
    for m in [HeredocStripMode::NoStrip, HeredocStripMode::Indent] {
        assert_eq!(HeredocStripMode::from_str(m.as_str()), Ok(m));
    }
    assert_eq!(
        HeredocStripMode::from_str("x"),
        Err(hcl::error::Error::Message("invalid heredoc strip mode: `x`".to_string()))
    );
    assert_eq!(hcl::expr::RawExpression::new("var.foo".to_string()).to_text(), "${var.foo}");
    assert_eq!(BlockLabel::from("l".to_string()), BlockLabel::String("l".to_string()));
}

#[test]
fn identifiers_and_whitespace() {
    for s in ["hyphen-ated", "_an-id3nt1fieR"] {
        assert!(hcl::util::is_ident(s));
    }
    for s in ["", "\"", "1abc", "-a", "a b"] {
        assert!(!hcl::util::is_ident(s));
    }
    assert_eq!(hcl::util::min_leading_whitespace("\u{2003}a\n  b\n\n    c", false), 1);
    assert_eq!(hcl::util::min_leading_whitespace("x\n  y", false), 0);
    assert_eq!(hcl::util::min_leading_whitespace("x\n  y", true), 2);
    assert_eq!(hcl::util::min_leading_whitespace("\n", false), usize::MAX);
    let h = Heredoc::new(id("EOS"), "    foo\n      bar\n    baz\n".to_string())
        .with_strip_mode(HeredocStripMode::Indent);
    assert_eq!(h.to_cow_str(), "foo\n  bar\nbaz\n");
}

#[test]
fn dedent_undoes_indent() {
    for (s, n, skip) in [("a", 0, true), ("a\n b\n\nc\n", 3, false), ("x\ny", 2, true), ("", 4, false)] {
        let t = hcl::util::indent_by(s, n, skip);
        assert_eq!(hcl::util::dedent_by(&t, n, skip), s);
    }
    assert_eq!(hcl::util::dedent_by("  a\n  b", 2, true), "  a\nb");
}

#[test]
fn dedent_twice_is_dedent_once() {
    for (s, skip) in [
        ("    foo\n      bar\n    baz\n", false),
        ("x\n   y\n     z", true),
        ("\t a\n\t  b", false),
        ("", false),
    ] {
        let d = hcl::util::dedent(s, skip);
        assert_eq!(hcl::util::dedent(&d, skip), d);
    }
    assert_eq!(hcl::util::dedent("    foo\n      bar\n", false), "foo\n  bar\n");
    // A line made only of whitespace can leave indentation for a second pass.
    let d = hcl::util::dedent("  \n    x", false);
    assert_eq!(d, "\n  x");
    assert_eq!(hcl::util::dedent(&d, false), "\nx");
}

#[test]
fn negating_numbers() {
    assert_eq!(Number::NegInt(-3).neg(), Number::PosInt(3));
    assert_eq!(Number::PosInt(3).neg(), Number::NegInt(-3));
    assert_eq!(Number::NegInt(3).neg(), Number::NegInt(-3));
    assert_eq!(Number::NegInt(3).as_u64(), None);
    assert!(Number::PosInt(3).is_u64());
}
