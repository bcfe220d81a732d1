use hcl::parse_raw;

#[test]
fn roundtrip_body() {
    let inputs = [
        "// comment\nblock {\n  foo = \"bar\"\n}\n\noneline { bar=\"baz\"} # comment\n\narray = [\n  1, 2,\n  3\n]\n",
        "block { attr = 1 }\n",
        "foo = \"bar\"\nbar = 2\n",
    ];
    for input in inputs {
        let parsed = parse_raw(input).unwrap();
        assert_eq!(parsed.to_text(), input);
    }
}

#[test]
fn raw_body_keeps_decor_and_spans() {
    let input = "  # lead\nfoo = 1 // tail\n\n/* c */ bar = \"x\"\n\n";
    let b = parse_raw(input).unwrap();
    assert_eq!(b.structures.len(), 2);
    assert_eq!(b.structures[0].prefix, "  # lead\n");
    assert_eq!(b.structures[0].text, "foo = 1");
    assert_eq!(b.structures[0].span, (9, 16));
    assert_eq!(b.structures[0].suffix, " // tail\n");
    assert_eq!(b.structures[1].prefix, "\n/* c */ ");
    assert_eq!(b.structures[1].text, "bar = \"x\"");
    assert_eq!(b.structures[1].suffix, "\n");
    assert_eq!(b.suffix, "\n");
    assert_eq!(b.to_text(), input);
    assert_eq!(Ok(b.into_body()), hcl::parse(input));
}

#[test]
fn raw_body_errors() {
    assert_eq!(parse_raw("}"), Err(hcl::error::Error::Parse));
    assert_eq!(parse_raw("a = "), Err(hcl::error::Error::Parse));
    assert_eq!(parse_raw("a = 1 b = 2"), Err(hcl::error::Error::Parse));
    let empty = parse_raw("").unwrap();
    assert!(empty.structures.is_empty());
    assert_eq!(empty.to_text(), "");
}

#[test]
fn raw_exprs_print_back() {
    let exprs = [
        "_an-id3nt1fieR",
        "\"a string\"",
        "\"\\\\\"",
        "42",
        "var.enabled ? 1 : 0",
        "[\"bar\", [\"baz\"]]",
        "[format(\"prefix-%s\", var.foo)]",
        "{\"bar\" = \"baz\",\"qux\" = ident }",
        "{\"bar\" : \"baz\", \"qux\"= ident # a comment\n }",
        "{ #comment\n }",
        "{  }",
        "{ /*comment*/ }",
        "{ foo = 1, }",
        "{ foo = 1, bar = 1 }",
        "{ foo = 1 /*comment*/ }",
        "{ foo = 1 #comment\n }",
        "{ foo = 1, #comment\n bar = 1 }",
        "<<HEREDOC\nHEREDOC",
        "<<HEREDOC\n${foo}\n%{if asdf}qux%{endif}\nheredoc\nHEREDOC",
        "\"foo ${bar} $${baz}, %{if cond ~} qux %{~ endif}\"",
        "element(concat(aws_kms_key.key-one.*.arn, aws_kms_key.key-two.*.arn), 0)",
    ];
    for e in exprs {
        let input = format!("attr = {}\n", e);
        let parsed = parse_raw(&input).unwrap();
        assert_eq!(parsed.structures.len(), 1);
        assert_eq!(parsed.to_text(), input);
    }
}
