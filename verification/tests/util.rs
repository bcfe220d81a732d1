use hcl::util::{dedent, indent_by, is_ident, is_templated, try_unescape, unescape};

#[test]
fn test_is_templated() {
    assert!(is_templated("${a}"));
    assert!(is_templated("${\"a\"}"));
    assert!(is_templated("%{ if foo }foo%{ else }bar%{ endif }"));
    assert!(is_templated("$${ introduces an ${\"interpolation\"}"));
    assert!(!is_templated(
        "escaped directive %%{ if foo }foo%%{ else }bar%%{ endif }"
    ));
    assert!(!is_templated("escaped interpolation $${a}"));
}

#[test]
fn unescape_known_sequences() {
    assert_eq!(unescape("a\\nb\\t\\\"c\\\\").unwrap(), "a\nb\t\"c\\");
    assert_eq!(unescape("\\u2665").unwrap(), "\u{2665}");
    assert_eq!(unescape("plain").unwrap(), "plain");
}

#[test]
fn unescape_errors() {
    assert!(unescape("\\q").is_err());
    assert!(unescape("trailing\\").is_err());
    assert!(unescape("\\uD800").is_err());
    assert_eq!(try_unescape("\\q"), "\\q");
}

#[test]
fn identifiers() {
    assert!(is_ident("foo"));
    assert!(is_ident("_foo-bar1"));
    assert!(!is_ident("1foo"));
    assert!(!is_ident(""));
    assert!(!is_ident("foo bar"));
}

#[test]
fn dedent_and_indent() {
    assert_eq!(dedent("  foo\n    bar\n", false), "foo\n  bar\n");
    assert_eq!(dedent("foo\n  bar", false), "foo\n  bar");
    assert_eq!(indent_by("foo\nbar\n", 2, false), "  foo\n  bar\n");
    assert_eq!(indent_by("foo\nbar", 2, true), "foo\n  bar");
}
