use rwhois::query::{Expr, Query, Term, Value, ValueKind};
use rwhois::{Error, ResponseCode};

fn val_exact(s: &str) -> Value {
    Value { text: s.into(), kind: ValueKind::Exact }
}

#[test]
fn parses_bare_exact_value() {
    let q = Query::parse("ibm").unwrap();
    assert_eq!(q.expr, Expr::Term(Term::Value(val_exact("ibm"))));
    assert!(q.class.is_none());
}

#[test]
fn parses_prefix_suffix_substring_wildcards() {
    let q = Query::parse("foo*").unwrap();
    assert_eq!(
        q.expr,
        Expr::Term(Term::Value(Value { text: "foo".into(), kind: ValueKind::Prefix }))
    );
    let q = Query::parse("*foo").unwrap();
    assert_eq!(
        q.expr,
        Expr::Term(Term::Value(Value { text: "foo".into(), kind: ValueKind::Suffix }))
    );
    let q = Query::parse("*foo*").unwrap();
    assert_eq!(
        q.expr,
        Expr::Term(Term::Value(Value { text: "foo".into(), kind: ValueKind::Substring }))
    );
}

#[test]
fn parses_quoted_value_with_spaces() {
    let q = Query::parse(r#""hello world""#).unwrap();
    assert_eq!(
        q.expr,
        Expr::Term(Term::Value(Value { text: "hello world".into(), kind: ValueKind::Quoted }))
    );
}

#[test]
fn quoted_stars_are_literal() {
    let q = Query::parse(r#""*foo*""#).unwrap();
    assert_eq!(
        q.expr,
        Expr::Term(Term::Value(Value { text: "*foo*".into(), kind: ValueKind::Quoted }))
    );
}

#[test]
fn parses_attribute_eq_and_ne() {
    let q = Query::parse("Domain-Name=konabo.com").unwrap();
    assert_eq!(
        q.expr,
        Expr::Term(Term::AttrEq { attr: "Domain-Name".into(), value: val_exact("konabo.com") })
    );
    let q = Query::parse("Org-Name!=ACME").unwrap();
    assert_eq!(
        q.expr,
        Expr::Term(Term::AttrNe { attr: "Org-Name".into(), value: val_exact("ACME") })
    );
}

#[test]
fn attribute_eq_with_quoted_value() {
    let q = Query::parse(r#"Last-Name="Beeblebrox""#).unwrap();
    assert_eq!(
        q.expr,
        Expr::Term(Term::AttrEq {
            attr: "Last-Name".into(),
            value: Value { text: "Beeblebrox".into(), kind: ValueKind::Quoted },
        })
    );
}

#[test]
fn boolean_and_or_left_associative() {
    let q = Query::parse("ibm and jubliana*").unwrap();
    assert_eq!(
        q.expr,
        Expr::And(
            Box::new(Expr::Term(Term::Value(val_exact("ibm")))),
            Box::new(Expr::Term(Term::Value(Value {
                text: "jubliana".into(),
                kind: ValueKind::Prefix,
            }))),
        )
    );
    let q = Query::parse("a or b and c").unwrap();
    assert_eq!(
        q.expr,
        Expr::And(
            Box::new(Expr::Or(
                Box::new(Expr::Term(Term::Value(val_exact("a")))),
                Box::new(Expr::Term(Term::Value(val_exact("b")))),
            )),
            Box::new(Expr::Term(Term::Value(val_exact("c")))),
        )
    );
}

#[test]
fn boolean_keywords_are_case_insensitive() {
    let q = Query::parse("a AND b OR c").unwrap();
    match q.expr {
        Expr::Or(l, _) => assert!(matches!(*l, Expr::And(_, _))),
        _ => panic!("expected or-and tree"),
    }
}

#[test]
fn implicit_and_for_juxtaposed_tokens() {
    let q = Query::parse("domain rwhois.net").unwrap();
    match q.expr {
        Expr::And(l, r) => {
            assert!(matches!(*l, Expr::Term(Term::Value(_))));
            assert!(matches!(*r, Expr::Term(Term::Value(_))));
        }
        other => panic!("unexpected {other:?}"),
    }
}

#[test]
fn class_lift_lifts_when_predicate_matches() {
    let q = Query::parse("domain example.com").unwrap().with_class_if(|t| t == "domain");
    assert_eq!(q.class.as_deref(), Some("domain"));
    assert_eq!(q.expr, Expr::Term(Term::Value(val_exact("example.com"))));
}

#[test]
fn class_lift_does_not_lift_single_term_query() {
    let q = Query::parse("domain").unwrap().with_class_if(|t| t == "domain");
    assert!(q.class.is_none());
}

#[test]
fn class_lift_does_not_lift_when_predicate_rejects() {
    let q = Query::parse("foo bar").unwrap().with_class_if(|t| t == "domain");
    assert!(q.class.is_none());
}

#[test]
fn rejects_empty_input() {
    assert!(Query::parse("").is_err());
    assert!(Query::parse("    ").is_err());
}

#[test]
fn rejects_unterminated_quote() {
    assert!(Query::parse(r#""abc"#).is_err());
}

#[test]
fn rejects_lone_star() {
    assert!(Query::parse("*").is_err());
    assert!(Query::parse("**").is_err());
}

#[test]
fn rejects_attr_with_missing_value() {
    assert!(Query::parse("foo=").is_err());
    assert!(Query::parse("foo!=").is_err());
}

fn syntax_detail(r: Result<Query, Error>) -> String {
    match r {
        Err(Error::Protocol { code, message }) => {
            assert_eq!(code, ResponseCode::invalid_query_syntax());
            message
        }
        other => panic!("expected a 350 error, got {other:?}"),
    }
}

#[test]
fn each_syntax_error_has_its_detail() {
    assert_eq!(syntax_detail(Query::parse(" \t ")), "empty query");
    assert_eq!(syntax_detail(Query::parse("\"abc")), "unterminated quoted string");
    assert_eq!(syntax_detail(Query::parse("\"\"")), "empty quoted string");
    assert_eq!(syntax_detail(Query::parse("foo=")), "missing value after operator");
    assert_eq!(syntax_detail(Query::parse("*")), "empty query string");
    assert_eq!(syntax_detail(Query::parse("a and")), "unexpected end of query");
}

#[test]
fn parse_keeps_raw_text_and_no_class() {
    let q = Query::parse("  ibm  ").unwrap();
    assert_eq!(q.raw, "  ibm  ");
    assert_eq!(q.to_string(), "  ibm  ");
    assert!(q.class.is_none());
    assert_eq!(q.expr, Expr::Term(Term::Value(val_exact("ibm"))));
}

#[test]
fn keyword_needs_a_following_blank() {
    // `andy` is a term, not the keyword `and` followed by `y`.
    let q = Query::parse("a andy").unwrap();
    assert_eq!(
        q.expr,
        Expr::And(
            Box::new(Expr::Term(Term::Value(val_exact("a")))),
            Box::new(Expr::Term(Term::Value(val_exact("andy")))),
        )
    );
}

#[test]
fn class_lift_takes_leftmost_term_of_deep_tree() {
    let q = Query::parse("domain a or b").unwrap().with_class_if(|t| t == "domain");
    assert_eq!(q.class.as_deref(), Some("domain"));
    assert_eq!(
        q.expr,
        Expr::Or(
            Box::new(Expr::Term(Term::Value(val_exact("a")))),
            Box::new(Expr::Term(Term::Value(val_exact("b")))),
        )
    );
}

#[test]
fn class_lift_ignores_wildcard_leading_term() {
    let q = Query::parse("dom* example.com").unwrap().with_class_if(|_| true);
    assert!(q.class.is_none());
}

#[test]
fn non_ascii_keyword_hazard_is_detected() {
    // Two multi-byte characters: the 3-byte keyword window cuts the
    // second one apart.
    assert!(Query::splits_char("a éé"));
    assert!(!Query::splits_char("ibm and jubliana*"));
    assert!(!Query::splits_char("é"));
}
