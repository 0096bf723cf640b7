use intersection::ast::expr_eq;
use intersection::ast::print;
use intersection::ast::Expr;
use intersection::parser::parse_drql;

fn chars(s: &str) -> Vec<char> {
    s.chars().collect()
}

fn parse(s: &str) -> Expr {
    parse_drql(&chars(s)).expect("expected the chunk to parse")
}

fn lit(s: &str) -> Expr {
    Expr::Literal(chars(s))
}

#[test]
fn parse_role_mention() {
    assert!(expr_eq(&parse("<@&100>"), &Expr::RoleId(100)));
}

#[test]
fn parse_user_mention() {
    assert!(expr_eq(&parse("<@123>"), &Expr::UserId(123)));
}

#[test]
fn parse_user_mention_with_bang() {
    assert!(expr_eq(&parse("<@!123>"), &Expr::UserId(123)));
}

#[test]
fn parse_bare_integer() {
    assert!(expr_eq(&parse("42"), &Expr::UnknownId(42)));
}

#[test]
fn parse_largest_id() {
    assert!(expr_eq(
        &parse("18446744073709551615"),
        &Expr::UnknownId(18446744073709551615),
    ));
}

#[test]
fn parse_name_literal() {
    assert!(expr_eq(&parse("staff"), &lit("staff")));
}

#[test]
fn parse_tag_literal() {
    assert!(expr_eq(&parse("Alice#0001"), &lit("Alice#0001")));
}

#[test]
fn parse_quoted_name() {
    assert!(expr_eq(&parse("\"QA lead\""), &lit("QA lead")));
}

#[test]
fn parse_reserved_names_stay_literals() {
    assert!(expr_eq(&parse("everyone"), &lit("everyone")));
    assert!(expr_eq(&parse("here"), &lit("here")));
}

#[test]
fn parse_precedence_union_lowest() {
    let expected = Expr::Union(
        Box::new(lit("a")),
        Box::new(Expr::Intersection(
            Box::new(lit("b")),
            Box::new(Expr::Difference(Box::new(lit("c")), Box::new(lit("d")))),
        )),
    );
    assert!(expr_eq(&parse("a | b & c - d"), &expected));
}

#[test]
fn parse_left_associative_difference() {
    let expected = Expr::Difference(
        Box::new(Expr::Difference(Box::new(lit("a")), Box::new(lit("b")))),
        Box::new(lit("c")),
    );
    assert!(expr_eq(&parse("a - b - c"), &expected));
}

#[test]
fn parse_parentheses_override_precedence() {
    let expected = Expr::Intersection(
        Box::new(Expr::Union(Box::new(lit("a")), Box::new(lit("b")))),
        Box::new(lit("c")),
    );
    assert!(expr_eq(&parse("(a | b) & c"), &expected));
}

#[test]
fn parse_surrounding_whitespace() {
    assert!(expr_eq(&parse("   <@&5>   "), &Expr::RoleId(5)));
}

#[test]
fn parse_error_empty_chunk() {
    assert!(parse_drql(&chars("")).is_err());
}

#[test]
fn parse_error_whitespace_only() {
    assert!(parse_drql(&chars("   ")).is_err());
}

#[test]
fn parse_error_trailing_garbage() {
    assert!(parse_drql(&chars("a b")).is_err());
}

#[test]
fn parse_error_unclosed_paren() {
    assert!(parse_drql(&chars("(a")).is_err());
}

#[test]
fn parse_error_dangling_operator() {
    assert!(parse_drql(&chars("a |")).is_err());
}

#[test]
fn parse_error_unterminated_quote() {
    assert!(parse_drql(&chars("\"abc")).is_err());
}

#[test]
fn parse_error_integer_too_large() {
    assert!(parse_drql(&chars("18446744073709551616")).is_err());
}

#[test]
fn parse_error_malformed_mention() {
    assert!(parse_drql(&chars("<@&>")).is_err());
}

#[test]
fn print_parse_roundtrip_compound() {
    let e = Expr::Union(
        Box::new(Expr::Intersection(
            Box::new(Expr::RoleId(1)),
            Box::new(Expr::UserId(2)),
        )),
        Box::new(Expr::Difference(
            Box::new(lit("staff")),
            Box::new(Expr::UnknownId(3)),
        )),
    );
    let printed = print(&e);
    let back = parse_drql(&printed).expect("printed form must parse");
    assert!(expr_eq(&back, &e));
}

#[test]
fn print_parse_roundtrip_quoted_literal() {
    let e = Expr::Difference(Box::new(lit("name with space")), Box::new(lit("123")));
    let printed = print(&e);
    let s: String = printed.iter().collect();
    assert_eq!(s, "(\"name with space\" - \"123\")");
    let back = parse_drql(&printed).expect("printed form must parse");
    assert!(expr_eq(&back, &e));
}

#[test]
fn print_parse_roundtrip_largest_id() {
    let e = Expr::RoleId(18446744073709551615);
    let printed = print(&e);
    let s: String = printed.iter().collect();
    assert_eq!(s, "<@&18446744073709551615>");
    let back = parse_drql(&printed).expect("printed form must parse");
    assert!(expr_eq(&back, &e));
}

#[test]
fn parse_error_position_within_chunk() {
    let err = parse_drql(&chars("  (a  ")).unwrap_err();
    assert_eq!(err.position, 2);
    let detail: String = err.detail.into_iter().collect();
    assert_eq!(detail, "expected an expression");
}

#[test]
fn parse_error_trailing_detail() {
    let err = parse_drql(&chars("a b")).unwrap_err();
    assert_eq!(err.position, 2);
    let detail: String = err.detail.into_iter().collect();
    assert_eq!(detail, "unexpected trailing text");
}
