use expr_front::ast::Expression;
use expr_front::error::{EvalError, ParseError};
use expr_front::eval::{is_predefined, resolve};
use expr_front::parser::{expr, ident, identifier, number, parens, term};

fn num(text: &str) -> Expression<'_> {
    Expression::NumLiteral(text)
}

fn add<'a>(lhs: Expression<'a>, rhs: Expression<'a>) -> Expression<'a> {
    Expression::Add(Box::new(lhs), Box::new(rhs))
}

fn miss(at: &str) -> ParseError<'_> {
    ParseError { at, committed: false }
}

fn value(e: &Expression) -> f64 {
    match e {
        Expression::Ident(_) => std::f64::consts::PI,
        Expression::NumLiteral(text) => text.parse().unwrap(),
        Expression::Add(lhs, rhs) => value(lhs) + value(rhs),
    }
}

fn evaluate(text: &str) -> f64 {
    let (_, e) = expr(text).unwrap();
    assert_eq!(resolve(&e), Ok(()));
    value(&e)
}

#[test]
fn test_term_ident() {
    let (_, res) = term("test").unwrap();
    assert_eq!(res, Expression::Ident("test"));
}

#[test]
fn test_term_number() {
    let (_, res) = term("61").unwrap();
    assert_eq!(res, Expression::NumLiteral("61"));
    assert_eq!(value(&res), 61.0);
}

#[test]
fn lone_number_evaluates_to_its_value() {
    assert_eq!(expr("123"), Ok(("", num("123"))));
    assert_eq!(evaluate("123"), 123.0);
    assert_eq!(evaluate(" -2.5e1 "), -25.0);
    assert_eq!(evaluate(".5"), 0.5);
}

#[test]
fn sum_with_the_predefined_constant() {
    assert_eq!(
        expr("(123 + 456) + pi"),
        Ok(("", add(add(num("123"), num("456")), Expression::Ident("pi"))))
    );
    assert_eq!(evaluate("(123 + 456) + pi"), 579.0 + std::f64::consts::PI);
    assert_eq!(evaluate("(123 + 456 ) + pi"), 579.0 + std::f64::consts::PI);
}

#[test]
fn sum_with_parenthesized_right_operand() {
    assert_eq!(expr("10 + (100 + 1)"), Ok(("", add(num("10"), add(num("100"), num("1"))))));
    assert_eq!(evaluate("10 + (100 + 1)"), 111.0);
}

#[test]
fn sums_associate_to_the_left() {
    let expected = add(
        add(add(add(num("1"), num("2")), add(num("3"), num("4"))), num("5")),
        num("6"),
    );
    assert_eq!(expr("((1 + 2) + (3 + 4)) + 5 + 6"), Ok(("", expected)));
    assert_eq!(evaluate("((1 + 2) + (3 + 4)) + 5 + 6"), 21.0);
    assert_eq!(expr("a+b+c"), Ok((
        "",
        add(add(Expression::Ident("a"), Expression::Ident("b")), Expression::Ident("c"))
    )));
}

#[test]
fn parsing_twice_gives_the_same_outcome() {
    let input = "((1 + 2) + x) + 5";
    assert_eq!(expr(input), expr(input));
    assert_eq!(expr("1 + 2e"), expr("1 + 2e"));
    let (_, e) = expr(input).unwrap();
    assert_eq!(resolve(&e), resolve(&e));
}

#[test]
fn unknown_identifier_is_reported_not_fatal() {
    assert_eq!(
        resolve(&Expression::Ident("unknown")),
        Err(EvalError::UnboundIdentifier { name: "unknown" })
    );
    let (_, e) = expr("1 + unknown").unwrap();
    assert_eq!(resolve(&e), Err(EvalError::UnboundIdentifier { name: "unknown" }));
}

#[test]
fn resolve_accepts_the_predefined_constant_and_literals() {
    assert_eq!(resolve(&Expression::Ident("pi")), Ok(()));
    assert_eq!(resolve(&num("1.5")), Ok(()));
    assert_eq!(resolve(&add(num("1"), Expression::Ident("pi"))), Ok(()));
}

#[test]
fn resolve_blames_the_leftmost_unbound_identifier() {
    let e = add(add(Expression::Ident("pi"), Expression::Ident("x")), Expression::Ident("y"));
    assert_eq!(resolve(&e), Err(EvalError::UnboundIdentifier { name: "x" }));
    let e = add(Expression::Ident("a"), add(Expression::Ident("b"), num("1")));
    assert_eq!(resolve(&e), Err(EvalError::UnboundIdentifier { name: "a" }));
}

#[test]
fn only_pi_is_predefined() {
    assert!(is_predefined("pi"));
    assert!(!is_predefined("PI"));
    assert!(!is_predefined("p"));
    assert!(!is_predefined("pie"));
    assert!(!is_predefined("ip"));
    assert!(!is_predefined(""));
    assert!(!is_predefined("p\u{e9}"));
}

#[test]
fn number_reads_a_float_literal_between_blanks() {
    assert_eq!(number("  42  "), Ok(("", num("42"))));
    assert_eq!(number("1.5e3 rest"), Ok(("rest", num("1.5e3"))));
    assert_eq!(number("-3."), Ok(("", num("-3."))));
    assert_eq!(number("+.25E-2+1"), Ok(("+1", num("+.25E-2"))));
    assert_eq!(number("\t\r\n7\n\tx"), Ok(("x", num("7"))));
    assert_eq!(number("123K-01"), Ok(("K-01", num("123"))));
    assert_eq!(number("1.e5"), Ok(("", num("1.e5"))));
    assert_eq!(number("1e5e"), Ok(("e", num("1e5"))));
    assert_eq!(number("1.5.2"), Ok((".2", num("1.5"))));
    assert_eq!(number("007+8"), Ok(("+8", num("007"))));
}

#[test]
fn number_rejects_what_is_no_float_literal() {
    assert_eq!(number("abc"), Err(miss("abc")));
    assert_eq!(number("  abc"), Err(miss("abc")));
    assert_eq!(number(""), Err(miss("")));
    assert_eq!(number("--"), Err(miss("-")));
    assert_eq!(number("  +x"), Err(miss("x")));
    assert_eq!(number(".x"), Err(miss("x")));
    assert_eq!(number("+"), Err(miss("")));
    assert_eq!(number("-.e5"), Err(miss("e5")));
    assert_eq!(number("e5"), Err(miss("e5")));
}

#[test]
fn number_commits_once_it_reads_an_exponent_mark() {
    assert_eq!(number("1e"), Err(ParseError { at: "", committed: true }));
    assert_eq!(number(" 2.5E+x"), Err(ParseError { at: "x", committed: true }));
    assert_eq!(number("1E-"), Err(ParseError { at: "", committed: true }));
    assert_eq!(number("-1.e"), Err(ParseError { at: "", committed: true }));
    assert_eq!(number(".5e e"), Err(ParseError { at: " e", committed: true }));
}

#[test]
fn clone_copies_the_tree() {
    let e = add(add(num("1"), Expression::Ident("pi")), num("2.5"));
    assert_eq!(e.clone(), e);
    assert_eq!(e.duplicate(), e);
}

#[test]
fn identifier_reads_letters_digits_and_underscores() {
    assert_eq!(identifier("abc def"), Ok((" def", "abc")));
    assert_eq!(identifier("_"), Ok(("", "_")));
    assert_eq!(identifier("_a1_b2__ +"), Ok((" +", "_a1_b2__")));
    assert_eq!(identifier("x9y8(z)"), Ok(("(z)", "x9y8")));
    assert_eq!(identifier("a\u{e9}"), Ok(("\u{e9}", "a")));
}

#[test]
fn identifier_needs_a_letter_or_underscore_first() {
    assert_eq!(identifier("1abc"), Err(miss("1abc")));
    assert_eq!(identifier(" abc"), Err(miss(" abc")));
    assert_eq!(identifier(""), Err(miss("")));
    assert_eq!(identifier("\u{e9}a"), Err(miss("\u{e9}a")));
}

#[test]
fn ident_skips_blanks_around_the_name() {
    assert_eq!(ident("  foo_1 bar"), Ok(("bar", Expression::Ident("foo_1"))));
    assert_eq!(ident("\n_x\t"), Ok(("", Expression::Ident("_x"))));
    assert_eq!(ident("  9"), Err(miss("9")));
}

#[test]
fn parens_reads_an_expression_between_parentheses() {
    assert_eq!(parens("(1)"), Ok(("", num("1"))));
    assert_eq!(parens(" ( 1 + 2 ) x"), Ok(("x", add(num("1"), num("2")))));
    assert_eq!(parens("((a))"), Ok(("", Expression::Ident("a"))));
}

#[test]
fn parens_fails_without_its_parentheses_or_expression() {
    assert_eq!(parens("1"), Err(miss("1")));
    assert_eq!(parens("  1)"), Err(miss("1)")));
    assert_eq!(parens("(1"), Err(miss("")));
    assert_eq!(parens("(1 + 2 x)"), Err(miss("x)")));
    assert_eq!(parens("()"), Err(miss(")")));
    assert_eq!(parens("(1 + 2e)"), Err(ParseError { at: ")", committed: true }));
}

#[test]
fn term_tries_number_then_identifier_then_parentheses() {
    assert_eq!(term(" 7 x"), Ok(("x", num("7"))));
    assert_eq!(term(" e7 x"), Ok(("x", Expression::Ident("e7"))));
    assert_eq!(term(" (e7) x"), Ok(("x", Expression::Ident("e7"))));
    assert_eq!(term("1 + 2"), Ok(("+ 2", num("1"))));
}

#[test]
fn term_fails_where_no_alternative_matches() {
    assert_eq!(term(""), Err(miss("")));
    assert_eq!(term("+"), Err(miss("+")));
    assert_eq!(term(" ) "), Err(miss(") ")));
    assert_eq!(term("1e"), Err(ParseError { at: "", committed: true }));
}

#[test]
fn expr_leaves_what_is_no_continuation() {
    assert_eq!(expr("1 2"), Ok(("2", num("1"))));
    assert_eq!(expr("1 + 2 )"), Ok((")", add(num("1"), num("2")))));
    assert_eq!(expr("1\t+\n2"), Ok(("", add(num("1"), num("2")))));
}

#[test]
fn expr_fails_on_a_plus_that_no_term_follows() {
    assert_eq!(expr("1 +"), Err(miss("")));
    assert_eq!(expr("1 + "), Err(miss("")));
    assert_eq!(expr("1 + 2 + )"), Err(miss(")")));
    assert_eq!(expr("1 + + 2"), Err(miss("+ 2")));
    assert_eq!(expr("(1 + ) + 2"), Err(miss(") + 2")));
}

#[test]
fn expr_fails_on_a_bad_leading_term() {
    assert_eq!(expr(""), Err(miss("")));
    assert_eq!(expr("+ 1"), Err(miss("+ 1")));
    assert_eq!(expr("( 1 + "), Err(miss("")));
    assert_eq!(expr("( 1 "), Err(miss("")));
    assert_eq!(expr("( 1 x"), Err(miss("x")));
}

#[test]
fn expr_fails_on_a_committed_failure_in_a_continuation() {
    assert_eq!(expr("1 + 2e"), Err(ParseError { at: "", committed: true }));
    assert_eq!(expr("1 + (2 + 3e-)"), Err(ParseError { at: ")", committed: true }));
}

#[test]
fn position_counts_characters_before_the_failure() {
    let source = "( 1 + ";
    let e = expr(source).unwrap_err();
    assert_eq!(e.position(source), 6);
    let source = "( 1 x";
    let e = expr(source).unwrap_err();
    assert_eq!(e.position(source), 4);
    let source = "\u{e9}";
    let e = expr(source).unwrap_err();
    assert_eq!(e.position(source), 0);
    let source = "(a + \u{e9})";
    let e = expr(source).unwrap_err();
    assert_eq!(e, miss("\u{e9})"));
    assert_eq!(e.position(source), 5);
    assert_eq!(miss("longer than the source").position("short"), 0);
}
