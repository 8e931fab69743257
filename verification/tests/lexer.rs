use expr_front::cursor::{advance_char, peek_char};
use expr_front::lexer::{ident, lparen, number, rparen, token, tokenize, whitespace, Token};

#[test]
fn test_whitespace() {
    let input = "  ";
    let res = whitespace(input);
    assert_eq!("", res);
}

#[test]
fn test_number() {
    let input = "123.45";
    let (rest, token) = number(input);
    assert_eq!("", rest);
    assert_eq!(token, Some(Token::Number));
}

#[test]
fn test_ident() {
    let input = "test1";
    let (rest, token) = ident(input);
    assert_eq!("", rest);
    assert_eq!(token, Some(Token::Ident));
}

#[test]
fn test_tokenize() {
    let input = "(test 12 test1  100.00)";
    let tokens = tokenize(input);

    let expected = vec![
        Token::LParen,
        Token::Ident,
        Token::Number,
        Token::Ident,
        Token::Number,
        Token::RParen,
    ];

    assert_eq!(tokens, expected);
}

#[test]
fn tokenize_blank_text_gives_no_tokens() {
    assert_eq!(tokenize("  "), vec![]);
    assert_eq!(tokenize(""), vec![]);
}

#[test]
fn tokenize_stops_silently_at_unrecognized_character() {
    assert_eq!(tokenize("12 ? 3"), vec![Token::Number]);
    assert_eq!(tokenize("?(12)"), vec![]);
    assert_eq!(tokenize("(a) b\tc"), vec![Token::LParen, Token::Ident, Token::RParen, Token::Ident]);
}

#[test]
fn tokenize_takes_plus_for_a_number() {
    assert_eq!(tokenize("a+b"), vec![Token::Ident, Token::Number, Token::Ident]);
    assert_eq!(tokenize("1+2"), vec![Token::Number]);
}

#[test]
fn tokenize_twice_gives_the_same_tokens() {
    let input = "(x1 + 2.5) pi";
    assert_eq!(tokenize(input), tokenize(input));
}

#[test]
fn whitespace_skips_spaces_only() {
    assert_eq!(whitespace("   x  "), "x  ");
    assert_eq!(whitespace("x"), "x");
    assert_eq!(whitespace(""), "");
    assert_eq!(whitespace("\t x"), "\t x");
    assert_eq!(whitespace(" \n"), "\n");
}

#[test]
fn number_takes_any_run_of_number_characters() {
    assert_eq!(number("--1..2"), ("", Some(Token::Number)));
    assert_eq!(number("+-.x"), ("x", Some(Token::Number)));
    assert_eq!(number("12 34"), (" 34", Some(Token::Number)));
    assert_eq!(number("7e5"), ("e5", Some(Token::Number)));
}

#[test]
fn number_rejects_other_starts_unchanged() {
    assert_eq!(number("abc"), ("abc", None));
    assert_eq!(number(" 1"), (" 1", None));
    assert_eq!(number(""), ("", None));
}

#[test]
fn ident_needs_a_leading_letter() {
    assert_eq!(ident("1a"), ("1a", None));
    assert_eq!(ident("_a"), ("_a", None));
    assert_eq!(ident(""), ("", None));
    assert_eq!(ident("\u{e9}a"), ("\u{e9}a", None));
}

#[test]
fn ident_takes_letters_and_digits() {
    assert_eq!(ident("ab1_c"), ("_c", Some(Token::Ident)));
    assert_eq!(ident("Zz9 x"), (" x", Some(Token::Ident)));
    assert_eq!(ident("a\u{e9}"), ("\u{e9}", Some(Token::Ident)));
}

#[test]
fn parens_take_one_character() {
    assert_eq!(lparen("(("), ("(", Some(Token::LParen)));
    assert_eq!(lparen(")"), (")", None));
    assert_eq!(lparen(""), ("", None));
    assert_eq!(rparen(")("), ("(", Some(Token::RParen)));
    assert_eq!(rparen("("), ("(", None));
    assert_eq!(rparen(""), ("", None));
}

#[test]
fn token_skips_spaces_and_tries_rules_in_order() {
    assert_eq!(token("  abc1 2"), (" 2", Some(Token::Ident)));
    assert_eq!(token(" 12a"), ("a", Some(Token::Number)));
    assert_eq!(token("   ( x"), (" x", Some(Token::LParen)));
    assert_eq!(token("  )"), ("", Some(Token::RParen)));
}

#[test]
fn token_gives_the_text_back_whole_when_nothing_matches() {
    assert_eq!(token("  ?x"), ("  ?x", None));
    assert_eq!(token("   "), ("   ", None));
    assert_eq!(token(""), ("", None));
}

#[test]
fn peek_char_reads_the_first_character() {
    assert_eq!(peek_char("abc"), Some('a'));
    assert_eq!(peek_char("\u{e9}t\u{e9}"), Some('\u{e9}'));
    assert_eq!(peek_char(""), None);
}

#[test]
fn advance_char_drops_the_first_character() {
    assert_eq!(advance_char("abc"), "bc");
    assert_eq!(advance_char("\u{e9}t\u{e9}"), "t\u{e9}");
    assert_eq!(advance_char("x"), "");
    assert_eq!(advance_char(""), "");
}
