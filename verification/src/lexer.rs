use crate::cursor::{advance_char, peek_char};
use crate::runs::{lemma_leading_is_maximal_prefix, lemma_leading_unique, leading};
use vstd::prelude::*;

verus! {

/// The kind of one lexeme. A token carries no text and no value.
#[derive(Debug, PartialEq, Eq, Structural, Clone, Copy)]
pub enum Token {
    Ident,
    Number,
    LParen,
    RParen,
}

/// The one character that the scanner treats as blank: the ASCII space.
pub open spec fn is_space(c: char) -> bool {
    c == ' '
}

/// The characters a number lexeme is drawn from: signs, the dot and the digits.
pub open spec fn is_number_char(c: char) -> bool {
    c == '-' || c == '+' || c == '.' || ('0' <= c && c <= '9')
}

/// The ASCII letters, which may start an identifier.
pub open spec fn is_letter(c: char) -> bool {
    ('a' <= c && c <= 'z') || ('A' <= c && c <= 'Z')
}

/// The ASCII letters and digits, of which the rest of an identifier is made.
pub open spec fn is_word_char(c: char) -> bool {
    is_letter(c) || ('0' <= c && c <= '9')
}

/// The number of spaces at the front of `s`.
pub open spec fn space_run(s: Seq<char>) -> nat {
    leading(s, |c: char| is_space(c))
}

/// The length of the longest prefix of `s` made of number characters.
pub open spec fn number_run(s: Seq<char>) -> nat {
    leading(s, |c: char| is_number_char(c))
}

/// The length of the longest prefix of `s` made of letters and digits.
pub open spec fn word_run(s: Seq<char>) -> nat {
    leading(s, |c: char| is_word_char(c))
}

/// What is left of `s` once the spaces at its front are dropped.
pub open spec fn skip_spaces(s: Seq<char>) -> Seq<char> {
    s.skip(space_run(s) as int)
}

/// Drops the spaces at the front of `input`. Tabs and newlines are not spaces.
pub fn whitespace(input: &str) -> (rest: &str)
    ensures
        rest@ == skip_spaces(input@),
{
    let mut cur = input;
    let ghost mut n: nat = 0;
    while matches!(peek_char(cur), Some(' '))
        invariant
            n <= input@.len(),
            cur@ == input@.skip(n as int),
            forall|i: int| 0 <= i < n ==> is_space(#[trigger] input@[i]),
        decreases cur@.len(),
    {
        cur = advance_char(cur);
        proof {
            assert(input@.skip(n as int).skip(1) == input@.skip(n as int + 1));
            n = n + 1;
        }
    }
    proof {
        lemma_leading_unique(input@, |c: char| is_space(c), n);
    }
    cur
}

/// The number rule on `s`: a non-empty longest run of number characters is one
/// `Number` lexeme, whatever its shape; with no such character at the front
/// nothing is consumed.
pub open spec fn scan_number(s: Seq<char>) -> (Seq<char>, Option<Token>) {
    if s.len() > 0 && is_number_char(s[0]) {
        (s.skip(number_run(s) as int), Some(Token::Number))
    } else {
        (s, None)
    }
}

/// The identifier rule on `s`: a letter, then the longest run of letters and
/// digits; with no letter at the front nothing is consumed.
pub open spec fn scan_ident(s: Seq<char>) -> (Seq<char>, Option<Token>) {
    if s.len() > 0 && is_letter(s[0]) {
        (s.skip(word_run(s) as int), Some(Token::Ident))
    } else {
        (s, None)
    }
}

/// The rule for a single character `c` that stands for the token `t`.
pub open spec fn scan_single(s: Seq<char>, c: char, t: Token) -> (Seq<char>, Option<Token>) {
    if s.len() > 0 && s[0] == c {
        (s.skip(1), Some(t))
    } else {
        (s, None)
    }
}

/// Scans one number lexeme at the front of `input`.
pub fn number(input: &str) -> (r: (&str, Option<Token>))
    ensures
        (r.0@, r.1) == scan_number(input@),
{
    let mut cur = input;
    if matches!(peek_char(cur), Some('-' | '+' | '.' | '0'..='9')) {
        let ghost mut n: nat = 0;
        while matches!(peek_char(cur), Some('-' | '+' | '.' | '0'..='9'))
            invariant
                n <= input@.len(),
                cur@ == input@.skip(n as int),
                forall|i: int| 0 <= i < n ==> is_number_char(#[trigger] input@[i]),
            decreases cur@.len(),
        {
            cur = advance_char(cur);
            proof {
                assert(input@.skip(n as int).skip(1) == input@.skip(n as int + 1));
                n = n + 1;
            }
        }
        proof {
            lemma_leading_unique(input@, |c: char| is_number_char(c), n);
        }
        return (cur, Some(Token::Number));
    }
    (cur, None)
}

/// Scans one identifier at the front of `input`.
pub fn ident(input: &str) -> (r: (&str, Option<Token>))
    ensures
        (r.0@, r.1) == scan_ident(input@),
{
    let mut cur = input;
    if matches!(peek_char(cur), Some('a'..='z' | 'A'..='Z')) {
        let ghost mut n: nat = 0;
        while matches!(peek_char(cur), Some('a'..='z' | 'A'..='Z' | '0'..='9'))
            invariant
                n <= input@.len(),
                cur@ == input@.skip(n as int),
                forall|i: int| 0 <= i < n ==> is_word_char(#[trigger] input@[i]),
            decreases cur@.len(),
        {
            cur = advance_char(cur);
            proof {
                assert(input@.skip(n as int).skip(1) == input@.skip(n as int + 1));
                n = n + 1;
            }
        }
        proof {
            lemma_leading_unique(input@, |c: char| is_word_char(c), n);
        }
        return (cur, Some(Token::Ident));
    }
    (cur, None)
}

/// Scans a left parenthesis at the front of `input`.
pub fn lparen(input: &str) -> (r: (&str, Option<Token>))
    ensures
        (r.0@, r.1) == scan_single(input@, '(', Token::LParen),
{
    if matches!(peek_char(input), Some('(')) {
        return (advance_char(input), Some(Token::LParen));
    }
    (input, None)
}

/// Scans a right parenthesis at the front of `input`.
pub fn rparen(input: &str) -> (r: (&str, Option<Token>))
    ensures
        (r.0@, r.1) == scan_single(input@, ')', Token::RParen),
{
    if matches!(peek_char(input), Some(')')) {
        return (advance_char(input), Some(Token::RParen));
    }
    (input, None)
}

/// The next token of `s`: spaces are skipped, then the rules are tried in a
/// fixed order (identifier, number, left parenthesis, right parenthesis) and
/// the first that matches decides. Where none matches, `s` comes back whole,
/// its leading spaces included.
pub open spec fn next_token(s: Seq<char>) -> (Seq<char>, Option<Token>) {
    let t = skip_spaces(s);
    if scan_ident(t).1 is Some {
        scan_ident(t)
    } else if scan_number(t).1 is Some {
        scan_number(t)
    } else if scan_single(t, '(', Token::LParen).1 is Some {
        scan_single(t, '(', Token::LParen)
    } else if scan_single(t, ')', Token::RParen).1 is Some {
        scan_single(t, ')', Token::RParen)
    } else {
        (s, None)
    }
}

/// A token is never empty: whenever `next_token` yields one, what is left is
/// a proper suffix of `s`.
pub proof fn lemma_next_token_consumes(s: Seq<char>)
    ensures
        next_token(s).1 is Some ==> exists|k: int|
            0 < k <= s.len() && next_token(s).0 == #[trigger] s.skip(k),
        next_token(s).1 is None ==> next_token(s).0 == s,
{
    let t = skip_spaces(s);
    let a = space_run(s) as int;
    lemma_leading_is_maximal_prefix(s, |c: char| is_space(c));
    if next_token(s).1 is Some {
        lemma_leading_is_maximal_prefix(t, |c: char| is_word_char(c));
        lemma_leading_is_maximal_prefix(t, |c: char| is_number_char(c));
        let b: int = if scan_ident(t).1 is Some {
            word_run(t) as int
        } else if scan_number(t).1 is Some {
            number_run(t) as int
        } else {
            1
        };
        assert(0 < b <= t.len());
        assert(next_token(s).0 == t.skip(b));
        assert(t.skip(b) == s.skip(a + b));
    }
}

/// The tokens of `s`, in order: `next_token` is applied again and again until
/// the text is used up or no rule matches; what follows an unmatched character
/// is dropped without complaint.
pub open spec fn tokens_of(s: Seq<char>) -> Seq<Token>
    decreases s.len(),
    via tokens_of_decreases
{
    if s.len() == 0 {
        Seq::empty()
    } else {
        match next_token(s) {
            (rest, Some(t)) => seq![t] + tokens_of(rest),
            (_, None) => Seq::empty(),
        }
    }
}

#[via_fn]
proof fn tokens_of_decreases(s: Seq<char>) {
    lemma_next_token_consumes(s);
}

/// Scans the next token of `i`, past any spaces before it.
pub fn token(i: &str) -> (r: (&str, Option<Token>))
    ensures
        (r.0@, r.1) == next_token(i@),
{
    if let (i, Some(ident_res)) = ident(whitespace(i)) {
        return (i, Some(ident_res));
    }
    if let (i, Some(number_res)) = number(whitespace(i)) {
        return (i, Some(number_res));
    }
    if let (i, Some(lparen_res)) = lparen(whitespace(i)) {
        return (i, Some(lparen_res));
    }
    if let (i, Some(rparen_res)) = rparen(whitespace(i)) {
        return (i, Some(rparen_res));
    }
    (i, None)
}

/// Scans the whole of `input` into its tokens.
pub fn tokenize(input: &str) -> (tokens: Vec<Token>)
    ensures
        tokens@ == tokens_of(input@),
{
    let mut cur = input;
    let mut tokens: Vec<Token> = Vec::new();
    while !cur.is_empty()
        invariant
            tokens@ + tokens_of(cur@) == tokens_of(input@),
        ensures
            tokens_of(cur@).len() == 0,
        decreases cur@.len(),
    {
        proof {
            lemma_next_token_consumes(cur@);
        }
        if let (next_input, Some(token)) = token(cur) {
            assert(tokens@.push(token) + tokens_of(next_input@) == tokens@ + tokens_of(cur@));
            tokens.push(token);
            cur = next_input;
        } else {
            break;
        }
    }
    assert(tokens@ + tokens_of(cur@) == tokens@);
    tokens
}

} // verus!
