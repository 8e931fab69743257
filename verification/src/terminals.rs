use crate::error::ParseError;
use crate::runs::{lemma_leading_is_maximal_prefix, leading};
use vstd::prelude::*;

verus! {

/// The blank characters that may surround every terminal of the grammar.
pub open spec fn is_blank(c: char) -> bool {
    c == ' ' || c == '\t' || c == '\r' || c == '\n'
}

/// The ASCII letters.
pub open spec fn is_alphabetic(c: char) -> bool {
    ('a' <= c && c <= 'z') || ('A' <= c && c <= 'Z')
}

/// The ASCII letters and digits.
pub open spec fn is_alphanumeric(c: char) -> bool {
    is_alphabetic(c) || ('0' <= c && c <= '9')
}

/// The number of blank characters at the front of `s`.
pub open spec fn blank_run(s: Seq<char>) -> nat {
    leading(s, |c: char| is_blank(c))
}

/// The number of letters at the front of `s`.
pub open spec fn alphabetic_run(s: Seq<char>) -> nat {
    leading(s, |c: char| is_alphabetic(c))
}

/// The number of letters and digits at the front of `s`.
pub open spec fn alphanumeric_run(s: Seq<char>) -> nat {
    leading(s, |c: char| is_alphanumeric(c))
}

/// The ASCII digits.
pub open spec fn is_digit(c: char) -> bool {
    '0' <= c && c <= '9'
}

/// The two signs.
pub open spec fn is_sign(c: char) -> bool {
    c == '+' || c == '-'
}

/// The number of digits at the front of `s`.
pub open spec fn digit_run(s: Seq<char>) -> int {
    leading(s, |c: char| is_digit(c)) as int
}

/// 1 where `s` starts with a sign, else 0.
pub open spec fn sign_len(s: Seq<char>) -> int {
    if s.len() > 0 && is_sign(s[0]) {
        1
    } else {
        0
    }
}

/// The mantissa of a float literal at the front of `t`: digits, with an
/// optional dot and optional digits after them, or a dot and digits. `Ok` is
/// its length; `Err` is how far into `t` the recognizer looked before it gave
/// up.
pub open spec fn mantissa(t: Seq<char>) -> Result<int, int> {
    let d = digit_run(t);
    if d > 0 {
        let u = t.skip(d);
        if u.len() > 0 && u[0] == '.' {
            Ok(d + 1 + digit_run(u.skip(1)))
        } else {
            Ok(d)
        }
    } else if t.len() > 0 && t[0] == '.' {
        if digit_run(t.skip(1)) > 0 {
            Ok(1 + digit_run(t.skip(1)))
        } else {
            Err(1)
        }
    } else {
        Err(0)
    }
}

/// The exponent of a float literal at the front of `u`: `e` or `E`, an
/// optional sign, and digits. `Ok` is its length, 0 where `u` starts with no
/// exponent mark; `Err` is how far into `u` the digits were missed after a
/// mark.
pub open spec fn exponent(u: Seq<char>) -> Result<int, int> {
    if u.len() > 0 && (u[0] == 'e' || u[0] == 'E') {
        let b = sign_len(u.skip(1));
        if digit_run(u.skip(1 + b)) > 0 {
            Ok(1 + b + digit_run(u.skip(1 + b)))
        } else {
            Err(1 + b)
        }
    } else {
        Ok(0)
    }
}

/// The float literal at the front of `s`: an optional sign, a mantissa and an
/// optional exponent. `Ok(n)` where the first `n` characters of `s` are the
/// literal; `Err((k, committed))` where the recognizer gave up `k` characters
/// into `s`. It commits when it has read a mantissa and an exponent mark: the
/// digits of the exponent must then follow.
pub open spec fn float_prefix(s: Seq<char>) -> Result<int, (int, bool)> {
    let a = sign_len(s);
    match mantissa(s.skip(a)) {
        Err(k) => Err((a + k, false)),
        Ok(m) => match exponent(s.skip(a + m)) {
            Err(k) => Err((a + m + k, true)),
            Ok(x) => Ok(a + m + x),
        },
    }
}

/// A float literal is never empty and lies within the text; a failure points
/// into the text; and a committed failure comes only after a mantissa, so the
/// text then starts with a sign, a digit or a dot.
pub proof fn lemma_float_prefix_bounds(s: Seq<char>)
    ensures
        match float_prefix(s) {
            Ok(n) => 0 < n <= s.len(),
            Err((k, committed)) => {
                &&& 0 <= k <= s.len()
                &&& committed ==> s.len() > 0 && (is_sign(s[0]) || is_digit(s[0]) || s[0] == '.')
            },
        },
{
    let digit = |c: char| is_digit(c);
    let a = sign_len(s);
    let t = s.skip(a);
    lemma_leading_is_maximal_prefix(t, digit);
    if t.len() > 0 {
        lemma_leading_is_maximal_prefix(t.skip(1), digit);
        assert(t[0] == s[a]);
    }
    let d = digit_run(t);
    if d > 0 {
        assert(is_digit(t[0]));
        let u = t.skip(d);
        if u.len() > 0 {
            lemma_leading_is_maximal_prefix(u.skip(1), digit);
        }
    }
    if let Ok(m) = mantissa(t) {
        assert(0 < m <= t.len());
        let v = s.skip(a + m);
        if v.len() > 0 {
            let b = sign_len(v.skip(1));
            lemma_leading_is_maximal_prefix(v.skip(1 + b), digit);
        }
    }
}

/// `nom::character::complete::multispace0`: drops every space, tab, carriage
/// return and line feed at the front of `input`. It cannot fail.
#[verifier::external_body]
pub(crate) fn multispace0<'a>(input: &'a str) -> (rest: &'a str)
    ensures
        rest@ == input@.skip(blank_run(input@) as int),
{
    match nom::character::complete::multispace0::<&str, nom::error::Error<&str>>(input) {
        Ok((rest, _)) => rest,
        Err(_) => input,
    }
}

/// `nom::character::complete::alpha1`: drops the ASCII letters at the front of
/// `input`, and fails where there is none.
#[verifier::external_body]
pub(crate) fn alpha1<'a>(input: &'a str) -> (r: Option<&'a str>)
    ensures
        r is Some <==> alphabetic_run(input@) > 0,
        r matches Some(rest) ==> rest@ == input@.skip(alphabetic_run(input@) as int),
{
    match nom::character::complete::alpha1::<&str, nom::error::Error<&str>>(input) {
        Ok((rest, _)) => Some(rest),
        Err(_) => None,
    }
}

/// `nom::character::complete::alphanumeric1`: drops the ASCII letters and
/// digits at the front of `input`, and fails where there is none.
#[verifier::external_body]
pub(crate) fn alphanumeric1<'a>(input: &'a str) -> (r: Option<&'a str>)
    ensures
        r is Some <==> alphanumeric_run(input@) > 0,
        r matches Some(rest) ==> rest@ == input@.skip(alphanumeric_run(input@) as int),
{
    match nom::character::complete::alphanumeric1::<&str, nom::error::Error<&str>>(input) {
        Ok((rest, _)) => Some(rest),
        Err(_) => None,
    }
}

/// `nom::bytes::complete::tag`: drops `pattern` from the front of `input`, and
/// fails where `input` does not start with it.
#[verifier::external_body]
pub(crate) fn tag<'a>(pattern: &str, input: &'a str) -> (r: Option<&'a str>)
    ensures
        r is Some <==> pattern@.is_prefix_of(input@),
        r matches Some(rest) ==> rest@ == input@.skip(pattern@.len() as int),
{
    match nom::bytes::complete::tag::<&str, &str, nom::error::Error<&str>>(pattern)(input) {
        Ok((rest, _)) => Some(rest),
        Err(_) => None,
    }
}

/// `nom::character::complete::char`: drops the character `c` from the front of
/// `input`, and fails where `input` does not start with it.
#[verifier::external_body]
pub(crate) fn one_char<'a>(c: char, input: &'a str) -> (r: Option<&'a str>)
    ensures
        r is Some <==> (input@.len() > 0 && input@[0] == c),
        r matches Some(rest) ==> rest@ == input@.skip(1),
{
    match nom::character::complete::char::<&str, nom::error::Error<&str>>(c)(input) {
        Ok((rest, _)) => Some(rest),
        Err(_) => None,
    }
}

/// `nom::number::complete::recognize_float`: splits a float literal off the
/// front of `input`.
///
/// The contract says that the literal is the one `float_prefix` describes, that
/// the literal and the remainder are the two parts of `input`, and that a
/// failure holds the text from where the recognizer gave up, committed where it
/// missed the digits of an exponent.
#[verifier::external_body]
pub(crate) fn recognize_float<'a>(input: &'a str) -> (r: Result<
    (&'a str, &'a str),
    ParseError<'a>,
>)
    ensures
        match r {
            Ok((rest, text)) => {
                &&& float_prefix(input@) == Ok::<int, (int, bool)>(text@.len() as int)
                &&& text@.len() <= input@.len()
                &&& text@ == input@.take(text@.len() as int)
                &&& rest@ == input@.skip(text@.len() as int)
            },
            Err(e) => {
                &&& e.at@.len() <= input@.len()
                &&& e.at@ == input@.skip(input@.len() - e.at@.len())
                &&& float_prefix(input@) == Err::<int, (int, bool)>(
                    (input@.len() - e.at@.len(), e.committed),
                )
            },
        },
{
    match nom::number::complete::recognize_float::<&str, nom::error::Error<&str>>(input) {
        Ok((rest, text)) => Ok((rest, text)),
        Err(nom::Err::Error(e)) => Err(ParseError { at: e.input, committed: false }),
        Err(nom::Err::Failure(e)) => Err(ParseError { at: e.input, committed: true }),
        Err(nom::Err::Incomplete(_)) => Err(ParseError { at: input, committed: true }),
    }
}

} // verus!
