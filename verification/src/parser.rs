use crate::ast::{Ast, Expression};
use crate::error::ParseError;
use crate::grammar::{
    expr_rule, ident_rule, identifier_rule, in_place, is_ident_char, lemma_number_rule_splits,
    lemma_skip_blanks_is_suffix, literal_rule, number_rule, parens_rule, splits_at_number,
    sum_rule, term_rule, Parsed,
};
use crate::runs::{lemma_leading_is_maximal_prefix, lemma_leading_unique};
use crate::terminals::{
    alpha1, alphabetic_run, alphanumeric1, alphanumeric_run, is_alphabetic, is_alphanumeric,
    multispace0, one_char, recognize_float, tag,
};
use vstd::prelude::*;

verus! {

/// The mathematical content of what a function that reads a slice of the text
/// returns.
pub open spec fn name_outcome<'a>(r: Result<(&'a str, &'a str), ParseError<'a>>) -> Parsed<
    Seq<char>,
> {
    match r {
        Ok((rest, name)) => Ok((rest@, name@)),
        Err(e) => Err(e@),
    }
}

/// The mathematical content of what a function that reads an expression
/// returns.
pub open spec fn outcome<'a>(r: Result<(&'a str, Expression<'a>), ParseError<'a>>) -> Parsed<
    Ast,
> {
    match r {
        Ok((rest, e)) => Ok((rest@, e@)),
        Err(e) => Err(e@),
    }
}

/// Reads the bare identifier at the front of `input`.
pub fn identifier<'src>(input: &'src str) -> (r: Result<(&'src str, &'src str), ParseError<'src>>)
    ensures
        name_outcome(r) == identifier_rule(input@),
        in_place(input@, name_outcome(r)),
{
    proof {
        reveal_strlit("_");
        lemma_leading_is_maximal_prefix(input@, |c: char| is_alphabetic(c));
    }
    let first = match alpha1(input) {
        Some(rest) => Some(rest),
        None => tag("_", input),
    };
    let mut cur = match first {
        Some(rest) => rest,
        None => {
            assert(!"_"@.is_prefix_of(input@));
            assert(input@.len() > 0 ==> input@.take(1) == seq![input@[0]]);
            return Err(ParseError { at: input, committed: false });
        },
    };
    proof {
        let k = input@.len() - cur@.len();
        if alphabetic_run(input@) > 0 {
            assert(k == alphabetic_run(input@));
            assert forall|i: int| 0 <= i < k implies is_ident_char(#[trigger] input@[i]) by {
                assert(is_alphabetic(input@[i]));
            }
        } else {
            assert("_"@.is_prefix_of(input@));
            assert(input@.take(1)[0] == '_');
            assert(k == 1);
        }
    }
    let ghost mut n: int = input@.len() - cur@.len();
    loop
        invariant
            0 < n <= input@.len(),
            cur@ == input@.skip(n),
            forall|i: int| 0 <= i < n ==> is_ident_char(#[trigger] input@[i]),
            "_"@ == seq!['_'],
        ensures
            cur@.len() == 0 || !is_ident_char(cur@[0]),
        decreases cur@.len(),
    {
        proof {
            lemma_leading_is_maximal_prefix(cur@, |c: char| is_alphanumeric(c));
        }
        let next = match alphanumeric1(cur) {
            Some(rest) => Some(rest),
            None => tag("_", cur),
        };
        match next {
            Some(rest) => {
                proof {
                    let k = cur@.len() - rest@.len();
                    assert(rest@ == cur@.skip(k));
                    assert(cur@.skip(k) == input@.skip(n + k));
                    if alphanumeric_run(cur@) > 0 {
                        assert(k == alphanumeric_run(cur@));
                    } else {
                        assert("_"@.is_prefix_of(cur@));
                        assert(cur@.take(1)[0] == '_');
                        assert(k == 1);
                    }
                    assert forall|i: int| 0 <= i < n + k implies is_ident_char(
                        #[trigger] input@[i],
                    ) by {
                        if i >= n {
                            assert(input@[i] == cur@[i - n]);
                            if alphanumeric_run(cur@) > 0 {
                                assert(is_alphanumeric(cur@[i - n]));
                            }
                        }
                    }
                    n = n + k;
                }
                cur = rest;
            },
            None => {
                assert(!"_"@.is_prefix_of(cur@));
                assert(cur@.len() > 0 ==> cur@.take(1) == seq![cur@[0]]);
                break ;
            },
        }
    }
    proof {
        lemma_leading_unique(input@, |c: char| is_ident_char(c), n as nat);
    }
    let total = input.unicode_len();
    let left = cur.unicode_len();
    let name = input.substring_char(0, total - left);
    Ok((cur, name))
}

/// Reads an identifier, with any blanks before and after it.
pub fn ident<'src>(input: &'src str) -> (r: Result<(&'src str, Expression<'src>), ParseError<'src>>)
    ensures
        outcome(r) == ident_rule(input@),
        in_place(input@, outcome(r)),
{
    proof {
        lemma_skip_blanks_is_suffix(input@);
    }
    let start = multispace0(input);
    match identifier(start) {
        Ok((rest, name)) => {
            proof {
                lemma_skip_blanks_is_suffix(rest@);
            }
            Ok((multispace0(rest), Expression::Ident(name)))
        },
        Err(e) => Err(e),
    }
}

/// Completes the number rule from what the float recognizer found: wraps the
/// literal into a leaf and drops the blanks after it.
pub fn number_from<'src>(found: Result<(&'src str, &'src str), ParseError<'src>>) -> (r: Result<
    (&'src str, Expression<'src>),
    ParseError<'src>,
>)
    ensures
        outcome(r) == literal_rule(name_outcome(found)),
{
    match found {
        Ok((rest, text)) => Ok((multispace0(rest), Expression::NumLiteral(text))),
        Err(e) => Err(e),
    }
}

/// Reads a number literal, with any blanks before and after it.
pub fn number<'src>(input: &'src str) -> (r: Result<
    (&'src str, Expression<'src>),
    ParseError<'src>,
>)
    ensures
        outcome(r) == number_rule(input@),
        in_place(input@, outcome(r)),
        r matches Ok((rest, e)) ==> e matches Expression::NumLiteral(text) && splits_at_number(
            input@,
            text@,
            rest@,
        ),
{
    proof {
        lemma_skip_blanks_is_suffix(input@);
        lemma_number_rule_splits(input@);
    }
    let start = multispace0(input);
    let found = recognize_float(start);
    proof {
        if let Ok((rest, _)) = found {
            lemma_skip_blanks_is_suffix(rest@);
        }
    }
    number_from(found)
}

/// Reads a term: a number, an identifier or a parenthesized expression.
pub fn term<'src>(i: &'src str) -> (r: Result<(&'src str, Expression<'src>), ParseError<'src>>)
    ensures
        outcome(r) == term_rule(i@),
        in_place(i@, outcome(r)),
    decreases i@.len(), 1nat,
{
    match number(i) {
        Ok(found) => {
            return Ok(found);
        },
        Err(e) => {
            if e.committed {
                return Err(e);
            }
        },
    }
    match ident(i) {
        Ok(found) => Ok(found),
        Err(_) => parens(i),
    }
}

/// Reads an expression between parentheses, with any blanks before and after.
pub fn parens<'src>(i: &'src str) -> (r: Result<(&'src str, Expression<'src>), ParseError<'src>>)
    ensures
        outcome(r) == parens_rule(i@),
        in_place(i@, outcome(r)),
    decreases i@.len(), 0nat,
{
    proof {
        reveal_strlit("(");
        reveal_strlit(")");
        lemma_skip_blanks_is_suffix(i@);
    }
    let start = multispace0(i);
    let body = match tag("(", start) {
        Some(body) => body,
        None => {
            assert(start@.len() > 0 ==> start@.take(1) == seq![start@[0]]);
            return Err(ParseError { at: start, committed: false });
        },
    };
    assert(start@.take(1)[0] == '(');
    match expr(body) {
        Ok((rest, inner)) => match tag(")", rest) {
            Some(after) => {
                proof {
                    assert(rest@.take(1)[0] == ')');
                    lemma_skip_blanks_is_suffix(after@);
                }
                Ok((multispace0(after), inner))
            },
            None => {
                assert(rest@.len() > 0 ==> rest@.take(1) == seq![rest@[0]]);
                Err(ParseError { at: rest, committed: false })
            },
        },
        Err(e) => Err(e),
    }
}

/// Reads an expression: a term and the `+ term` continuations that follow it,
/// gathered into a sum that associates to the left. A `+` that no term
/// follows fails the expression.
pub fn expr<'src>(i: &'src str) -> (r: Result<(&'src str, Expression<'src>), ParseError<'src>>)
    ensures
        outcome(r) == expr_rule(i@),
        in_place(i@, outcome(r)),
    decreases i@.len(), 3nat,
{
    let (after_first, init) = match term(i) {
        Ok(found) => found,
        Err(e) => {
            return Err(e);
        },
    };
    let mut cur = after_first;
    let mut acc = init;
    loop
        invariant
            cur@.is_suffix_of(i@),
            sum_rule(cur@, acc@) == expr_rule(i@),
        decreases cur@.len(),
    {
        proof {
            lemma_skip_blanks_is_suffix(cur@);
        }
        let at_plus = multispace0(cur);
        let after_plus = match one_char('+', at_plus) {
            Some(after_plus) => after_plus,
            None => {
                return Ok((cur, acc));
            },
        };
        proof {
            lemma_skip_blanks_is_suffix(after_plus@);
        }
        let operand_start = multispace0(after_plus);
        match term(operand_start) {
            Ok((rest, operand)) => {
                acc = Expression::Add(Box::new(acc), Box::new(operand));
                cur = rest;
            },
            Err(e) => {
                return Err(e);
            },
        }
    }
}

} // verus!
