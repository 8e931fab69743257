use crate::ast::{Ast, Expression};
use crate::error::{EvalError, ParseError};
use crate::eval::{first_unbound, pi_name, resolve};
use crate::lexer::{scan_ident, scan_number, tokenize, Token};
use crate::grammar::{
    accepted, expr_rule, lemma_expr_rule_unfolds, lemma_number_rule_splits,
    lemma_sum_rule_unfolds, number_rule, skip_blanks, sum_rule, term_rule,
};
use crate::parser::{expr, outcome};
use crate::runs::leading;
use crate::terminals::is_blank;
use vstd::prelude::*;

verus! {

/// A text that is one number and nothing more is, as an expression, that one
/// literal: where the number rule matches and no `+` follows, the expression
/// rule gives what the number rule gives, and the literal it yields has a
/// value, since it names nothing.
pub proof fn lemma_lone_number_is_its_literal(s: Seq<char>, rest: Seq<char>, literal: Ast)
    requires
        number_rule(s) == accepted(rest, literal),
        rest.len() == 0 || rest[0] != '+',
    ensures
        expr_rule(s) == number_rule(s),
        literal is NumLiteral,
        first_unbound(literal) is None,
{
    lemma_number_rule_splits(s);
    lemma_expr_rule_unfolds(s);
    lemma_sum_rule_unfolds(rest, literal);
    assert(term_rule(s) == number_rule(s));
    assert(leading(rest, |c: char| is_blank(c)) == 0);
    assert(skip_blanks(rest) =~= rest);
}

/// Sums associate to the left: where a `+` and a term follow at `s`, the sum
/// read so far becomes the left operand of a new sum with that term, and the
/// rule goes on from there.
pub proof fn lemma_sum_associates_left(s: Seq<char>, acc: Ast, operand: Ast, rest: Seq<char>)
    requires
        skip_blanks(s).len() > 0,
        skip_blanks(s)[0] == '+',
        term_rule(skip_blanks(skip_blanks(s).skip(1))) == accepted(rest, operand),
    ensures
        sum_rule(s, acc) == sum_rule(rest, Ast::Add(Box::new(acc), Box::new(operand))),
{
    lemma_sum_rule_unfolds(s, acc);
}

/// Once a `+` has been read a term must follow: where none does, the sum
/// fails with the failure of that term, whatever was read before.
pub proof fn lemma_plus_needs_a_term(s: Seq<char>, acc: Ast)
    requires
        skip_blanks(s).len() > 0,
        skip_blanks(s)[0] == '+',
        term_rule(skip_blanks(skip_blanks(s).skip(1))) is Err,
    ensures
        sum_rule(s, acc) is Err,
        sum_rule(s, acc)->Err_0 == term_rule(skip_blanks(skip_blanks(s).skip(1)))->Err_0,
{
}

/// Parsing is a function of the text: whatever `expr` returns on two texts
/// that hold the same characters, it is the same outcome.
pub proof fn lemma_parsing_is_deterministic<'a>(
    a: &'a str,
    b: &'a str,
    first: Result<(&'a str, Expression<'a>), ParseError<'a>>,
    second: Result<(&'a str, Expression<'a>), ParseError<'a>>,
)
    requires
        a@ == b@,
        call_ensures(expr, (a,), first),
        call_ensures(expr, (b,), second),
    ensures
        outcome(first) == outcome(second),
{
}

/// Scanning is a function of the text: whatever `tokenize` returns on two
/// texts that hold the same characters, it is the same sequence of tokens.
pub proof fn lemma_scanning_is_deterministic(
    a: &str,
    b: &str,
    first: Vec<Token>,
    second: Vec<Token>,
)
    requires
        a@ == b@,
        call_ensures(tokenize, (a,), first),
        call_ensures(tokenize, (b,), second),
    ensures
        first@ == second@,
{
}

/// Resolution is a function of the expression: whatever `resolve` returns on
/// two expressions that stand for the same tree, it succeeds on both or blames
/// the same name on both.
pub proof fn lemma_resolution_is_deterministic<'a>(
    a: &Expression<'a>,
    b: &Expression<'a>,
    first: Result<(), EvalError<'a>>,
    second: Result<(), EvalError<'a>>,
)
    requires
        a@ == b@,
        call_ensures(resolve, (a,), first),
        call_ensures(resolve, (b,), second),
    ensures
        first is Ok <==> second is Ok,
        first matches Err(EvalError::UnboundIdentifier { name: x }) ==> second matches Err(
            EvalError::UnboundIdentifier { name: y },
        ) && x@ == y@,
{
}

/// No character starts both an identifier and a number, so the order in
/// which the scanner tries these two rules never decides between them.
pub proof fn lemma_ident_and_number_starts_differ(s: Seq<char>)
    ensures
        !(scan_ident(s).1 is Some && scan_number(s).1 is Some),
{
}

/// An identifier that is not the predefined constant is unbound, whatever its
/// name: evaluating it alone blames exactly that name.
pub proof fn lemma_unknown_identifier_is_unbound(name: Seq<char>)
    requires
        name != pi_name(),
    ensures
        first_unbound(Ast::Ident(name)) == Some(name),
{
}

/// In a sum, the left operand is resolved before the right: an unbound
/// identifier on the left is the one that is blamed.
pub proof fn lemma_left_operand_is_blamed_first(lhs: Ast, rhs: Ast)
    ensures
        first_unbound(lhs) is Some ==> first_unbound(Ast::Add(Box::new(lhs), Box::new(rhs)))
            == first_unbound(lhs),
        first_unbound(lhs) is None ==> first_unbound(Ast::Add(Box::new(lhs), Box::new(rhs)))
            == first_unbound(rhs),
{
}

} // verus!
