use crate::ast::{Ast, Expression};
use crate::error::EvalError;
use vstd::prelude::*;

verus! {

/// The name of the one predefined constant.
pub open spec fn pi_name() -> Seq<char> {
    seq!['p', 'i']
}

/// The identifier on which evaluation of `e` stops, if there is one: the
/// first, in the order of evaluation (left operand before right), that is not
/// a predefined constant.
pub open spec fn first_unbound(e: Ast) -> Option<Seq<char>>
    decreases e,
{
    match e {
        Ast::Ident(name) => if name == pi_name() {
            None
        } else {
            Some(name)
        },
        Ast::NumLiteral(_) => None,
        Ast::Add(lhs, rhs) => match first_unbound(*lhs) {
            Some(name) => Some(name),
            None => first_unbound(*rhs),
        },
    }
}

/// Whether `name` is the predefined constant `pi`.
pub fn is_predefined(name: &str) -> (b: bool)
    ensures
        b == (name@ == pi_name()),
{
    if name.unicode_len() != 2 {
        return false;
    }
    let known = name.get_char(0) == 'p' && name.get_char(1) == 'i';
    proof {
        if known {
            assert(name@ =~= pi_name());
        }
    }
    known
}

/// Resolves the identifiers of `expr`: succeeds where every one of them is a
/// predefined constant, so that the expression has a value, and otherwise
/// reports the identifier on which evaluation stops.
pub fn resolve<'src>(expr: &Expression<'src>) -> (r: Result<(), EvalError<'src>>)
    ensures
        match r {
            Ok(()) => first_unbound(expr@) is None,
            Err(EvalError::UnboundIdentifier { name }) => first_unbound(expr@) == Some(name@),
        },
    decreases expr,
{
    match expr {
        Expression::Ident(name) => if is_predefined(name) {
            Ok(())
        } else {
            Err(EvalError::UnboundIdentifier { name })
        },
        Expression::NumLiteral(_) => Ok(()),
        Expression::Add(lhs, rhs) => match resolve(lhs) {
            Ok(()) => resolve(rhs),
            Err(e) => Err(e),
        },
    }
}

} // verus!
