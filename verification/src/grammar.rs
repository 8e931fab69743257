use crate::ast::Ast;
use crate::error::Failure;
use crate::runs::{lemma_leading_is_maximal_prefix, leading};
use crate::terminals::{
    blank_run, float_prefix, is_alphabetic, is_alphanumeric, is_blank, lemma_float_prefix_bounds,
};
use vstd::prelude::*;

verus! {

/// What a rule makes of a text: the text it leaves and what it read, or why it
/// did not match.
pub type Parsed<T> = Result<(Seq<char>, T), Failure>;

/// An outcome on the text `s` is in place when the text it leaves, or the
/// position it blames, is a suffix of `s`.
pub open spec fn in_place<T>(s: Seq<char>, r: Parsed<T>) -> bool {
    match r {
        Ok((rest, _)) => rest.is_suffix_of(s),
        Err(e) => e.at.is_suffix_of(s),
    }
}

/// The outcome of a rule that matched: it read `value` and left `rest`.
pub open spec fn accepted<T>(rest: Seq<char>, value: T) -> Parsed<T> {
    Ok((rest, value))
}

/// The failure of a rule that does not match at `s` and has read nothing yet.
pub open spec fn mismatch<T>(s: Seq<char>) -> Parsed<T> {
    Err(Failure { at: s, committed: false })
}

/// What is left of `s` once the blanks at its front are dropped.
pub open spec fn skip_blanks(s: Seq<char>) -> Seq<char> {
    s.skip(blank_run(s) as int)
}

/// The characters an identifier may be made of after its first.
pub open spec fn is_ident_char(c: char) -> bool {
    is_alphanumeric(c) || c == '_'
}

/// The characters an identifier may start with.
pub open spec fn is_ident_start(c: char) -> bool {
    is_alphabetic(c) || c == '_'
}

/// The length of the longest prefix of `s` made of identifier characters.
pub open spec fn ident_run(s: Seq<char>) -> nat {
    leading(s, |c: char| is_ident_char(c))
}

/// The bare identifier at the front of `s`: a letter or underscore, then the
/// longest run of letters, digits and underscores.
pub open spec fn identifier_rule(s: Seq<char>) -> Parsed<Seq<char>> {
    if s.len() > 0 && is_ident_start(s[0]) {
        Ok((s.skip(ident_run(s) as int), s.take(ident_run(s) as int)))
    } else {
        mismatch(s)
    }
}

/// An identifier with blanks around it.
pub open spec fn ident_rule(s: Seq<char>) -> Parsed<Ast> {
    match identifier_rule(skip_blanks(s)) {
        Ok((rest, name)) => Ok((skip_blanks(rest), Ast::Ident(name))),
        Err(e) => Err(e),
    }
}

/// What the float recognizer finds at the front of `t`: the text it leaves
/// and the literal it split off, or where it gave up. The shape of a float
/// literal is that of `float_prefix`.
pub open spec fn float_rule(t: Seq<char>) -> Parsed<Seq<char>> {
    match float_prefix(t) {
        Ok(n) => accepted(t.skip(n), t.take(n)),
        Err((k, committed)) => Err(Failure { at: t.skip(k), committed }),
    }
}

/// The number rule, given what the float recognizer found: the literal
/// becomes a leaf, kept as it was written, and the blanks after it are
/// dropped; a failure of the recognizer is the failure of the rule.
pub open spec fn literal_rule(found: Parsed<Seq<char>>) -> Parsed<Ast> {
    match found {
        Ok((rest, text)) => accepted(skip_blanks(rest), Ast::NumLiteral(text)),
        Err(e) => Err(e),
    }
}

/// A number literal with blanks around it.
pub open spec fn number_rule(s: Seq<char>) -> Parsed<Ast> {
    literal_rule(float_rule(skip_blanks(s)))
}

/// What is left after the blanks is a suffix of the text.
pub proof fn lemma_skip_blanks_is_suffix(s: Seq<char>)
    ensures
        skip_blanks(s).is_suffix_of(s),
        skip_blanks(s).len() <= s.len(),
{
    lemma_leading_is_maximal_prefix(s, |c: char| is_blank(c));
}

/// A term: a number, else an identifier, else a parenthesized expression. The
/// alternatives are tried in this order, each from the start of `s`, until one
/// matches; a committed failure ends the search at once.
pub open spec fn term_rule(s: Seq<char>) -> Parsed<Ast>
    decreases s.len(), 1nat,
{
    match number_rule(s) {
        Ok(found) => Ok(found),
        Err(e) => if e.committed {
            Err(e)
        } else {
            match ident_rule(s) {
                Ok(found) => Ok(found),
                Err(_) => parens_rule(s),
            }
        },
    }
}

/// An expression between parentheses, with blanks around the whole. A failure
/// of the expression inside is the failure of the rule.
pub open spec fn parens_rule(s: Seq<char>) -> Parsed<Ast>
    decreases s.len(), 0nat,
    via parens_rule_decreases
{
    let t = skip_blanks(s);
    if t.len() > 0 && t[0] == '(' {
        match expr_rule(t.skip(1)) {
            Ok((rest, inner)) => if rest.len() > 0 && rest[0] == ')' {
                Ok((skip_blanks(rest.skip(1)), inner))
            } else {
                mismatch(rest)
            },
            Err(e) => Err(e),
        }
    } else {
        mismatch(t)
    }
}

#[via_fn]
proof fn parens_rule_decreases(s: Seq<char>) {
    lemma_skip_blanks_is_suffix(s);
}

/// An expression: a term, then any number of `+ term` continuations.
///
/// The test on the length of what the term leaves is what lets the definition
/// recurse. It always holds: see `lemma_expr_rule_unfolds`.
pub open spec fn expr_rule(s: Seq<char>) -> Parsed<Ast>
    decreases s.len(), 3nat,
{
    match term_rule(s) {
        Ok((rest, first)) => if rest.len() <= s.len() {
            sum_rule(rest, first)
        } else {
            mismatch(s)
        },
        Err(e) => Err(e),
    }
}

/// The continuations of a sum whose operands so far make up `acc`: each
/// `+ term` found at `s` becomes the right operand of a new `Add` whose left
/// operand is everything before it. The sum ends, with `s` untouched, where no
/// `+` follows. Once a `+` has been read a term must follow: where it does
/// not, its failure is the failure of the sum.
///
/// A continuation has read at least its `+`, so what it leaves is shorter than
/// `s`; the test on that length is what lets the definition recurse. It always
/// holds: see `lemma_sum_rule_unfolds`.
pub open spec fn sum_rule(s: Seq<char>, acc: Ast) -> Parsed<Ast>
    decreases s.len(), 2nat,
    via sum_rule_decreases
{
    let t = skip_blanks(s);
    if t.len() > 0 && t[0] == '+' {
        match term_rule(skip_blanks(t.skip(1))) {
            Ok((rest, operand)) => if rest.len() < s.len() {
                sum_rule(rest, Ast::Add(Box::new(acc), Box::new(operand)))
            } else {
                mismatch(s)
            },
            Err(e) => Err(e),
        }
    } else {
        Ok((s, acc))
    }
}

#[via_fn]
proof fn sum_rule_decreases(s: Seq<char>, acc: Ast) {
    lemma_skip_blanks_is_suffix(s);
    lemma_skip_blanks_is_suffix(skip_blanks(s).skip(1));
}

/// An outcome on `s` advances when it is in place and, where the rule
/// matched, leaves less text than `s` holds.
pub open spec fn advances<T>(s: Seq<char>, r: Parsed<T>) -> bool {
    &&& in_place(s, r)
    &&& r matches Ok((rest, _)) ==> rest.len() < s.len()
}

proof fn lemma_skip_is_suffix(s: Seq<char>, k: int)
    requires
        0 <= k <= s.len(),
    ensures
        s.skip(k).is_suffix_of(s),
{
}

proof fn lemma_suffix_of_suffix(a: Seq<char>, b: Seq<char>, c: Seq<char>)
    requires
        a.is_suffix_of(b),
        b.is_suffix_of(c),
    ensures
        a.is_suffix_of(c),
{
}

/// The bare identifier, where there is one, is not empty, and what is left or
/// blamed is a suffix of the text.
pub proof fn lemma_identifier_rule_advances(s: Seq<char>)
    ensures
        advances(s, identifier_rule(s)),
        identifier_rule(s) matches Ok((rest, name)) ==> name.len() > 0 && name + rest == s,
{
    lemma_leading_is_maximal_prefix(s, |c: char| is_ident_char(c));
}

/// The identifier rule advances.
pub proof fn lemma_ident_rule_advances(s: Seq<char>)
    ensures
        advances(s, ident_rule(s)),
{
    let t = skip_blanks(s);
    lemma_skip_blanks_is_suffix(s);
    lemma_identifier_rule_advances(t);
    match identifier_rule(t) {
        Ok((rest, _)) => {
            lemma_skip_blanks_is_suffix(rest);
            lemma_suffix_of_suffix(skip_blanks(rest), rest, t);
            lemma_suffix_of_suffix(skip_blanks(rest), t, s);
        },
        Err(e) => {
            lemma_suffix_of_suffix(e.at, t, s);
        },
    }
}

/// The number rule advances.
pub proof fn lemma_number_rule_advances(s: Seq<char>)
    ensures
        advances(s, number_rule(s)),
{
    let t = skip_blanks(s);
    lemma_skip_blanks_is_suffix(s);
    lemma_float_prefix_bounds(t);
    match float_prefix(t) {
        Ok(n) => {
            lemma_skip_is_suffix(t, n);
            lemma_skip_blanks_is_suffix(t.skip(n));
            lemma_suffix_of_suffix(skip_blanks(t.skip(n)), t.skip(n), t);
            lemma_suffix_of_suffix(skip_blanks(t.skip(n)), t, s);
        },
        Err((k, _)) => {
            lemma_skip_is_suffix(t, k);
            lemma_suffix_of_suffix(t.skip(k), t, s);
        },
    }
}

/// Whether the text `s` is, in this order, blanks, the float literal `text`,
/// blanks again, and `rest`, which starts with no blank.
pub open spec fn splits_at_number(s: Seq<char>, text: Seq<char>, rest: Seq<char>) -> bool {
    let a = blank_run(s) as int;
    let n = text.len() as int;
    let b = blank_run(s.skip(a + n)) as int;
    &&& n > 0
    &&& a + n + b <= s.len()
    &&& float_prefix(s.skip(a)) == Ok::<int, (int, bool)>(n)
    &&& s == s.take(a) + text + s.subrange(a + n, a + n + b) + rest
    &&& forall|i: int| 0 <= i < a ==> is_blank(#[trigger] s[i])
    &&& forall|i: int| a + n <= i < a + n + b ==> is_blank(#[trigger] s[i])
    &&& rest.len() == 0 || !is_blank(rest[0])
}

/// Where the number rule matches, it yields a literal, and the text is
/// blanks, that literal, blanks, and what the rule leaves.
pub proof fn lemma_number_rule_splits(s: Seq<char>)
    ensures
        number_rule(s) matches Ok((rest, literal)) ==> literal matches Ast::NumLiteral(text)
            && splits_at_number(s, text, rest),
{
    let blank = |c: char| is_blank(c);
    let t = skip_blanks(s);
    lemma_leading_is_maximal_prefix(s, blank);
    lemma_float_prefix_bounds(t);
    if let Ok(n) = float_prefix(t) {
        let a = blank_run(s) as int;
        let u = t.skip(n);
        assert(u == s.skip(a + n));
        lemma_leading_is_maximal_prefix(u, blank);
        let b = blank_run(u) as int;
        let rest = u.skip(b);
        let text = t.take(n);
        assert(s =~= s.take(a) + text + s.subrange(a + n, a + n + b) + rest);
        assert forall|i: int| a + n <= i < a + n + b implies is_blank(#[trigger] s[i]) by {
            assert(s[i] == u[i - a - n]);
        }
        if rest.len() > 0 {
            assert(rest[0] == u[b]);
        }
    }
}

/// The term rule advances.
pub proof fn lemma_term_rule_advances(s: Seq<char>)
    ensures
        advances(s, term_rule(s)),
    decreases s.len(), 1nat,
{
    lemma_number_rule_advances(s);
    lemma_ident_rule_advances(s);
    lemma_parens_rule_advances(s);
}

/// The rule for parentheses advances.
pub proof fn lemma_parens_rule_advances(s: Seq<char>)
    ensures
        advances(s, parens_rule(s)),
    decreases s.len(), 0nat,
{
    let t = skip_blanks(s);
    lemma_skip_blanks_is_suffix(s);
    if t.len() > 0 && t[0] == '(' {
        let body = t.skip(1);
        lemma_skip_is_suffix(t, 1);
        lemma_suffix_of_suffix(body, t, s);
        lemma_expr_rule_advances(body);
        match expr_rule(body) {
            Ok((rest, _)) => {
                lemma_suffix_of_suffix(rest, body, s);
                if rest.len() > 0 && rest[0] == ')' {
                    lemma_skip_is_suffix(rest, 1);
                    lemma_skip_blanks_is_suffix(rest.skip(1));
                    lemma_suffix_of_suffix(skip_blanks(rest.skip(1)), rest.skip(1), rest);
                    lemma_suffix_of_suffix(skip_blanks(rest.skip(1)), rest, s);
                }
            },
            Err(e) => {
                lemma_suffix_of_suffix(e.at, body, s);
            },
        }
    }
}

/// The expression rule advances: an expression is never empty, and what it
/// leaves or blames is a suffix of the text.
pub proof fn lemma_expr_rule_advances(s: Seq<char>)
    ensures
        advances(s, expr_rule(s)),
    decreases s.len(), 3nat,
{
    lemma_term_rule_advances(s);
    if let Ok((rest, first)) = term_rule(s) {
        lemma_sum_rule_in_place(rest, first);
        match sum_rule(rest, first) {
            Ok((left, _)) => {
                lemma_suffix_of_suffix(left, rest, s);
            },
            Err(e) => {
                lemma_suffix_of_suffix(e.at, rest, s);
            },
        }
    }
}

/// The continuations of a sum are in place: they leave a suffix of the text,
/// the whole of it where no `+` follows.
pub proof fn lemma_sum_rule_in_place(s: Seq<char>, acc: Ast)
    ensures
        in_place(s, sum_rule(s, acc)),
    decreases s.len(), 2nat,
{
    let t = skip_blanks(s);
    lemma_skip_blanks_is_suffix(s);
    if t.len() > 0 && t[0] == '+' {
        lemma_skip_is_suffix(t, 1);
        let u = skip_blanks(t.skip(1));
        lemma_skip_blanks_is_suffix(t.skip(1));
        lemma_suffix_of_suffix(u, t.skip(1), t);
        lemma_suffix_of_suffix(u, t, s);
        lemma_term_rule_advances(u);
        match term_rule(u) {
            Ok((rest, operand)) => {
                lemma_suffix_of_suffix(rest, u, s);
                let next = Ast::Add(Box::new(acc), Box::new(operand));
                lemma_sum_rule_in_place(rest, next);
                match sum_rule(rest, next) {
                    Ok((left, _)) => {
                        lemma_suffix_of_suffix(left, rest, s);
                    },
                    Err(e) => {
                        lemma_suffix_of_suffix(e.at, rest, s);
                    },
                }
            },
            Err(e) => {
                lemma_suffix_of_suffix(e.at, u, s);
            },
        }
    } else {
        lemma_skip_is_suffix(s, 0);
        assert(s.skip(0) =~= s);
    }
}

/// The length test in `expr_rule` always holds: an expression is the sum that
/// its first term starts.
pub proof fn lemma_expr_rule_unfolds(s: Seq<char>)
    ensures
        expr_rule(s) == match term_rule(s) {
            Ok((rest, first)) => sum_rule(rest, first),
            Err(e) => Err(e),
        },
{
    lemma_term_rule_advances(s);
}

/// The length test in `sum_rule` always holds: after a `+` and a term, the sum
/// goes on from what the term leaves.
pub proof fn lemma_sum_rule_unfolds(s: Seq<char>, acc: Ast)
    ensures
        sum_rule(s, acc) == if skip_blanks(s).len() > 0 && skip_blanks(s)[0] == '+' {
            match term_rule(skip_blanks(skip_blanks(s).skip(1))) {
                Ok((rest, operand)) => sum_rule(rest, Ast::Add(Box::new(acc), Box::new(operand))),
                Err(e) => Err(e),
            }
        } else {
            accepted(s, acc)
        },
{
    let t = skip_blanks(s);
    lemma_skip_blanks_is_suffix(s);
    if t.len() > 0 && t[0] == '+' {
        let u = skip_blanks(t.skip(1));
        lemma_skip_blanks_is_suffix(t.skip(1));
        lemma_term_rule_advances(u);
    }
}

/// A term is the first of number, identifier and parenthesized expression
/// that matches, and fails where none of them does: a committed failure of the
/// number rule cuts off only alternatives that would not have matched.
pub proof fn lemma_term_is_first_match(s: Seq<char>)
    ensures
        number_rule(s) is Ok ==> term_rule(s) == number_rule(s),
        number_rule(s) is Err && ident_rule(s) is Ok ==> term_rule(s) == ident_rule(s),
        number_rule(s) is Err && ident_rule(s) is Err ==> (term_rule(s) is Ok <==> parens_rule(s)
            is Ok),
        number_rule(s) is Err && ident_rule(s) is Err && parens_rule(s) is Ok ==> term_rule(s)
            == parens_rule(s),
{
    lemma_float_prefix_bounds(skip_blanks(s));
}

} // verus!
