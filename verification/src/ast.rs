use vstd::prelude::*;

verus! {

/// An expression as a mathematical tree: what an [`Expression`] stands for.
pub enum Ast {
    Ident(Seq<char>),
    NumLiteral(Seq<char>),
    Add(Box<Ast>, Box<Ast>),
}

/// A parsed expression. Names and number literals are slices of the source
/// text; a literal is kept as it was written.
#[derive(Debug, PartialEq)]
pub enum Expression<'src> {
    Ident(&'src str),
    NumLiteral(&'src str),
    Add(Box<Expression<'src>>, Box<Expression<'src>>),
}

/// The tree that `e` stands for: the same shape, with each slice of the source
/// taken as the characters it holds.
pub open spec fn ast_of(e: Expression<'_>) -> Ast
    decreases e,
{
    match e {
        Expression::Ident(name) => Ast::Ident(name@),
        Expression::NumLiteral(text) => Ast::NumLiteral(text@),
        Expression::Add(lhs, rhs) => Ast::Add(Box::new(ast_of(*lhs)), Box::new(ast_of(*rhs))),
    }
}

impl<'src> Expression<'src> {
    /// A copy of this expression: the same tree over the same slices.
    pub fn duplicate(&self) -> (copy: Expression<'src>)
        ensures
            copy == *self,
        decreases *self,
    {
        match self {
            Expression::Ident(name) => Expression::Ident(*name),
            Expression::NumLiteral(text) => Expression::NumLiteral(*text),
            Expression::Add(lhs, rhs) => Expression::Add(
                Box::new(lhs.duplicate()),
                Box::new(rhs.duplicate()),
            ),
        }
    }
}

impl<'src> Clone for Expression<'src> {
    fn clone(&self) -> (copy: Expression<'src>)
        ensures
            copy == *self,
    {
        self.duplicate()
    }
}

impl<'src> View for Expression<'src> {
    type V = Ast;

    open spec fn view(&self) -> Ast {
        ast_of(*self)
    }
}

} // verus!
