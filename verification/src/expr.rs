use vstd::prelude::*;

use crate::error::EvalError;
use crate::interpreter::{eval_spec, res_view, Interpreter};
use crate::numeric::dec_str;
use crate::token::Token;
use crate::token_type::TokenType;

verus! {

/// The mathematical image of an expression tree: literals, separators,
/// groupings and operator applications over plain values.
pub enum ExprV {
    Lit(u32),
    Sep(Seq<char>),
    Group(Box<ExprV>),
    Bin(TokenType, Seq<ExprV>),
}

/// An operator application: the operator token and its ordered operands.
pub struct Binary {
    pub token: Token,
    pub values: Vec<Expr>,
}

/// A parenthesized sub-expression owning exactly one child.
pub struct Grouping {
    pub expr: Box<Expr>,
}

/// An unsigned integer literal.
pub struct Literal {
    pub value: u32,
}

/// A separator leaf carrying literal whitespace text.
pub struct Space {
    pub value: String,
}

/// An expression tree node: exactly one of the four variants.
pub enum Expr {
    Grouping(Grouping),
    Binary(Binary),
    Literal(Literal),
    Space(Space),
}

/// The mathematical image of an expression tree.
pub open spec fn expr_view(e: Expr) -> ExprV
    decreases e, 1int,
{
    match e {
        Expr::Grouping(g) => ExprV::Group(Box::new(expr_view(*g.expr))),
        Expr::Binary(b) => ExprV::Bin(b.token.kind, view_list(b.values@)),
        Expr::Literal(l) => ExprV::Lit(l.value),
        Expr::Space(sp) => ExprV::Sep(sp.value@),
    }
}

/// The images of a sequence of expression trees, in order.
pub open spec fn view_list(es: Seq<Expr>) -> Seq<ExprV>
    decreases es, 0int,
{
    if es.len() == 0 {
        Seq::empty()
    } else {
        seq![expr_view(es[0])] + view_list(es.drop_first())
    }
}

/// [`view_list`] maps [`expr_view`] over the sequence elementwise.
pub proof fn lemma_view_list(es: Seq<Expr>)
    ensures
        view_list(es).len() == es.len(),
        forall|i: int| 0 <= i < es.len() ==> view_list(es)[i] == expr_view(es[i]),
    decreases es.len(),
{
    if es.len() > 0 {
        lemma_view_list(es.drop_first());
    }
}

/// Appending one tree appends its image.
pub proof fn lemma_view_list_push(es: Seq<Expr>, e: Expr)
    ensures
        view_list(es.push(e)) =~= view_list(es).push(expr_view(e)),
{
    lemma_view_list(es);
    lemma_view_list(es.push(e));
}

/// The image of a concatenation is the concatenation of the images.
pub proof fn lemma_view_list_concat(a: Seq<Expr>, b: Seq<Expr>)
    ensures
        view_list(a + b) =~= view_list(a) + view_list(b),
{
    lemma_view_list(a);
    lemma_view_list(b);
    lemma_view_list(a + b);
    assert forall|i: int| 0 <= i < a.len() + b.len() implies view_list(a + b)[i] == (view_list(a)
        + view_list(b))[i] by {
        if i < a.len() {
            assert((a + b)[i] == a[i]);
        } else {
            assert((a + b)[i] == b[i - a.len()]);
        }
    }
}

/// The image of a sequence splits at any index.
pub proof fn lemma_view_list_split(es: Seq<Expr>, k: int)
    requires
        0 <= k <= es.len(),
    ensures
        view_list(es) =~= view_list(es.take(k)) + view_list(es.skip(k)),
{
    lemma_view_list(es);
    lemma_view_list(es.take(k));
    lemma_view_list(es.skip(k));
}

impl Literal {
    pub fn new(value: u32) -> (l: Literal)
        ensures
            l.value == value,
    {
        Literal { value }
    }

    /// Dispatches this literal to the evaluator.
    pub fn accept(&self, interpreter: Interpreter) -> (r: String)
        ensures
            r@ == dec_str(self.value as int),
    {
        interpreter.visit_literal_expr(self)
    }
}

impl Space {
    pub fn new(value: String) -> (s: Space)
        ensures
            s.value == value,
    {
        Space { value }
    }

    /// Dispatches this separator to the evaluator.
    pub fn accept(&self, interpreter: Interpreter) -> (r: String)
        ensures
            r@ == self.value@,
    {
        interpreter.visit_space_expr(self)
    }
}

impl Grouping {
    /// Dispatches this grouping to the evaluator; parentheses are
    /// transparent to the value.
    pub fn accept(&self, interpreter: Interpreter) -> (r: Result<String, EvalError>)
        ensures
            res_view(r) == eval_spec(expr_view(*self.expr)),
        decreases *self, 1int,
    {
        interpreter.visit_grouping_expr(self)
    }
}

impl Binary {
    /// Dispatches this operator application to the evaluator.
    pub fn accept(&self, interpreter: Interpreter) -> (r: Result<String, EvalError>)
        ensures
            res_view(r) == eval_spec(ExprV::Bin(self.token.kind, view_list(self.values@))),
        decreases *self, 1int,
    {
        interpreter.visit_binary_expr(self)
    }
}

impl Expr {
    /// Dispatches the populated variant of this node to the evaluator.
    pub fn accept(&self, interpreter: Interpreter) -> (r: Result<String, EvalError>)
        ensures
            res_view(r) == eval_spec(expr_view(*self)),
        decreases *self, 2int,
    {
        match self {
            Expr::Grouping(g) => g.accept(interpreter),
            Expr::Binary(b) => b.accept(interpreter),
            Expr::Literal(l) => Ok(l.accept(interpreter)),
            Expr::Space(sp) => Ok(sp.accept(interpreter)),
        }
    }
}

} // verus!
