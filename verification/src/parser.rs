use vstd::prelude::*;
use vstd::string::StringExecFns;

use crate::error::EvalError;
use crate::expr::{
    expr_view, lemma_view_list_concat, lemma_view_list_push, lemma_view_list_split, view_list,
    Binary, Expr, ExprV, Grouping, Literal, Space,
};
use crate::numeric::parse_u32_spec;
use crate::token::{lemma_toks_view, toks_view, SpecToken, Token};
use crate::token_type::{is_operator, TokenType};

verus! {

/// What consuming a run of consecutive number tokens yields: their
/// literals in order and the position after the run; a literal that is no
/// unsigned 32-bit numeral decides the error.
pub open spec fn sp_number_run(toks: Seq<SpecToken>, pos: int) -> Result<
    (Seq<ExprV>, int),
    EvalError,
>
    decreases toks.len() - pos,
{
    if !(0 <= pos < toks.len()) || !(toks[pos].kind is Number) {
        Ok((Seq::empty(), pos))
    } else {
        match parse_u32_spec(toks[pos].text) {
            Err(e) => Err(e),
            Ok(v) => match sp_number_run(toks, pos + 1) {
                Err(e) => Err(e),
                Ok((vs, p)) => Ok((seq![ExprV::Lit(v)] + vs, p)),
            },
        }
    }
}

/// A number run only moves the position forward, and never past the end.
pub proof fn lemma_number_run_bounds(toks: Seq<SpecToken>, pos: int)
    requires
        0 <= pos <= toks.len(),
    ensures
        sp_number_run(toks, pos) matches Ok((vs, p)) ==> pos <= p <= toks.len(),
    decreases toks.len() - pos,
{
    if pos < toks.len() && toks[pos].kind is Number {
        lemma_number_run_bounds(toks, pos + 1);
    }
}

/// What consuming the further space-delimited number runs yields: for each
/// space token, its run of literals, preceded by a separator for every run
/// after the first.
pub open spec fn sp_extra_runs(toks: Seq<SpecToken>, pos: int, first: bool) -> Result<
    (Seq<ExprV>, int),
    EvalError,
>
    decreases toks.len() - pos,
{
    if 0 <= pos < toks.len() && toks[pos].kind is Space {
        match sp_number_run(toks, pos + 1) {
            Err(e) => Err(e),
            Ok((run, p1)) => {
                proof {
                    lemma_number_run_bounds(toks, pos + 1);
                }
                match sp_extra_runs(toks, p1, false) {
                    Err(e) => Err(e),
                    Ok((rest, p2)) => {
                        let here = if first {
                            run
                        } else {
                            seq![ExprV::Sep(seq![' '])] + run
                        };
                        Ok((here + rest, p2))
                    },
                }
            },
        }
    } else {
        Ok((Seq::empty(), pos))
    }
}

/// The further runs only move the position forward, and never past the end.
pub proof fn lemma_extra_runs_bounds(toks: Seq<SpecToken>, pos: int, first: bool)
    requires
        0 <= pos <= toks.len(),
    ensures
        sp_extra_runs(toks, pos, first) matches Ok((vs, p)) ==> pos <= p <= toks.len(),
    decreases toks.len() - pos,
{
    if 0 <= pos < toks.len() && toks[pos].kind is Space {
        lemma_number_run_bounds(toks, pos + 1);
        match sp_number_run(toks, pos + 1) {
            Err(_) => {},
            Ok((run, p1)) => {
                lemma_extra_runs_bounds(toks, p1, false);
            },
        }
    }
}

/// What parsing one primary production at `pos` yields: the expression and
/// the position after it, or the exact syntax or numeric error.
pub open spec fn sp_primary(toks: Seq<SpecToken>, pos: int) -> Result<(ExprV, int), EvalError>
    decreases toks.len() - pos, 0int,
{
    if !(0 <= pos < toks.len()) || toks[pos].kind is EOF {
        Err(EvalError::ExpectExpression { at: pos as usize })
    } else if toks[pos].kind is Space {
        Ok((ExprV::Sep(toks[pos].text), pos + 1))
    } else if toks[pos].kind is Number {
        match parse_u32_spec(toks[pos].text) {
            Err(e) => Err(e),
            Ok(v) => Ok((ExprV::Lit(v), pos + 1)),
        }
    } else if toks[pos].kind is LeftParen {
        match sp_expression(toks, pos + 1) {
            Err(e) => Err(e),
            Ok((inner, p)) => if 0 <= p < toks.len() && toks[p].kind is RightParen {
                Ok((ExprV::Group(Box::new(inner)), p + 1))
            } else {
                Err(EvalError::ExpectRightParen { at: p as usize })
            },
        }
    } else if is_operator(toks[pos].kind) {
        if !(pos + 1 < toks.len() && toks[pos + 1].kind is Space) {
            Err(EvalError::ExpectSpaceAfterOperator { at: (pos + 1) as usize })
        } else {
            match sp_number_run(toks, pos + 2) {
                Err(e) => Err(e),
                Ok((run1, p1)) => {
                    proof {
                        lemma_number_run_bounds(toks, pos + 2);
                    }
                    match sp_extra_runs(toks, p1, true) {
                        Err(e) => Err(e),
                        Ok((extra, p2)) => {
                            proof {
                                lemma_extra_runs_bounds(toks, p1, true);
                            }
                            let vals = run1 + seq![ExprV::Sep(seq![' '])] + extra;
                            if 0 <= p2 < toks.len() && toks[p2].kind is LeftParen {
                                match sp_expression(toks, p2 + 1) {
                                    Err(e) => Err(e),
                                    Ok((inner, p3)) => if 0 <= p3 < toks.len() && toks[p3].kind
                                        is RightParen {
                                        Ok(
                                            (
                                                ExprV::Bin(
                                                    toks[pos].kind,
                                                    vals.push(ExprV::Group(Box::new(inner))),
                                                ),
                                                p3 + 1,
                                            ),
                                        )
                                    } else {
                                        Err(EvalError::ExpectRightParen { at: p3 as usize })
                                    },
                                }
                            } else {
                                Ok((ExprV::Bin(toks[pos].kind, vals), p2))
                            }
                        },
                    }
                },
            }
        }
    } else {
        Err(EvalError::ExpectExpression { at: pos as usize })
    }
}

/// The unary tier: currently identical to the primary tier.
pub open spec fn sp_unary(toks: Seq<SpecToken>, pos: int) -> Result<(ExprV, int), EvalError>
    decreases toks.len() - pos, 1int,
{
    sp_primary(toks, pos)
}

/// The factor tier: currently identical to the unary tier.
pub open spec fn sp_factor(toks: Seq<SpecToken>, pos: int) -> Result<(ExprV, int), EvalError>
    decreases toks.len() - pos, 2int,
{
    sp_unary(toks, pos)
}

/// The term tier: currently identical to the factor tier.
pub open spec fn sp_term(toks: Seq<SpecToken>, pos: int) -> Result<(ExprV, int), EvalError>
    decreases toks.len() - pos, 3int,
{
    sp_factor(toks, pos)
}

/// What parsing one expression at `pos` yields.
pub open spec fn sp_expression(toks: Seq<SpecToken>, pos: int) -> Result<(ExprV, int), EvalError>
    decreases toks.len() - pos, 4int,
{
    sp_term(toks, pos)
}

/// What parsing a token sequence from the start yields; tokens after the
/// first full expression are left unread.
pub open spec fn parse_spec(toks: Seq<SpecToken>) -> Result<ExprV, EvalError> {
    match sp_expression(toks, 0) {
        Ok((e, p)) => Ok(e),
        Err(e) => Err(e),
    }
}

/// Whether the token at `pos` exists, is not the terminal token, and has
/// kind `tt`.
pub open spec fn spec_check(toks: Seq<SpecToken>, pos: int, tt: TokenType) -> bool {
    0 <= pos < toks.len() && !(toks[pos].kind is EOF) && toks[pos].kind == tt
}

/// How an exec parsing step must relate to what the grammar says at the
/// position it started from: on success the built tree's image and the new
/// position are the grammar's, on failure the error is the grammar's.
pub open spec fn parse_step(
    res: Result<(ExprV, int), EvalError>,
    r: Result<Expr, EvalError>,
    newpos: int,
) -> bool {
    match r {
        Ok(e) => res matches Ok((ev, p)) && expr_view(e) == ev && newpos == p,
        Err(err) => res matches Err(e2) && err == e2,
    }
}

/// The recursive-descent consumer of a scanned token sequence.
pub struct Parser {
    pub tokens: Vec<Token>,
    pub current: usize,
}

impl Parser {
    /// The token sequence under its mathematical image.
    pub open spec fn toks(self) -> Seq<SpecToken> {
        toks_view(self.tokens@)
    }

    /// The cursor invariant: the sequence ends with the terminal token and
    /// the cursor never passes it.
    pub open spec fn wf(self) -> bool {
        self.tokens@.len() >= 1 && self.current < self.tokens@.len() && self.toks().last().kind
            is EOF
    }

    pub fn new(tokens: Vec<Token>) -> (p: Parser)
        ensures
            p.tokens == tokens,
            p.current == 0usize,
    {
        Parser { tokens, current: 0 }
    }

    /// The token under the cursor.
    pub fn peek(&self) -> (t: Token)
        requires
            self.current < self.tokens@.len(),
        ensures
            t == self.tokens@[self.current as int],
    {
        self.tokens[self.current].clone()
    }

    /// The token just before the cursor.
    pub fn previous(&self) -> (t: Token)
        requires
            1 <= self.current,
            self.current <= self.tokens@.len(),
        ensures
            t == self.tokens@[self.current as int - 1],
    {
        self.tokens[self.current - 1].clone()
    }

    /// Whether the cursor has reached the terminal token.
    pub fn is_at_end(&self) -> (r: bool)
        requires
            self.current < self.tokens@.len(),
        ensures
            r == (self.toks()[self.current as int].kind is EOF),
    {
        proof {
            lemma_toks_view(self.tokens@);
        }
        let t = self.peek();
        t.kind == TokenType::EOF
    }

    /// Whether the token under the cursor has kind `token_type`; the
    /// terminal token matches no kind.
    pub fn check(&self, token_type: TokenType) -> (r: bool)
        requires
            self.wf(),
        ensures
            r == spec_check(self.toks(), self.current as int, token_type),
    {
        proof {
            lemma_toks_view(self.tokens@);
        }
        if self.is_at_end() {
            return false;
        }
        let t = self.peek();
        t.kind == token_type
    }

    /// Moves the cursor one token forward, never past the terminal token.
    pub fn advance(&mut self)
        requires
            old(self).wf(),
        ensures
            final(self).tokens == old(self).tokens,
            final(self).wf(),
            final(self).current == if old(self).toks()[old(self).current as int].kind is EOF {
                old(self).current as int
            } else {
                old(self).current + 1
            },
    {
        proof {
            lemma_toks_view(self.tokens@);
        }
        if !self.is_at_end() {
            // the length call bounds the cursor below usize::MAX for the increment
            let _n = self.tokens.len();
            self.current = self.current + 1;
        }
    }

    /// Consumes the token under the cursor when its kind is one of `types`.
    pub fn match_token(&mut self, types: Vec<TokenType>) -> (r: bool)
        requires
            old(self).wf(),
        ensures
            final(self).tokens == old(self).tokens,
            final(self).wf(),
            r == exists|k: int|
                0 <= k < types@.len() && spec_check(
                    old(self).toks(),
                    old(self).current as int,
                    types@[k],
                ),
            r ==> final(self).current == old(self).current + 1,
            !r ==> final(self).current == old(self).current,
    {
        let n = types.len();
        let mut k: usize = 0;
        while k < n
            invariant
                self.wf(),
                self.tokens == old(self).tokens,
                self.current == old(self).current,
                n == types@.len(),
                0 <= k <= n,
                forall|j: int|
                    0 <= j < k ==> !spec_check(
                        old(self).toks(),
                        old(self).current as int,
                        types@[j],
                    ),
            decreases n - k,
        {
            if self.check(types[k]) {
                self.advance();
                return true;
            }
            k = k + 1;
        }
        false
    }

    /// Consumes the token under the cursor when its kind is `token_type`,
    /// and reports `err` otherwise.
    pub fn consume(&mut self, token_type: TokenType, err: EvalError) -> (r: Result<
        (),
        EvalError,
    >)
        requires
            old(self).wf(),
        ensures
            final(self).tokens == old(self).tokens,
            final(self).wf(),
            spec_check(old(self).toks(), old(self).current as int, token_type) ==> r is Ok
                && final(self).current == old(self).current + 1,
            !spec_check(old(self).toks(), old(self).current as int, token_type) ==> r == Err::<
                (),
                EvalError,
            >(err) && final(self).current == old(self).current,
    {
        if self.check(token_type) {
            self.advance();
            Ok(())
        } else {
            Err(err)
        }
    }

    /// Parses one full expression from the cursor on; tokens after it are
    /// left unread.
    pub fn parse(&mut self) -> (r: Result<Expr, EvalError>)
        requires
            old(self).wf(),
        ensures
            final(self).tokens == old(self).tokens,
            final(self).wf(),
            parse_step(
                sp_expression(old(self).toks(), old(self).current as int),
                r,
                final(self).current as int,
            ),
    {
        self.expression()
    }

    /// The expression tier of the grammar.
    pub fn expression(&mut self) -> (r: Result<Expr, EvalError>)
        requires
            old(self).wf(),
        ensures
            final(self).tokens == old(self).tokens,
            final(self).wf(),
            parse_step(
                sp_expression(old(self).toks(), old(self).current as int),
                r,
                final(self).current as int,
            ),
        decreases self.tokens@.len() - self.current, 4int,
    {
        self.term()
    }

    /// The term tier of the grammar.
    pub fn term(&mut self) -> (r: Result<Expr, EvalError>)
        requires
            old(self).wf(),
        ensures
            final(self).tokens == old(self).tokens,
            final(self).wf(),
            parse_step(
                sp_term(old(self).toks(), old(self).current as int),
                r,
                final(self).current as int,
            ),
        decreases self.tokens@.len() - self.current, 3int,
    {
        self.factor()
    }

    /// The factor tier of the grammar.
    pub fn factor(&mut self) -> (r: Result<Expr, EvalError>)
        requires
            old(self).wf(),
        ensures
            final(self).tokens == old(self).tokens,
            final(self).wf(),
            parse_step(
                sp_factor(old(self).toks(), old(self).current as int),
                r,
                final(self).current as int,
            ),
        decreases self.tokens@.len() - self.current, 2int,
    {
        self.unary()
    }

    /// The unary tier of the grammar.
    pub fn unary(&mut self) -> (r: Result<Expr, EvalError>)
        requires
            old(self).wf(),
        ensures
            final(self).tokens == old(self).tokens,
            final(self).wf(),
            parse_step(
                sp_unary(old(self).toks(), old(self).current as int),
                r,
                final(self).current as int,
            ),
        decreases self.tokens@.len() - self.current, 1int,
    {
        self.primary()
    }

    /// Consumes a run of consecutive number tokens into literal leaves,
    /// exactly as [`sp_number_run`] says.
    #[verifier::loop_isolation(false)]
    fn number_run(&mut self) -> (r: Result<Vec<Expr>, EvalError>)
        requires
            old(self).wf(),
        ensures
            final(self).tokens == old(self).tokens,
            final(self).wf(),
            old(self).current <= final(self).current,
            match r {
                Ok(ves) => sp_number_run(old(self).toks(), old(self).current as int) matches Ok(
                    (vs, p),
                ) && view_list(ves@) == vs && final(self).current == p,
                Err(e) => sp_number_run(old(self).toks(), old(self).current as int) == Err::<
                    (Seq<ExprV>, int),
                    EvalError,
                >(e),
            },
    {
        let ghost toks = self.toks();
        let ghost pos0 = self.current as int;
        proof {
            lemma_toks_view(self.tokens@);
        }
        let mut out: Vec<Expr> = Vec::new();
        proof {
            assert(view_list(out@) =~= Seq::<ExprV>::empty());
        }
        while self.check(TokenType::Number)
            invariant
                self.wf(),
                self.tokens == old(self).tokens,
                toks == self.toks(),
                pos0 <= self.current as int,
                match sp_number_run(toks, self.current as int) {
                    Ok((vs, p)) => sp_number_run(toks, pos0) matches Ok((all, pp)) && pp == p
                        && all == view_list(out@) + vs,
                    Err(e) => sp_number_run(toks, pos0) == Err::<(Seq<ExprV>, int), EvalError>(e),
                },
            decreases self.tokens@.len() - self.current,
        {
            let ghost cur = self.current as int;
            self.advance();
            let t = self.previous();
            proof {
                lemma_toks_view(self.tokens@);
                assert(t@.text == toks[cur].text);
            }
            let pr = crate::numeric::parse_u32_str(t.literal.as_str());
            match pr {
                Err(e) => {
                    proof {
                        assert(toks[cur].kind is Number);
                        assert(parse_u32_spec(toks[cur].text) == Err::<u32, EvalError>(e));
                        assert(sp_number_run(toks, cur) == Err::<(Seq<ExprV>, int), EvalError>(e));
                    }
                    return Err(e);
                },
                Ok(v) => {
                    let ghost out_old = out@;
                    out.push(Expr::Literal(Literal::new(v)));
                    proof {
                        let lit = out@.last();
                        lemma_view_list_push(out_old, lit);
                        assert(expr_view(lit) == ExprV::Lit(v));
                        assert(parse_u32_spec(toks[cur].text) == Ok::<u32, EvalError>(v));
                        match sp_number_run(toks, cur + 1) {
                            Ok((vs2, p2)) => {
                                assert(sp_number_run(toks, cur) == Ok::<
                                    (Seq<ExprV>, int),
                                    EvalError,
                                >((seq![ExprV::Lit(v)] + vs2, p2)));
                                assert(view_list(out_old) + (seq![ExprV::Lit(v)] + vs2)
                                    =~= view_list(out@) + vs2);
                            },
                            Err(e2) => {
                                assert(sp_number_run(toks, cur) == Err::<
                                    (Seq<ExprV>, int),
                                    EvalError,
                                >(e2));
                            },
                        }
                    }
                },
            }
        }
        proof {
            assert(sp_number_run(toks, self.current as int) == Ok::<(Seq<ExprV>, int), EvalError>(
                (Seq::empty(), self.current as int),
            ));
            assert(view_list(out@) + Seq::<ExprV>::empty() =~= view_list(out@));
        }
        Ok(out)
    }

    /// Parses one primary production: a separator, a literal, a grouping,
    /// or an operator followed by its space-delimited number runs and an
    /// optional trailing grouping, exactly as [`sp_primary`] says.
    #[verifier::loop_isolation(false)]
    #[verifier::rlimit(100)]
    pub fn primary(&mut self) -> (r: Result<Expr, EvalError>)
        requires
            old(self).wf(),
        ensures
            final(self).tokens == old(self).tokens,
            final(self).wf(),
            parse_step(
                sp_primary(old(self).toks(), old(self).current as int),
                r,
                final(self).current as int,
            ),
        decreases self.tokens@.len() - self.current, 0int,
    {
        let ghost toks = self.toks();
        let ghost pos = self.current as int;
        proof {
            lemma_toks_view(self.tokens@);
        }
        if self.check(TokenType::Space) {
            self.advance();
            let t = self.previous();
            let e = Expr::Space(Space::new(t.literal));
            proof {
                assert(expr_view(e) == ExprV::Sep(toks[pos].text));
            }
            return Ok(e);
        }
        if self.check(TokenType::Number) {
            self.advance();
            let t = self.previous();
            proof {
                assert(t@.text == toks[pos].text);
            }
            let pr = crate::numeric::parse_u32_str(t.literal.as_str());
            match pr {
                Err(e) => {
                    return Err(e);
                },
                Ok(v) => {
                    let e = Expr::Literal(Literal::new(v));
                    proof {
                        assert(expr_view(e) == ExprV::Lit(v));
                    }
                    return Ok(e);
                },
            }
        }
        if self.check(TokenType::LeftParen) {
            self.advance();
            let r = self.expression();
            match r {
                Err(e) => {
                    return Err(e);
                },
                Ok(inner) => {
                    if self.check(TokenType::RightParen) {
                        self.advance();
                        let e = Expr::Grouping(Grouping { expr: Box::new(inner) });
                        return Ok(e);
                    } else {
                        return Err(EvalError::ExpectRightParen { at: self.current });
                    }
                },
            }
        }
        let is_op = self.check(TokenType::Plus) || self.check(TokenType::Minus) || self.check(
            TokenType::Star,
        ) || self.check(TokenType::Slash);
        if is_op {
            proof {
                assert(is_operator(toks[pos].kind));
            }
            self.advance();
            let operator = self.previous();
            match self.consume(
                TokenType::Space,
                EvalError::ExpectSpaceAfterOperator { at: self.current },
            ) {
                Err(e) => {
                    return Err(e);
                },
                Ok(()) => {},
            }
            let mut values = match self.number_run() {
                Err(e) => {
                    return Err(e);
                },
                Ok(v) => v,
            };
            let ghost vs1 = view_list(values@);
            let ghost p1 = self.current as int;
            let ghost vals_before_sep = values@;
            values.push(Expr::Space(Space::new(String::from_str(" "))));
            proof {
                reveal_strlit(" ");
                assert(" "@ =~= seq![' ']);
                lemma_view_list_push(vals_before_sep, values@.last());
                assert(expr_view(values@.last()) == ExprV::Sep(seq![' ']));
                assert(view_list(values@) =~= vs1 + seq![ExprV::Sep(seq![' '])]);
            }
            let ghost base = values@.len() as int;
            let ghost vals0 = values@;
            let mut first = true;
            proof {
                assert(values@.take(base) =~= vals0);
                assert(view_list(values@.skip(base)) =~= Seq::<ExprV>::empty());
            }
            while self.check(TokenType::Space)
                invariant
                    self.wf(),
                    self.tokens == old(self).tokens,
                    p1 <= self.current as int,
                    base <= values@.len(),
                    values@.take(base) == vals0,
                    match sp_extra_runs(toks, self.current as int, first) {
                        Ok((vs, p)) => sp_extra_runs(toks, p1, true) matches Ok((all, pp)) && pp
                            == p && all == view_list(values@.skip(base)) + vs,
                        Err(e) => sp_extra_runs(toks, p1, true) == Err::<
                            (Seq<ExprV>, int),
                            EvalError,
                        >(e),
                    },
                decreases self.tokens@.len() - self.current,
            {
                let ghost cur = self.current as int;
                let ghost vals_iter = values@;
                self.advance();
                if !first {
                    let ghost vtmp = values@;
                    values.push(Expr::Space(Space::new(String::from_str(" "))));
                    proof {
                        reveal_strlit(" ");
                        assert(" "@ =~= seq![' ']);
                        lemma_view_list_push(vtmp, values@.last());
                        assert(expr_view(values@.last()) == ExprV::Sep(seq![' ']));
                    }
                }
                let ghost vals_mid = values@;
                let mut run = match self.number_run() {
                    Err(e) => {
                        proof {
                            assert(sp_extra_runs(toks, cur, first) == Err::<
                                (Seq<ExprV>, int),
                                EvalError,
                            >(e));
                        }
                        return Err(e);
                    },
                    Ok(v) => v,
                };
                let ghost run_ghost = run@;
                let ghost runv = view_list(run@);
                let ghost pr = self.current as int;
                values.append(&mut run);
                proof {
                    assert(values@.take(base) =~= vals0);
                    assert(values@.skip(base) =~= vals_mid.skip(base) + values@.skip(
                        vals_mid.len() as int,
                    ));
                    lemma_view_list_concat(vals_mid.skip(base), values@.skip(vals_mid.len() as int));
                    assert(view_list(values@.skip(vals_mid.len() as int)) == runv) by {
                        assert(values@.skip(vals_mid.len() as int) =~= run_ghost);
                    };
                    assert(view_list(values@.skip(base)) =~= view_list(vals_mid.skip(base)) + runv);
                    if first {
                        assert(view_list(vals_mid.skip(base)) == view_list(vals_iter.skip(base)));
                    } else {
                        assert(vals_mid.skip(base) =~= vals_iter.skip(base).push(vals_mid.last()));
                        lemma_view_list_push(vals_iter.skip(base), vals_mid.last());
                        assert(view_list(vals_mid.skip(base)) =~= view_list(
                            vals_iter.skip(base),
                        ).push(ExprV::Sep(seq![' '])));
                    }
                    match sp_extra_runs(toks, pr, false) {
                        Ok((rest, p2)) => {
                            let here = if first {
                                runv
                            } else {
                                seq![ExprV::Sep(seq![' '])] + runv
                            };
                            assert(sp_extra_runs(toks, cur, first) == Ok::<
                                (Seq<ExprV>, int),
                                EvalError,
                            >((here + rest, p2)));
                            assert(view_list(vals_iter.skip(base)) + (here + rest) =~= view_list(
                                values@.skip(base),
                            ) + rest);
                        },
                        Err(e2) => {
                            assert(sp_extra_runs(toks, cur, first) == Err::<
                                (Seq<ExprV>, int),
                                EvalError,
                            >(e2));
                        },
                    }
                }
                first = false;
            }
            let ghost extra = view_list(values@.skip(base));
            let ghost p2 = self.current as int;
            proof {
                assert(sp_extra_runs(toks, p2, first) == Ok::<(Seq<ExprV>, int), EvalError>(
                    (Seq::empty(), p2),
                ));
                assert(view_list(values@.skip(base)) + Seq::<ExprV>::empty() =~= extra);
                assert(sp_extra_runs(toks, p1, true) matches Ok((all, pp)) && pp == p2 && all
                    == extra);
            }
            if self.check(TokenType::LeftParen) {
                self.advance();
                let r = self.expression();
                match r {
                    Err(e) => {
                        return Err(e);
                    },
                    Ok(inner) => {
                        if self.check(TokenType::RightParen) {
                            self.advance();
                            let ghost vb = values@;
                            values.push(Expr::Grouping(Grouping { expr: Box::new(inner) }));
                            proof {
                                lemma_view_list_push(vb, values@.last());
                                assert(expr_view(values@.last()) == ExprV::Group(
                                    Box::new(expr_view(inner)),
                                ));
                            }
                            let ghost gvals = values@;
                            let e = Expr::Binary(Binary { token: operator, values });
                            proof {
                                lemma_view_list_split(vb, base);
                                assert(vb.take(base) == vals0);
                                assert(vb.skip(base) == gvals.drop_last().skip(base)) by {
                                    assert(vb == gvals.drop_last());
                                };
                                assert(view_list(vb) =~= (vs1 + seq![ExprV::Sep(seq![' '])])
                                    + extra);
                                assert(view_list(gvals) =~= view_list(vb).push(
                                    ExprV::Group(Box::new(expr_view(inner))),
                                ));
                                assert(expr_view(e) == ExprV::Bin(
                                    toks[pos].kind,
                                    view_list(gvals),
                                ));
                            }
                            return Ok(e);
                        } else {
                            return Err(EvalError::ExpectRightParen { at: self.current });
                        }
                    },
                }
            }
            let ghost gvals = values@;
            let e = Expr::Binary(Binary { token: operator, values });
            proof {
                lemma_view_list_split(gvals, base);
                assert(gvals.take(base) == vals0);
                assert(view_list(gvals) =~= (vs1 + seq![ExprV::Sep(seq![' '])]) + extra);
                assert(expr_view(e) == ExprV::Bin(toks[pos].kind, view_list(gvals)));
            }
            return Ok(e);
        }
        proof {
            assert(sp_primary(toks, pos) == Err::<(ExprV, int), EvalError>(
                EvalError::ExpectExpression { at: pos as usize },
            ));
        }
        Err(EvalError::ExpectExpression { at: self.current })
    }
}

} // verus!
