use vstd::prelude::*;
use vstd::string::StringExecFns;

use crate::error::EvalError;
use crate::expr::{
    expr_view, lemma_view_list, view_list, Binary, Expr, ExprV, Grouping, Literal, Space,
};
use crate::numeric::{chars_of, dec_str, parse_u32_chars, parse_u32_spec, u32_to_string};
use crate::token_type::TokenType;

verus! {

/// Splitting a character sequence on every space, exactly as splitting a
/// string on the one-character separator does: `n` spaces yield `n + 1`
/// segments, empty segments included.
pub open spec fn split_sp(s: Seq<char>) -> Seq<Seq<char>>
    decreases s.len(),
{
    if s.len() == 0 {
        seq![s]
    } else if s[0] == ' ' {
        seq![Seq::<char>::empty()] + split_sp(s.drop_first())
    } else {
        let rest = split_sp(s.drop_first());
        seq![seq![s[0]] + rest[0]] + rest.drop_first()
    }
}

/// Splitting yields at least one segment.
pub proof fn lemma_split_nonempty(s: Seq<char>)
    ensures
        split_sp(s).len() >= 1,
    decreases s.len(),
{
    if s.len() > 0 {
        lemma_split_nonempty(s.drop_first());
    }
}

/// A text without spaces splits into the one segment it is.
pub proof fn lemma_split_no_space(s: Seq<char>)
    requires
        forall|i: int| 0 <= i < s.len() ==> s[i] != ' ',
    ensures
        split_sp(s) == seq![s],
    decreases s.len(),
{
    if s.len() > 0 {
        lemma_split_no_space(s.drop_first());
        assert(seq![s[0]] + s.drop_first() =~= s);
        assert(split_sp(s) =~= seq![s]);
    }
}

/// A single space between two space-free texts splits exactly there.
pub proof fn lemma_split_sep(s1: Seq<char>, s2: Seq<char>)
    requires
        forall|i: int| 0 <= i < s1.len() ==> s1[i] != ' ',
    ensures
        split_sp(s1 + seq![' '] + s2) == seq![s1] + split_sp(s2),
    decreases s1.len(),
{
    let s = s1 + seq![' '] + s2;
    lemma_split_nonempty(s2);
    if s1.len() == 0 {
        assert(s[0] == ' ');
        assert(s1 =~= Seq::<char>::empty());
        assert(s.drop_first() =~= s2);
        assert(split_sp(s) == seq![Seq::<char>::empty()] + split_sp(s2));
        assert(seq![Seq::<char>::empty()] + split_sp(s2) =~= seq![s1] + split_sp(s2));
    } else {
        lemma_split_sep(s1.drop_first(), s2);
        assert(s[0] == s1[0]);
        assert(s[0] != ' ');
        assert(s.drop_first() =~= s1.drop_first() + seq![' '] + s2);
        let rest = split_sp(s.drop_first());
        assert(rest == seq![s1.drop_first()] + split_sp(s2));
        assert(rest[0] == s1.drop_first());
        assert(seq![s[0]] + rest[0] =~= s1);
        assert(rest.drop_first() =~= split_sp(s2));
        assert(split_sp(s) == seq![seq![s[0]] + rest[0]] + rest.drop_first());
        assert(seq![seq![s[0]] + rest[0]] + rest.drop_first() =~= seq![s1] + split_sp(s2));
    }
}

/// The left-to-right fold of addition over the parsed segments, starting
/// from zero; the first bad segment or overflowing step decides the error.
pub open spec fn eval_plus(segs: Seq<Seq<char>>) -> Result<u32, EvalError>
    decreases segs.len(),
{
    if segs.len() == 0 {
        Ok(0u32)
    } else {
        match eval_plus(segs.drop_last()) {
            Err(e) => Err(e),
            Ok(acc) => match parse_u32_spec(segs.last()) {
                Err(e) => Err(e),
                Ok(v) => if acc + v > u32::MAX {
                    Err(EvalError::AddOverflow)
                } else {
                    Ok((acc + v) as u32)
                },
            },
        }
    }
}

/// The left-to-right fold of subtraction over the parsed segments, seeded
/// with the first value; order matters, and going below zero is an error.
pub open spec fn eval_minus(segs: Seq<Seq<char>>) -> Result<u32, EvalError>
    decreases segs.len(),
{
    if segs.len() == 0 {
        Err(EvalError::InvalidNumber)
    } else if segs.len() == 1 {
        parse_u32_spec(segs[0])
    } else {
        match eval_minus(segs.drop_last()) {
            Err(e) => Err(e),
            Ok(acc) => match parse_u32_spec(segs.last()) {
                Err(e) => Err(e),
                Ok(v) => if acc < v {
                    Err(EvalError::SubUnderflow)
                } else {
                    Ok((acc - v) as u32)
                },
            },
        }
    }
}

/// Once a prefix of the fold has failed, the whole fold fails the same way.
pub proof fn lemma_eval_plus_prefix_err(segs: Seq<Seq<char>>, i: int)
    requires
        0 <= i <= segs.len(),
        eval_plus(segs.take(i)) is Err,
    ensures
        eval_plus(segs) == eval_plus(segs.take(i)),
    decreases segs.len() - i,
{
    if i < segs.len() {
        assert(segs.take(i + 1).drop_last() =~= segs.take(i));
        lemma_eval_plus_prefix_err(segs, i + 1);
    } else {
        assert(segs.take(i) =~= segs);
    }
}

/// Once a prefix of the subtraction fold has failed, the whole fold fails
/// the same way.
pub proof fn lemma_eval_minus_prefix_err(segs: Seq<Seq<char>>, i: int)
    requires
        1 <= i <= segs.len(),
        eval_minus(segs.take(i)) is Err,
    ensures
        eval_minus(segs) == eval_minus(segs.take(i)),
    decreases segs.len() - i,
{
    if i < segs.len() {
        assert(segs.take(i + 1).drop_last() =~= segs.take(i));
        assert(segs.take(i + 1).len() >= 2);
        lemma_eval_minus_prefix_err(segs, i + 1);
    } else {
        assert(segs.take(i) =~= segs);
    }
}

/// What reducing the concatenated operand text under an operator yields.
pub open spec fn eval_op(op: TokenType, s: Seq<char>) -> Result<Seq<char>, EvalError> {
    if op is Plus {
        match eval_plus(split_sp(s)) {
            Ok(v) => Ok(dec_str(v as int)),
            Err(e) => Err(e),
        }
    } else if op is Minus {
        match eval_minus(split_sp(s)) {
            Ok(v) => Ok(dec_str(v as int)),
            Err(e) => Err(e),
        }
    } else {
        Err(EvalError::UnknownOperation)
    }
}

/// What evaluating an expression yields: a literal formats as its decimal
/// numeral, a separator yields its own text, a grouping is transparent, and
/// an operator node concatenates its evaluated operands, re-splits the text
/// on spaces, parses the segments and folds them under the operator.
pub open spec fn eval_spec(e: ExprV) -> Result<Seq<char>, EvalError>
    decreases e, 1int,
{
    match e {
        ExprV::Lit(v) => Ok(dec_str(v as int)),
        ExprV::Sep(t) => Ok(t),
        ExprV::Group(inner) => eval_spec(*inner),
        ExprV::Bin(op, vs) => match eval_concat(vs) {
            Err(e) => Err(e),
            Ok(s) => eval_op(op, s),
        },
    }
}

/// The concatenation, with no added delimiter, of the evaluations of a
/// sequence of operands; the first failing operand decides the error.
pub open spec fn eval_concat(es: Seq<ExprV>) -> Result<Seq<char>, EvalError>
    decreases es, 0int,
{
    if es.len() == 0 {
        Ok(Seq::empty())
    } else {
        match eval_spec(es[0]) {
            Err(e) => Err(e),
            Ok(s) => match eval_concat(es.drop_first()) {
                Err(e) => Err(e),
                Ok(rest) => Ok(s + rest),
            },
        }
    }
}

/// One step of [`eval_concat`], read off at an arbitrary index.
pub proof fn lemma_eval_concat_skip(vs: Seq<ExprV>, i: int)
    requires
        0 <= i < vs.len(),
    ensures
        eval_concat(vs.skip(i)) == (match eval_spec(vs[i]) {
            Err(e) => Err::<Seq<char>, EvalError>(e),
            Ok(s) => match eval_concat(vs.skip(i + 1)) {
                Err(e) => Err(e),
                Ok(rest) => Ok(s + rest),
            },
        }),
{
    assert(vs.skip(i).len() > 0);
    assert(vs.skip(i)[0] == vs[i]);
    assert(vs.skip(i).drop_first() =~= vs.skip(i + 1));
}

/// The exec result of an evaluation, as the mathematical value it stands for.
pub open spec fn res_view(r: Result<String, EvalError>) -> Result<Seq<char>, EvalError> {
    match r {
        Ok(s) => Ok(s@),
        Err(e) => Err(e),
    }
}

/// The character contents of a sequence of segments.
pub open spec fn segs_view(segs: Seq<Vec<char>>) -> Seq<Seq<char>> {
    segs.map_values(|v: Vec<char>| v@)
}

proof fn lemma_segs_push(segs: Seq<Vec<char>>, v: Vec<char>)
    ensures
        segs_view(segs.push(v)) =~= segs_view(segs).push(v@),
{
}

/// The first segment of `ss` extended on the left with `p`.
spec fn prepend_first(p: Seq<char>, ss: Seq<Seq<char>>) -> Seq<Seq<char>>
    recommends
        ss.len() >= 1,
{
    seq![p + ss[0]] + ss.drop_first()
}

/// Splits on every space character, exactly as [`split_sp`] says.
fn split_spaces(cs: &Vec<char>) -> (segs: Vec<Vec<char>>)
    ensures
        segs_view(segs@) == split_sp(cs@),
{
    let n = cs.len();
    let mut segs: Vec<Vec<char>> = Vec::new();
    let mut cur: Vec<char> = Vec::new();
    let mut i: usize = 0;
    proof {
        lemma_split_nonempty(cs@);
        assert(cs@.skip(0) =~= cs@);
        assert(Seq::<char>::empty() + split_sp(cs@)[0] =~= split_sp(cs@)[0]);
        assert(prepend_first(Seq::<char>::empty(), split_sp(cs@)) =~= split_sp(cs@));
        assert(segs_view(Seq::<Vec<char>>::empty()) =~= Seq::<Seq<char>>::empty());
    }
    while i < n
        invariant
            n == cs@.len(),
            0 <= i <= n,
            split_sp(cs@) == segs_view(segs@) + prepend_first(cur@, split_sp(cs@.skip(i as int))),
        decreases n - i,
    {
        let ghost tail = cs@.skip(i as int);
        proof {
            assert(tail.len() > 0);
            assert(tail[0] == cs@[i as int]);
            assert(tail.drop_first() =~= cs@.skip(i as int + 1));
            lemma_split_nonempty(cs@.skip(i as int + 1));
        }
        let c = cs[i];
        if c == ' ' {
            proof {
                let t = split_sp(cs@.skip(i as int + 1));
                assert(split_sp(tail) == seq![Seq::<char>::empty()] + t);
                assert(prepend_first(cur@, split_sp(tail)) =~= seq![cur@] + t);
                lemma_segs_push(segs@, cur);
                assert(segs_view(segs@.push(cur)) + prepend_first(Seq::<char>::empty(), t)
                    =~= segs_view(segs@) + (seq![cur@] + t)) by {
                    assert(prepend_first(Seq::<char>::empty(), t) =~= t);
                    assert(segs_view(segs@.push(cur)) =~= segs_view(segs@).push(cur@));
                };
                assert(segs_view(segs@) + prepend_first(cur@, split_sp(tail)) =~= segs_view(
                    segs@,
                ) + (seq![cur@] + t));
            }
            segs.push(cur);
            cur = Vec::new();
        } else {
            proof {
                let t = split_sp(cs@.skip(i as int + 1));
                assert(split_sp(tail) == seq![seq![tail[0]] + t[0]] + t.drop_first());
                assert(cur@ + (seq![cs@[i as int]] + t[0]) =~= cur@.push(cs@[i as int]) + t[0]);
                assert(prepend_first(cur@, split_sp(tail)) =~= prepend_first(
                    cur@.push(cs@[i as int]),
                    t,
                )) by {
                    assert(split_sp(tail).drop_first() =~= t.drop_first());
                };
            }
            cur.push(c);
        }
        i = i + 1;
    }
    proof {
        assert(cs@.skip(n as int) =~= Seq::<char>::empty());
        assert(split_sp(cs@.skip(n as int)) == seq![cs@.skip(n as int)]);
        assert(prepend_first(cur@, split_sp(cs@.skip(n as int))) =~= seq![cur@]) by {
            assert(cur@ + cs@.skip(n as int) =~= cur@);
        };
        lemma_segs_push(segs@, cur);
        assert(segs_view(segs@.push(cur)) =~= segs_view(segs@) + seq![cur@]);
    }
    segs.push(cur);
    segs
}

/// Adds up all segments left to right, exactly as [`eval_plus`] says.
fn add_segments(segs: &Vec<Vec<char>>) -> (r: Result<u32, EvalError>)
    ensures
        r == eval_plus(segs_view(segs@)),
{
    let ghost sv = segs_view(segs@);
    let n = segs.len();
    let mut acc: u32 = 0;
    let mut i: usize = 0;
    proof {
        assert(sv.take(0) =~= Seq::<Seq<char>>::empty());
    }
    while i < n
        invariant
            sv == segs_view(segs@),
            n == segs@.len(),
            sv.len() == n,
            0 <= i <= n,
            eval_plus(sv.take(i as int)) == Ok::<u32, EvalError>(acc),
        decreases n - i,
    {
        proof {
            assert(sv[i as int] == segs@[i as int]@);
            assert(sv.take(i as int + 1).drop_last() =~= sv.take(i as int));
            assert(sv.take(i as int + 1).last() == sv[i as int]);
        }
        let pr = parse_u32_chars(&segs[i]);
        match pr {
            Err(e) => {
                proof {
                    assert(eval_plus(sv.take(i as int + 1)) == Err::<u32, EvalError>(e));
                    lemma_eval_plus_prefix_err(sv, i as int + 1);
                }
                return Err(e);
            },
            Ok(v) => {
                if v > u32::MAX - acc {
                    proof {
                        assert(eval_plus(sv.take(i as int + 1)) == Err::<u32, EvalError>(
                            EvalError::AddOverflow,
                        ));
                        lemma_eval_plus_prefix_err(sv, i as int + 1);
                    }
                    return Err(EvalError::AddOverflow);
                }
                acc = acc + v;
            },
        }
        i = i + 1;
    }
    proof {
        assert(sv.take(n as int) =~= sv);
    }
    Ok(acc)
}

/// Subtracts the later segments from the first, left to right, exactly as
/// [`eval_minus`] says.
fn sub_segments(segs: &Vec<Vec<char>>) -> (r: Result<u32, EvalError>)
    ensures
        r == eval_minus(segs_view(segs@)),
{
    let ghost sv = segs_view(segs@);
    let n = segs.len();
    if n == 0 {
        return Err(EvalError::InvalidNumber);
    }
    let first = parse_u32_chars(&segs[0]);
    proof {
        assert(sv.take(1)[0] == sv[0]);
        assert(sv.take(1).len() == 1);
        assert(sv[0] == segs@[0]@);
    }
    let mut acc: u32;
    match first {
        Err(e) => {
            proof {
                assert(eval_minus(sv.take(1)) == Err::<u32, EvalError>(e));
                lemma_eval_minus_prefix_err(sv, 1);
            }
            return Err(e);
        },
        Ok(v) => {
            acc = v;
        },
    }
    let mut i: usize = 1;
    while i < n
        invariant
            sv == segs_view(segs@),
            n == segs@.len(),
            sv.len() == n,
            1 <= i <= n,
            eval_minus(sv.take(i as int)) == Ok::<u32, EvalError>(acc),
        decreases n - i,
    {
        proof {
            assert(sv[i as int] == segs@[i as int]@);
            assert(sv.take(i as int + 1).drop_last() =~= sv.take(i as int));
            assert(sv.take(i as int + 1).last() == sv[i as int]);
            assert(sv.take(i as int + 1).len() >= 2);
        }
        let pr = parse_u32_chars(&segs[i]);
        match pr {
            Err(e) => {
                proof {
                    assert(eval_minus(sv.take(i as int + 1)) == Err::<u32, EvalError>(e));
                    lemma_eval_minus_prefix_err(sv, i as int + 1);
                }
                return Err(e);
            },
            Ok(v) => {
                if acc < v {
                    proof {
                        assert(eval_minus(sv.take(i as int + 1)) == Err::<u32, EvalError>(
                            EvalError::SubUnderflow,
                        ));
                        lemma_eval_minus_prefix_err(sv, i as int + 1);
                    }
                    return Err(EvalError::SubUnderflow);
                }
                acc = acc - v;
            },
        }
        i = i + 1;
    }
    proof {
        assert(sv.take(n as int) =~= sv);
    }
    Ok(acc)
}

/// The tree-walking evaluator.
pub struct Interpreter {}

impl Interpreter {
    pub fn new() -> (i: Interpreter)
        ensures
            i == (Interpreter {  }),
    {
        Interpreter {  }
    }

    /// The textual form of an evaluation result; results already are text.
    pub fn stringify(&self, value: String) -> (r: String)
        ensures
            r == value,
    {
        value
    }

    pub fn visit_literal_expr(&self, expr: &Literal) -> (r: String)
        ensures
            r@ == dec_str(expr.value as int),
    {
        u32_to_string(expr.value)
    }

    pub fn visit_space_expr(&self, expr: &Space) -> (r: String)
        ensures
            r@ == expr.value@,
    {
        expr.value.clone()
    }

    pub fn visit_grouping_expr(&self, expr: &Grouping) -> (r: Result<String, EvalError>)
        ensures
            res_view(r) == eval_spec(expr_view(*expr.expr)),
        decreases *expr, 0int,
    {
        self.evaluate(&*expr.expr)
    }

    /// Reduces an expression tree to its textual value, exactly as
    /// [`eval_spec`] says of the tree's mathematical image.
    pub fn evaluate(&self, expr: &Expr) -> (r: Result<String, EvalError>)
        ensures
            res_view(r) == eval_spec(expr_view(*expr)),
        decreases *expr, 3int,
    {
        expr.accept(Interpreter {  })
    }

    pub fn visit_binary_expr(&self, expr: &Binary) -> (r: Result<String, EvalError>)
        ensures
            res_view(r) == eval_spec(ExprV::Bin(expr.token.kind, view_list(expr.values@))),
        decreases *expr, 0int,
    {
        let ghost vl = view_list(expr.values@);
        proof {
            lemma_view_list(expr.values@);
        }
        let n = expr.values.len();
        let mut acc = String::new();
        let mut i: usize = 0;
        proof {
            assert(vl.skip(0) =~= vl);
        }
        while i < n
            invariant
                vl == view_list(expr.values@),
                n == expr.values@.len(),
                vl.len() == n,
                forall|j: int| 0 <= j < n ==> vl[j] == expr_view(expr.values@[j]),
                0 <= i <= n,
                match eval_concat(vl.skip(i as int)) {
                    Ok(rest) => eval_concat(vl) matches Ok(all) && all == acc@ + rest,
                    Err(e) => eval_concat(vl) == Err::<Seq<char>, EvalError>(e),
                },
            decreases n - i,
        {
            proof {
                lemma_eval_concat_skip(vl, i as int);
            }
            let r = self.evaluate(&expr.values[i]);
            match r {
                Err(e) => {
                    proof {
                        assert(eval_concat(vl.skip(i as int)) == Err::<Seq<char>, EvalError>(e));
                    }
                    return Err(e);
                },
                Ok(part) => {
                    let ghost acc_old = acc@;
                    acc.append(part.as_str());
                    proof {
                        match eval_concat(vl.skip(i as int + 1)) {
                            Ok(rest1) => {
                                assert(acc_old + (part@ + rest1) =~= acc@ + rest1);
                            },
                            Err(_) => {},
                        }
                    }
                },
            }
            i = i + 1;
        }
        proof {
            assert(vl.skip(n as int) =~= Seq::<ExprV>::empty());
            assert(eval_concat(vl.skip(n as int)) == Ok::<Seq<char>, EvalError>(Seq::empty()));
            assert(acc@ + Seq::<char>::empty() =~= acc@);
            assert(eval_concat(vl) == Ok::<Seq<char>, EvalError>(acc@));
        }
        let k = expr.token.kind;
        match k {
            TokenType::Plus => {
                let cs = chars_of(acc.as_str());
                let segs = split_spaces(&cs);
                match add_segments(&segs) {
                    Ok(v) => Ok(u32_to_string(v)),
                    Err(e) => Err(e),
                }
            },
            TokenType::Minus => {
                let cs = chars_of(acc.as_str());
                let segs = split_spaces(&cs);
                match sub_segments(&segs) {
                    Ok(v) => Ok(u32_to_string(v)),
                    Err(e) => Err(e),
                }
            },
            _ => Err(EvalError::UnknownOperation),
        }
    }
}

} // verus!
