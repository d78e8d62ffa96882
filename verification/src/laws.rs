use vstd::prelude::*;

use crate::error::EvalError;
use crate::expr::ExprV;
use crate::interpreter::{
    eval_concat, eval_minus, eval_plus, eval_spec, lemma_split_no_space, lemma_split_sep, split_sp,
};
use crate::numeric::{dec_str, is_digit_char, lemma_dec_str, parse_u32_spec};
use crate::parser::{
    parse_spec, sp_expression, sp_extra_runs, sp_number_run, sp_primary,
};
use crate::run_spec;
use crate::scanner::{
    head_len, head_token, kind_of_char, lemma_digit_run_is, scan_char_ok, scan_from, scan_spec,
};
use crate::token::{eof_token, SpecToken};
use crate::token_type::TokenType;

verus! {

/// A bare decimal literal runs through the whole pipeline unchanged: for
/// every unsigned 32-bit integer, scanning, parsing and evaluating its
/// decimal numeral yields that same numeral.
pub proof fn lemma_literal_round_trip(n: u32)
    ensures
        run_spec(dec_str(n as int)) == Ok::<Seq<char>, EvalError>(dec_str(n as int)),
{
    let s = dec_str(n as int);
    lemma_dec_str(n as int);
    let len = s.len() as int;
    lemma_digit_run_is(s, 0, len);
    assert(scan_from(s, len) == Ok::<Seq<SpecToken>, EvalError>(Seq::empty()));
    assert(is_digit_char(s[0]));
    assert(scan_char_ok(s[0]));
    assert(head_len(s, 0) == len);
    let numtok = head_token(s, 0);
    assert(numtok.kind == TokenType::Number);
    assert(numtok.text =~= s);
    assert(scan_from(s, 0) matches Ok(v) && v =~= seq![numtok]);
    let toks = seq![numtok].push(eof_token());
    assert(scan_spec(s) matches Ok(v) && v =~= toks);
    assert(toks.len() == 2);
    assert(toks[0] == numtok);
    assert(parse_u32_spec(s) == Ok::<u32, EvalError>(n));
    assert(sp_primary(toks, 0) == Ok::<(ExprV, int), EvalError>((ExprV::Lit(n), 1)));
    assert(sp_expression(toks, 0) == sp_primary(toks, 0));
    assert(parse_spec(toks) == Ok::<ExprV, EvalError>(ExprV::Lit(n)));
    assert(eval_spec(ExprV::Lit(n)) == Ok::<Seq<char>, EvalError>(s));
}

/// A `+` or `-` token that is not followed by a space token never parses:
/// it is reported as the missing space, whatever else follows.
pub proof fn lemma_operator_requires_space(toks: Seq<SpecToken>)
    requires
        toks.len() >= 1,
        toks[0].kind is Plus || toks[0].kind is Minus,
        toks.len() >= 2 ==> !(toks[1].kind is Space),
    ensures
        parse_spec(toks) == Err::<ExprV, EvalError>(
            EvalError::ExpectSpaceAfterOperator { at: 1 },
        ),
{
    assert(sp_primary(toks, 0) == Err::<(ExprV, int), EvalError>(
        EvalError::ExpectSpaceAfterOperator { at: 1 },
    ));
    assert(sp_expression(toks, 0) == sp_primary(toks, 0));
}

/// The source text applying operator `op` to the numerals of `a` and `b`.
pub open spec fn op_source(op: char, a: u32, b: u32) -> Seq<char> {
    seq![op, ' '] + dec_str(a as int) + seq![' '] + dec_str(b as int)
}

proof fn lemma_scan_op_source(op: char, a: u32, b: u32)
    requires
        op == '+' || op == '-',
    ensures
        scan_spec(op_source(op, a, b)) matches Ok(v) && v =~= seq![
            SpecToken { kind: kind_of_char(op), text: seq![op] },
            SpecToken { kind: TokenType::Space, text: seq![' '] },
            SpecToken { kind: TokenType::Number, text: dec_str(a as int) },
            SpecToken { kind: TokenType::Space, text: seq![' '] },
            SpecToken { kind: TokenType::Number, text: dec_str(b as int) },
            eof_token(),
        ],
{
    let s = op_source(op, a, b);
    let da = dec_str(a as int);
    let db = dec_str(b as int);
    lemma_dec_str(a as int);
    lemma_dec_str(b as int);
    let la = da.len() as int;
    let lb = db.len() as int;
    let len = s.len() as int;
    assert(len == 3 + la + lb);
    assert(s[0] == op);
    assert(s[1] == ' ');
    assert forall|i: int| 0 <= i < la implies s[2 + i] == da[i] by {}
    assert(s[2 + la] == ' ');
    assert forall|j: int| 0 <= j < lb implies s[3 + la + j] == db[j] by {}
    assert(scan_from(s, len) == Ok::<Seq<SpecToken>, EvalError>(Seq::empty()));
    // the second numeral
    lemma_digit_run_is(s, 3 + la, lb);
    assert(is_digit_char(s[3 + la]));
    assert(head_len(s, 3 + la) == lb);
    assert(head_token(s, 3 + la).kind == TokenType::Number);
    assert(head_token(s, 3 + la).text =~= db);
    assert(scan_from(s, 3 + la) matches Ok(v) && v =~= seq![head_token(s, 3 + la)]);
    // the second space
    assert(!is_digit_char(s[2 + la]));
    assert(head_len(s, 2 + la) == 1);
    assert(head_token(s, 2 + la).kind == TokenType::Space);
    assert(head_token(s, 2 + la).text =~= seq![' ']);
    assert(scan_from(s, 2 + la) matches Ok(v) && v =~= seq![
        head_token(s, 2 + la),
        head_token(s, 3 + la),
    ]);
    // the first numeral
    lemma_digit_run_is(s, 2, la);
    assert(is_digit_char(s[2]));
    assert(head_len(s, 2) == la);
    assert(head_token(s, 2).kind == TokenType::Number);
    assert(head_token(s, 2).text =~= da);
    assert(scan_from(s, 2) matches Ok(v) && v =~= seq![
        head_token(s, 2),
        head_token(s, 2 + la),
        head_token(s, 3 + la),
    ]);
    // the first space
    assert(!is_digit_char(s[1]));
    assert(head_len(s, 1) == 1);
    assert(head_token(s, 1).kind == TokenType::Space);
    assert(head_token(s, 1).text =~= seq![' ']);
    assert(scan_from(s, 1) matches Ok(v) && v =~= seq![
        head_token(s, 1),
        head_token(s, 2),
        head_token(s, 2 + la),
        head_token(s, 3 + la),
    ]);
    // the operator
    assert(!is_digit_char(s[0]));
    assert(scan_char_ok(s[0]));
    assert(head_len(s, 0) == 1);
    assert(head_token(s, 0).kind == kind_of_char(op));
    assert(head_token(s, 0).text =~= seq![op]);
    assert(scan_from(s, 0) matches Ok(v) && v =~= seq![
        head_token(s, 0),
        head_token(s, 1),
        head_token(s, 2),
        head_token(s, 2 + la),
        head_token(s, 3 + la),
    ]);
}

proof fn lemma_parse_op_source(op: char, a: u32, b: u32)
    requires
        op == '+' || op == '-',
    ensures
        scan_spec(op_source(op, a, b)) matches Ok(toks) && parse_spec(toks) == Ok::<
            ExprV,
            EvalError,
        >(
            ExprV::Bin(
                kind_of_char(op),
                seq![ExprV::Lit(a), ExprV::Sep(seq![' ']), ExprV::Lit(b)],
            ),
        ),
{
    lemma_scan_op_source(op, a, b);
    lemma_dec_str(a as int);
    lemma_dec_str(b as int);
    let toks = scan_spec(op_source(op, a, b))->Ok_0;
    assert(toks.len() == 6);
    assert(toks[0].kind == kind_of_char(op));
    assert(kind_of_char(op) is Plus || kind_of_char(op) is Minus);
    assert(toks[1].kind is Space);
    assert(toks[2].kind is Number && toks[2].text == dec_str(a as int));
    assert(toks[3].kind is Space);
    assert(toks[4].kind is Number && toks[4].text == dec_str(b as int));
    assert(toks[5].kind is EOF);
    assert(parse_u32_spec(toks[2].text) == Ok::<u32, EvalError>(a));
    assert(parse_u32_spec(toks[4].text) == Ok::<u32, EvalError>(b));
    assert(sp_number_run(toks, 3) == Ok::<(Seq<ExprV>, int), EvalError>((Seq::empty(), 3)));
    assert(sp_number_run(toks, 2) matches Ok((vs, p)) && vs =~= seq![ExprV::Lit(a)] && p == 3);
    assert(sp_number_run(toks, 5) == Ok::<(Seq<ExprV>, int), EvalError>((Seq::empty(), 5)));
    assert(sp_number_run(toks, 4) matches Ok((vs, p)) && vs =~= seq![ExprV::Lit(b)] && p == 5);
    assert(sp_extra_runs(toks, 5, false) == Ok::<(Seq<ExprV>, int), EvalError>(
        (Seq::empty(), 5),
    ));
    assert(sp_extra_runs(toks, 3, true) matches Ok((vs, p)) && vs =~= seq![ExprV::Lit(b)] && p
        == 5);
    assert(sp_primary(toks, 0) matches Ok((e, p)) && p == 5 && e == ExprV::Bin(
        kind_of_char(op),
        sp_number_run(toks, 2)->Ok_0.0 + seq![ExprV::Sep(seq![' '])] + sp_extra_runs(
            toks,
            3,
            true,
        )->Ok_0.0,
    ));
    assert(sp_number_run(toks, 2)->Ok_0.0 + seq![ExprV::Sep(seq![' '])] + sp_extra_runs(
        toks,
        3,
        true,
    )->Ok_0.0 =~= seq![ExprV::Lit(a), ExprV::Sep(seq![' ']), ExprV::Lit(b)]);
    assert(sp_expression(toks, 0) == sp_primary(toks, 0));
}

/// Parentheses are transparent to the value: a grouping evaluates to
/// exactly what its child evaluates to.
pub proof fn lemma_grouping_transparent(e: ExprV)
    ensures
        eval_spec(ExprV::Group(Box::new(e))) == eval_spec(e),
{
}

/// Addition over a two-run source computes the sum: `+ a b` yields the
/// numeral of `a + b` whenever it fits.
pub proof fn lemma_plus_source_value(a: u32, b: u32)
    requires
        a + b <= u32::MAX,
    ensures
        run_spec(op_source('+', a, b)) == Ok::<Seq<char>, EvalError>(dec_str((a + b) as int)),
{
    lemma_parse_op_source('+', a, b);
    lemma_dec_str(a as int);
    lemma_dec_str(b as int);
    let da = dec_str(a as int);
    let db = dec_str(b as int);
    let vs = seq![ExprV::Lit(a), ExprV::Sep(seq![' ']), ExprV::Lit(b)];
    assert(eval_concat(vs.skip(3)) == Ok::<Seq<char>, EvalError>(Seq::empty()));
    assert(vs.skip(2) =~= seq![ExprV::Lit(b)]);
    assert(eval_concat(vs.skip(2)) matches Ok(t) && t =~= db) by {
        assert(vs.skip(2).drop_first() =~= vs.skip(3));
        assert(vs.skip(2)[0] == ExprV::Lit(b));
        assert(eval_spec(ExprV::Lit(b)) == Ok::<Seq<char>, EvalError>(db));
        assert(db + Seq::<char>::empty() =~= db);
    }
    assert(eval_concat(vs.skip(1)) matches Ok(t) && t =~= seq![' '] + db) by {
        assert(vs.skip(1).drop_first() =~= vs.skip(2));
        assert(vs.skip(1)[0] == ExprV::Sep(seq![' ']));
        assert(eval_spec(ExprV::Sep(seq![' '])) == Ok::<Seq<char>, EvalError>(seq![' ']));
        assert(seq![' '] + eval_concat(vs.skip(2))->Ok_0 =~= seq![' '] + db);
    }
    assert(eval_concat(vs) matches Ok(t) && t =~= da + seq![' '] + db) by {
        assert(vs.drop_first() =~= vs.skip(1));
        assert(vs[0] == ExprV::Lit(a));
        assert(eval_spec(ExprV::Lit(a)) == Ok::<Seq<char>, EvalError>(da));
        assert(da + (seq![' '] + db) =~= da + seq![' '] + db);
        assert(da + eval_concat(vs.skip(1))->Ok_0 =~= da + seq![' '] + db);
    }
    assert forall|i: int| 0 <= i < da.len() implies da[i] != ' ' by {
        assert(is_digit_char(da[i]));
    }
    assert forall|i: int| 0 <= i < db.len() implies db[i] != ' ' by {
        assert(is_digit_char(db[i]));
    }
    lemma_split_sep(da, db);
    lemma_split_no_space(db);
    let segs = seq![da, db];
    assert(split_sp(da + seq![' '] + db) =~= segs);
    assert(eval_plus(segs.drop_last()) matches Ok(v) && v == a) by {
        assert(segs.drop_last() =~= seq![da]);
        assert(seq![da].drop_last() =~= Seq::<Seq<char>>::empty());
        assert(eval_plus(Seq::<Seq<char>>::empty()) == Ok::<u32, EvalError>(0u32));
        assert(seq![da].last() == da);
    }
    assert(eval_plus(segs) == Ok::<u32, EvalError>((a + b) as u32));
    assert(eval_spec(ExprV::Bin(TokenType::Plus, vs)) == Ok::<Seq<char>, EvalError>(
        dec_str((a + b) as int),
    ));
}

/// Addition is commutative: evaluating `+ a b` and `+ b a` yields the same
/// numeral, namely the sum, whenever no overflow occurs.
pub proof fn lemma_plus_commutative(a: u32, b: u32)
    requires
        a + b <= u32::MAX,
    ensures
        run_spec(op_source('+', a, b)) == run_spec(op_source('+', b, a)),
        run_spec(op_source('+', a, b)) == Ok::<Seq<char>, EvalError>(dec_str((a + b) as int)),
{
    lemma_plus_source_value(a, b);
    lemma_plus_source_value(b, a);
}

/// Subtraction is a strict left-to-right fold seeded with the first
/// value: `- a b` yields the numeral of their difference, and goes below
/// zero exactly when `b` exceeds `a`.
pub proof fn lemma_minus_source_value(a: u32, b: u32)
    ensures
        a >= b ==> run_spec(op_source('-', a, b)) == Ok::<Seq<char>, EvalError>(
            dec_str((a - b) as int),
        ),
        a < b ==> run_spec(op_source('-', a, b)) == Err::<Seq<char>, EvalError>(
            EvalError::SubUnderflow,
        ),
{
    lemma_parse_op_source('-', a, b);
    lemma_dec_str(a as int);
    lemma_dec_str(b as int);
    let da = dec_str(a as int);
    let db = dec_str(b as int);
    let vs = seq![ExprV::Lit(a), ExprV::Sep(seq![' ']), ExprV::Lit(b)];
    assert(eval_concat(vs.skip(3)) == Ok::<Seq<char>, EvalError>(Seq::empty()));
    assert(eval_concat(vs.skip(2)) matches Ok(t) && t =~= db) by {
        assert(vs.skip(2).drop_first() =~= vs.skip(3));
        assert(vs.skip(2)[0] == ExprV::Lit(b));
        assert(eval_spec(ExprV::Lit(b)) == Ok::<Seq<char>, EvalError>(db));
        assert(db + Seq::<char>::empty() =~= db);
    }
    assert(eval_concat(vs.skip(1)) matches Ok(t) && t =~= seq![' '] + db) by {
        assert(vs.skip(1).drop_first() =~= vs.skip(2));
        assert(vs.skip(1)[0] == ExprV::Sep(seq![' ']));
        assert(eval_spec(ExprV::Sep(seq![' '])) == Ok::<Seq<char>, EvalError>(seq![' ']));
        assert(seq![' '] + eval_concat(vs.skip(2))->Ok_0 =~= seq![' '] + db);
    }
    assert(eval_concat(vs) matches Ok(t) && t =~= da + seq![' '] + db) by {
        assert(vs.drop_first() =~= vs.skip(1));
        assert(vs[0] == ExprV::Lit(a));
        assert(eval_spec(ExprV::Lit(a)) == Ok::<Seq<char>, EvalError>(da));
        assert(da + (seq![' '] + db) =~= da + seq![' '] + db);
        assert(da + eval_concat(vs.skip(1))->Ok_0 =~= da + seq![' '] + db);
    }
    assert forall|i: int| 0 <= i < da.len() implies da[i] != ' ' by {
        assert(is_digit_char(da[i]));
    }
    assert forall|i: int| 0 <= i < db.len() implies db[i] != ' ' by {
        assert(is_digit_char(db[i]));
    }
    lemma_split_sep(da, db);
    lemma_split_no_space(db);
    let segs = seq![da, db];
    assert(split_sp(da + seq![' '] + db) =~= segs);
    assert(eval_minus(segs.drop_last()) matches Ok(v) && v == a) by {
        assert(segs.drop_last() =~= seq![da]);
        assert(seq![da][0] == da);
    }
    assert(segs.last() == db);
    if a >= b {
        assert(eval_minus(segs) == Ok::<u32, EvalError>((a - b) as u32));
        assert(eval_spec(ExprV::Bin(TokenType::Minus, vs)) == Ok::<Seq<char>, EvalError>(
            dec_str((a - b) as int),
        ));
    } else {
        assert(eval_minus(segs) == Err::<u32, EvalError>(EvalError::SubUnderflow));
        assert(eval_spec(ExprV::Bin(TokenType::Minus, vs)) == Err::<Seq<char>, EvalError>(
            EvalError::SubUnderflow,
        ));
    }
}

/// Addition is associative over the segment fold: folding two segment
/// lists separately and adding the results equals folding their
/// concatenation, whenever the total fits.
pub proof fn lemma_plus_fold_append(s1: Seq<Seq<char>>, s2: Seq<Seq<char>>, v1: u32, v2: u32)
    requires
        eval_plus(s1) == Ok::<u32, EvalError>(v1),
        eval_plus(s2) == Ok::<u32, EvalError>(v2),
        v1 + v2 <= u32::MAX,
    ensures
        eval_plus(s1 + s2) == Ok::<u32, EvalError>((v1 + v2) as u32),
    decreases s2.len(),
{
    if s2.len() == 0 {
        assert(s1 + s2 =~= s1);
    } else {
        let s2p = s2.drop_last();
        let acc2 = eval_plus(s2p)->Ok_0;
        let w = parse_u32_spec(s2.last())->Ok_0;
        assert(eval_plus(s2p) is Ok && parse_u32_spec(s2.last()) is Ok);
        assert(v2 == acc2 + w);
        lemma_plus_fold_append(s1, s2p, v1, acc2);
        assert((s1 + s2).drop_last() =~= s1 + s2p);
        assert((s1 + s2).last() == s2.last());
    }
}

} // verus!
