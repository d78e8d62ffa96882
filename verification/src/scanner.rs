use vstd::prelude::*;
use vstd::string::StrSliceExecFns;

use crate::error::EvalError;
use crate::numeric::is_digit_char;
use crate::token::{toks_view, eof_token, SpecToken, Token};
use crate::token_type::TokenType;

verus! {

/// The characters the scanner recognizes.
pub open spec fn scan_char_ok(c: char) -> bool {
    c == '(' || c == ')' || c == '+' || c == '-' || c == ' ' || is_digit_char(c)
}

/// The token kind a recognized character begins.
pub open spec fn kind_of_char(c: char) -> TokenType {
    if c == '(' {
        TokenType::LeftParen
    } else if c == ')' {
        TokenType::RightParen
    } else if c == '+' {
        TokenType::Plus
    } else if c == '-' {
        TokenType::Minus
    } else if c == ' ' {
        TokenType::Space
    } else {
        TokenType::Number
    }
}

/// The number of consecutive digits of `s` starting at `pos`.
pub open spec fn digit_run(s: Seq<char>, pos: int) -> int
    decreases s.len() - pos,
{
    if pos < 0 || pos >= s.len() || !is_digit_char(s[pos]) {
        0
    } else {
        1 + digit_run(s, pos + 1)
    }
}

/// A digit run starting inside `s` is non-empty exactly on a digit and
/// never reaches past the end of `s`.
pub proof fn lemma_digit_run_bounds(s: Seq<char>, pos: int)
    requires
        0 <= pos <= s.len(),
    ensures
        0 <= digit_run(s, pos) <= s.len() - pos,
        pos < s.len() && is_digit_char(s[pos]) ==> digit_run(s, pos) >= 1,
    decreases s.len() - pos,
{
    if pos < s.len() && is_digit_char(s[pos]) {
        lemma_digit_run_bounds(s, pos + 1);
    }
}

/// The digit run at `pos` is the unique count `k` of digits that is either
/// closed off by a non-digit or by the end of the text.
pub proof fn lemma_digit_run_is(s: Seq<char>, pos: int, k: int)
    requires
        0 <= pos,
        0 <= k,
        pos + k <= s.len(),
        forall|j: int| pos <= j < pos + k ==> is_digit_char(s[j]),
        pos + k == s.len() || !is_digit_char(s[pos + k]),
    ensures
        digit_run(s, pos) == k,
    decreases k,
{
    if k == 0 {
    } else {
        assert(is_digit_char(s[pos]));
        lemma_digit_run_is(s, pos + 1, k - 1);
    }
}

/// How many characters the token starting at `pos` spans.
pub open spec fn head_len(s: Seq<char>, pos: int) -> int {
    if is_digit_char(s[pos]) {
        digit_run(s, pos)
    } else {
        1
    }
}

/// The token that scanning recognizes at `pos`.
pub open spec fn head_token(s: Seq<char>, pos: int) -> SpecToken {
    SpecToken { kind: kind_of_char(s[pos]), text: s.subrange(pos, pos + head_len(s, pos)) }
}

/// What scanning the suffix of `s` from `pos` on yields: the token sequence,
/// or the first unrecognized character.
pub open spec fn scan_from(s: Seq<char>, pos: int) -> Result<Seq<SpecToken>, EvalError>
    decreases s.len() - pos,
{
    if pos < 0 || pos >= s.len() {
        Ok(Seq::empty())
    } else if !scan_char_ok(s[pos]) {
        Err(EvalError::UnexpectedChar { at: pos as usize, ch: s[pos] })
    } else {
        proof {
            lemma_digit_run_bounds(s, pos);
        }
        match scan_from(s, pos + head_len(s, pos)) {
            Ok(rest) => Ok(seq![head_token(s, pos)] + rest),
            Err(e) => Err(e),
        }
    }
}

/// What scanning a whole source text yields: its tokens closed off by the
/// terminal token, or the first unrecognized character.
pub open spec fn scan_spec(s: Seq<char>) -> Result<Seq<SpecToken>, EvalError> {
    match scan_from(s, 0) {
        Ok(toks) => Ok(toks.push(eof_token())),
        Err(e) => Err(e),
    }
}

/// Scanning fails exactly when the text holds a character outside the
/// recognized classes, and then reports the first such character; it never
/// skips one silently.
pub proof fn lemma_scan_rejects_bad_char(s: Seq<char>)
    requires
        s.len() <= usize::MAX,
    ensures
        scan_spec(s) is Err <==> exists|i: int| 0 <= i < s.len() && !scan_char_ok(s[i]),
        scan_spec(s) matches Err(e) ==> e matches EvalError::UnexpectedChar { at, ch } && 0 <= at
            < s.len() && ch == s[at as int] && !scan_char_ok(s[at as int]) && forall|j: int|
            0 <= j < at ==> scan_char_ok(s[j]),
{
    lemma_scan_from_rejects_bad_char(s, 0);
}

proof fn lemma_scan_from_rejects_bad_char(s: Seq<char>, pos: int)
    requires
        0 <= pos <= s.len(),
        s.len() <= usize::MAX,
    ensures
        scan_from(s, pos) is Err <==> exists|i: int| pos <= i < s.len() && !scan_char_ok(s[i]),
        scan_from(s, pos) matches Err(e) ==> e matches EvalError::UnexpectedChar { at, ch }
            && pos <= at < s.len() && ch == s[at as int] && !scan_char_ok(s[at as int])
            && forall|j: int| pos <= j < at ==> scan_char_ok(s[j]),
    decreases s.len() - pos,
{
    if pos >= s.len() {
    } else if !scan_char_ok(s[pos]) {
        assert(pos <= pos < s.len() && !scan_char_ok(s[pos]));
    } else {
        lemma_digit_run_bounds(s, pos);
        let hl = head_len(s, pos);
        lemma_scan_from_rejects_bad_char(s, pos + hl);
        assert forall|j: int| pos <= j < pos + hl implies scan_char_ok(s[j]) by {
            if j > pos {
                lemma_digit_run_all_digits(s, pos, j);
            }
        }
        if exists|i: int| pos <= i < s.len() && !scan_char_ok(s[i]) {
            let i = choose|i: int| pos <= i < s.len() && !scan_char_ok(s[i]);
            assert(i >= pos + hl);
            assert(scan_from(s, pos + hl) is Err);
        }
        match scan_from(s, pos + hl) {
            Err(e) => {
                assert(scan_from(s, pos) == Err::<Seq<SpecToken>, EvalError>(e));
                assert(e matches EvalError::UnexpectedChar { at, ch } && pos + hl <= at < s.len());
                let at = e->UnexpectedChar_at;
                assert forall|j: int| pos <= j < at implies scan_char_ok(s[j]) by {
                    if j < pos + hl {
                        if j > pos {
                            lemma_digit_run_all_digits(s, pos, j);
                        }
                    }
                }
            },
            Ok(_) => {
                assert(scan_from(s, pos) is Ok);
            },
        }
    }
}

/// Every character strictly inside a digit run is a digit.
proof fn lemma_digit_run_all_digits(s: Seq<char>, pos: int, j: int)
    requires
        0 <= pos <= j < pos + digit_run(s, pos),
    ensures
        is_digit_char(s[j]),
    decreases j - pos,
{
    if j > pos {
        lemma_digit_run_all_digits(s, pos + 1, j);
    }
}

/// Walks a source text and turns it into tokens, one character class at a
/// time.  Numbers are scanned as full consecutive digit runs.
pub struct Scanner {
    pub source: String,
    pub line: u32,
    pub current: usize,
    pub start: usize,
    pub tokens: Vec<Token>,
}

impl Scanner {
    /// The character sequence being scanned.
    pub open spec fn src(self) -> Seq<char> {
        self.source@
    }

    /// The cursor invariant every scanning step preserves.
    pub open spec fn wf(self) -> bool {
        self.start <= self.current <= self.source@.len()
    }

    pub fn new(source: String) -> (s: Scanner)
        ensures
            s.source == source,
            s.line == 1u32,
            s.current == 0usize,
            s.start == 0usize,
            s.tokens@ == Seq::<Token>::empty(),
    {
        Scanner { source, line: 1, current: 0, start: 0, tokens: Vec::new() }
    }

    /// Whether the cursor has passed the last character.
    pub fn is_at_end(&self) -> (r: bool)
        ensures
            r == (self.current >= self.src().len()),
    {
        self.current >= self.source.as_str().unicode_len()
    }

    /// Reads the character under the cursor and moves the cursor past it.
    pub fn advance(&mut self) -> (c: char)
        requires
            old(self).current < old(self).src().len(),
        ensures
            c == old(self).src()[old(self).current as int],
            final(self).current == old(self).current + 1,
            final(self).source == old(self).source,
            final(self).line == old(self).line,
            final(self).start == old(self).start,
            final(self).tokens == old(self).tokens,
    {
        // the length call bounds the cursor below usize::MAX for the increment
        let _n = self.source.as_str().unicode_len();
        let c = self.source.as_str().get_char(self.current);
        self.current = self.current + 1;
        c
    }

    /// Whether `c` is an ASCII decimal digit.
    pub fn is_digit(&self, c: char) -> (r: bool)
        ensures
            r == is_digit_char(c),
    {
        c >= '0' && c <= '9'
    }

    /// Appends a token whose text is the source span `start..current`.
    /// The lexeme argument is accepted for interface compatibility only.
    pub fn add_token(&mut self, token_type: TokenType, lexeme: &str)
        requires
            old(self).wf(),
        ensures
            final(self).tokens@.len() == old(self).tokens@.len() + 1,
            final(self).tokens@ == old(self).tokens@.push(final(self).tokens@.last()),
            final(self).tokens@.last().kind == token_type,
            final(self).tokens@.last()@.text == old(self).src().subrange(
                old(self).start as int,
                old(self).current as int,
            ),
            final(self).source == old(self).source,
            final(self).line == old(self).line,
            final(self).start == old(self).start,
            final(self).current == old(self).current,
    {
        self.internal_add_token(token_type, lexeme);
    }

    pub fn internal_add_token(&mut self, token_type: TokenType, lexeme: &str)
        requires
            old(self).wf(),
        ensures
            final(self).tokens@.len() == old(self).tokens@.len() + 1,
            final(self).tokens@ == old(self).tokens@.push(final(self).tokens@.last()),
            final(self).tokens@.last().kind == token_type,
            final(self).tokens@.last()@.text == old(self).src().subrange(
                old(self).start as int,
                old(self).current as int,
            ),
            final(self).source == old(self).source,
            final(self).line == old(self).line,
            final(self).start == old(self).start,
            final(self).current == old(self).current,
    {
        let text = self.source.as_str().substring_char(self.start, self.current).to_owned();
        let tok = Token::new(token_type, lexeme.to_owned(), text, self.line);
        self.tokens.push(tok);
    }

    /// Extends the cursor over the rest of the digit run that began at
    /// `start`, then appends the resulting number token.
    pub fn number(&mut self)
        requires
            old(self).wf(),
            old(self).current == old(self).start + 1,
            old(self).start < old(self).src().len(),
            is_digit_char(old(self).src()[old(self).start as int]),
        ensures
            final(self).source == old(self).source,
            final(self).line == old(self).line,
            final(self).start == old(self).start,
            final(self).current == old(self).start + digit_run(old(self).src(), old(self).start as int),
            final(self).tokens@.len() == old(self).tokens@.len() + 1,
            final(self).tokens@ == old(self).tokens@.push(final(self).tokens@.last()),
            final(self).tokens@.last().kind == TokenType::Number,
            final(self).tokens@.last()@.text == old(self).src().subrange(
                old(self).start as int,
                final(self).current as int,
            ),
    {
        let ghost s = self.src();
        let ghost p0 = self.start as int;
        let n = self.source.as_str().unicode_len();
        loop
            invariant
                n == s.len(),
                s == self.src(),
                self.wf(),
                self.source == old(self).source,
                self.line == old(self).line,
                self.start == old(self).start,
                self.tokens == old(self).tokens,
                self.start < self.current <= s.len(),
                forall|j: int| p0 <= j < self.current ==> is_digit_char(s[j]),
            ensures
                self.source == old(self).source,
                self.line == old(self).line,
                self.start == old(self).start,
                self.tokens == old(self).tokens,
                self.start < self.current <= s.len(),
                forall|j: int| p0 <= j < self.current ==> is_digit_char(s[j]),
                self.current == s.len() || !is_digit_char(s[self.current as int]),
            decreases s.len() - self.current,
        {
            if self.current >= n {
                break ;
            }
            let c = self.source.as_str().get_char(self.current);
            if !(c >= '0' && c <= '9') {
                break ;
            }
            self.current = self.current + 1;
        }
        proof {
            lemma_digit_run_is(s, p0, self.current - p0);
        }
        let text = self.source.as_str().substring_char(self.start, self.current).to_owned();
        self.add_token(TokenType::Number, text.as_str());
    }

    /// Classifies the character under the cursor, consumes it (and, for a
    /// digit, the rest of its run), and appends one token; an unrecognized
    /// character is reported, never skipped.
    pub fn internal_scan_tokens(&mut self) -> (r: Result<(), EvalError>)
        requires
            old(self).wf(),
            old(self).start == old(self).current,
            old(self).current < old(self).src().len(),
        ensures
            final(self).source == old(self).source,
            final(self).line == old(self).line,
            final(self).start == old(self).start,
            final(self).wf(),
            match r {
                Ok(()) => {
                    &&& scan_char_ok(old(self).src()[old(self).current as int])
                    &&& final(self).current == old(self).current + head_len(
                        old(self).src(),
                        old(self).current as int,
                    )
                    &&& toks_view(final(self).tokens@) =~= toks_view(old(self).tokens@).push(
                        head_token(old(self).src(), old(self).current as int),
                    )
                },
                Err(e) => {
                    &&& !scan_char_ok(old(self).src()[old(self).current as int])
                    &&& e == (EvalError::UnexpectedChar {
                        at: old(self).current,
                        ch: old(self).src()[old(self).current as int],
                    })
                    &&& final(self).tokens == old(self).tokens
                },
            },
    {
        let ghost s = self.src();
        let ghost p0 = self.current as int;
        let c = self.advance();
        match c {
            '(' => {
                self.add_token(TokenType::LeftParen, "(");
            },
            ')' => {
                self.add_token(TokenType::RightParen, ")");
            },
            '+' => {
                self.add_token(TokenType::Plus, "+");
            },
            '-' => {
                self.add_token(TokenType::Minus, "-");
            },
            ' ' => {
                self.add_token(TokenType::Space, " ");
            },
            _ => {
                if self.is_digit(c) {
                    self.number();
                } else {
                    return Err(EvalError::UnexpectedChar { at: self.current - 1, ch: c });
                }
            },
        }
        proof {
            lemma_digit_run_bounds(s, p0);
            lemma_map_push(old(self).tokens@, self.tokens@.last());
            assert(self.tokens@.last()@ == head_token(s, p0));
        }
        Ok(())
    }

    /// Scans the whole source into tokens ending with the terminal token,
    /// or reports the first unrecognized character.
    pub fn scan_tokens(&mut self) -> (r: Result<Vec<Token>, EvalError>)
        requires
            old(self).current == 0usize,
            old(self).start == 0usize,
            old(self).tokens@.len() == 0,
        ensures
            final(self).source == old(self).source,
            match r {
                Ok(ts) => scan_spec(old(self).src()) matches Ok(v) && toks_view(ts@) =~= v,
                Err(e) => scan_spec(old(self).src()) == Err::<Seq<SpecToken>, EvalError>(e),
            },
    {
        let ghost s = self.src();
        proof {
            assert(toks_view(self.tokens@) =~= Seq::<SpecToken>::empty());
            if scan_from(s, 0) is Ok {
                assert(toks_view(self.tokens@) + scan_from(s, 0)->Ok_0 =~= scan_from(s, 0)->Ok_0);
            }
        }
        loop
            invariant
                self.wf(),
                self.source == old(self).source,
                self.line == old(self).line,
                s == self.src(),
                match scan_from(s, self.current as int) {
                    Ok(rest) => scan_from(s, 0) matches Ok(all) && all == toks_view(self.tokens@)
                        + rest,
                    Err(e) => scan_from(s, 0) == Err::<Seq<SpecToken>, EvalError>(e),
                },
            ensures
                self.wf(),
                self.source == old(self).source,
                self.line == old(self).line,
                s == self.src(),
                self.current == s.len(),
                scan_from(s, 0) matches Ok(all) && all == toks_view(self.tokens@),
            decreases s.len() - self.current,
        {
            if self.is_at_end() {
                proof {
                    assert(scan_from(s, self.current as int) == Ok::<Seq<SpecToken>, EvalError>(
                        Seq::empty(),
                    ));
                    assert(toks_view(self.tokens@) + Seq::<SpecToken>::empty() =~= toks_view(
                        self.tokens@,
                    ));
                }
                break ;
            }
            self.start = self.current;
            let ghost p = self.current as int;
            let ghost prev_toks = self.tokens@;
            let r = self.internal_scan_tokens();
            match r {
                Ok(()) => {
                    proof {
                        lemma_digit_run_bounds(s, p);
                        let hl = head_len(s, p);
                        assert(scan_from(s, p) == (match scan_from(s, p + hl) {
                            Ok(rest) => Ok::<Seq<SpecToken>, EvalError>(
                                seq![head_token(s, p)] + rest,
                            ),
                            Err(e) => Err(e),
                        }));
                        if scan_from(s, p + hl) is Ok {
                            let rest = scan_from(s, p + hl)->Ok_0;
                            assert(toks_view(prev_toks) + (seq![head_token(s, p)] + rest)
                                =~= toks_view(self.tokens@) + rest);
                        }
                    }
                },
                Err(e) => {
                    proof {
                        assert(scan_from(s, p) == Err::<Seq<SpecToken>, EvalError>(e));
                    }
                    return Err(e);
                },
            }
        }
        let ghost before_eof = self.tokens@;
        self.tokens.push(Token::new(TokenType::EOF, String::new(), String::new(), self.line));
        proof {
            lemma_map_push(before_eof, self.tokens@.last());
            assert(self.tokens@.last()@ == eof_token());
            assert(toks_view(self.tokens@) =~= toks_view(before_eof).push(eof_token()));
        }
        let mut ts: Vec<Token> = Vec::new();
        let mut i: usize = 0;
        while i < self.tokens.len()
            invariant
                0 <= i <= self.tokens@.len(),
                ts@.len() == i,
                forall|j: int| 0 <= j < i ==> ts@[j] == self.tokens@[j],
            decreases self.tokens@.len() - i,
        {
            let t = self.tokens[i].clone();
            ts.push(t);
            i = i + 1;
        }
        assert(ts@ =~= self.tokens@);
        Ok(ts)
    }
}

/// Mapping the token view over a sequence commutes with appending one token.
proof fn lemma_map_push(ts: Seq<Token>, t: Token)
    ensures
        toks_view(ts.push(t)) =~= toks_view(ts).push(t@),
{
}

} // verus!
