use vstd::prelude::*;
use vstd::string::{StrSliceExecFns, StringExecFns};

use crate::error::EvalError;

verus! {

/// Whether `c` is an ASCII decimal digit.
pub open spec fn is_digit_char(c: char) -> bool {
    '0' <= c && c <= '9'
}

/// The numeric value of a digit character.
pub open spec fn digit_val(c: char) -> int {
    c as int - 48
}

/// The digit character for a value below ten.
pub open spec fn digit_to_char(d: int) -> char {
    (48 + d) as char
}

/// Whether every character of `s` is a decimal digit.
pub open spec fn seq_is_digits(s: Seq<char>) -> bool {
    forall|i: int| 0 <= i < s.len() ==> is_digit_char(s[i])
}

/// The value of a digit sequence read as a decimal numeral.
pub open spec fn digits_val(s: Seq<char>) -> int
    decreases s.len(),
{
    if s.len() == 0 {
        0
    } else {
        digits_val(s.drop_last()) * 10 + digit_val(s.last())
    }
}

/// What parsing a character sequence as an unsigned 32-bit decimal numeral
/// yields: the value when the text is a run of digits whose value fits,
/// and the exact error otherwise.
pub open spec fn parse_u32_spec(s: Seq<char>) -> Result<u32, EvalError> {
    if s.len() == 0 || !seq_is_digits(s) {
        Err(EvalError::InvalidNumber)
    } else if digits_val(s) > u32::MAX {
        Err(EvalError::NumberTooLarge)
    } else {
        Ok(digits_val(s) as u32)
    }
}

/// The decimal numeral of a non-negative integer, without leading zeros.
pub open spec fn dec_str(n: int) -> Seq<char>
    recommends
        0 <= n,
    decreases n,
{
    if n < 10 {
        seq![digit_to_char(n)]
    } else {
        dec_str(n / 10) + seq![digit_to_char(n % 10)]
    }
}

/// A digit sequence has a non-negative value.
pub proof fn lemma_digits_val_nonneg(s: Seq<char>)
    requires
        seq_is_digits(s),
    ensures
        digits_val(s) >= 0,
    decreases s.len(),
{
    if s.len() > 0 {
        lemma_digits_val_nonneg(s.drop_last());
    }
}

/// Appending one digit multiplies the value by ten and adds the digit.
pub proof fn lemma_digits_val_snoc(s: Seq<char>, c: char)
    ensures
        digits_val(s.push(c)) == digits_val(s) * 10 + digit_val(c),
{
    assert(s.push(c).drop_last() =~= s);
    assert(s.push(c).last() == c);
}

/// The value of a digit sequence never shrinks as the prefix grows.
pub proof fn lemma_digits_val_prefix_mono(s: Seq<char>, i: int, j: int)
    requires
        seq_is_digits(s),
        0 <= i <= j <= s.len(),
    ensures
        digits_val(s.take(i)) <= digits_val(s.take(j)),
    decreases j - i,
{
    if i < j {
        lemma_digits_val_prefix_mono(s, i, j - 1);
        assert(s.take(j).drop_last() =~= s.take(j - 1));
        let prev = digits_val(s.take(j - 1));
        assert(seq_is_digits(s.take(j - 1)));
        lemma_digits_val_nonneg(s.take(j - 1));
        assert(digits_val(s.take(j)) == prev * 10 + digit_val(s.take(j).last()));
        assert(prev * 10 >= prev);
        assert(digit_val(s.take(j).last()) >= 0);
    }
}

/// The decimal numeral of `n` is a non-empty digit run that reads back as `n`.
pub proof fn lemma_dec_str(n: int)
    requires
        0 <= n,
    ensures
        dec_str(n).len() >= 1,
        seq_is_digits(dec_str(n)),
        digits_val(dec_str(n)) == n,
    decreases n,
{
    if n < 10 {
        assert(is_digit_char(digit_to_char(n)));
        assert(dec_str(n) =~= Seq::empty().push(digit_to_char(n)));
        lemma_digits_val_snoc(Seq::empty(), digit_to_char(n));
    } else {
        lemma_dec_str(n / 10);
        let d = digit_to_char(n % 10);
        assert(is_digit_char(d));
        assert(dec_str(n) =~= dec_str(n / 10).push(d));
        lemma_digits_val_snoc(dec_str(n / 10), d);
        assert(digits_val(dec_str(n)) == (n / 10) * 10 + (n % 10));
    }
}

/// The one-character string for a digit value.
fn digit_str(d: u32) -> (r: &'static str)
    requires
        d < 10,
    ensures
        r@ =~= seq![digit_to_char(d as int)],
{
    proof {
        reveal_strlit("0");
        reveal_strlit("1");
        reveal_strlit("2");
        reveal_strlit("3");
        reveal_strlit("4");
        reveal_strlit("5");
        reveal_strlit("6");
        reveal_strlit("7");
        reveal_strlit("8");
        reveal_strlit("9");
    }
    match d {
        0 => "0",
        1 => "1",
        2 => "2",
        3 => "3",
        4 => "4",
        5 => "5",
        6 => "6",
        7 => "7",
        8 => "8",
        _ => "9",
    }
}

/// Formats `n` as its decimal numeral.
pub fn u32_to_string(n: u32) -> (r: String)
    ensures
        r@ == dec_str(n as int),
    decreases n,
{
    if n < 10 {
        let s = String::from_str(digit_str(n));
        s
    } else {
        let mut s = u32_to_string(n / 10);
        s.append(digit_str(n % 10));
        s
    }
}

/// The characters of a string, in order.
pub fn chars_of(s: &str) -> (v: Vec<char>)
    ensures
        v@ == s@,
{
    let n = s.unicode_len();
    let mut v: Vec<char> = Vec::new();
    let mut i: usize = 0;
    while i < n
        invariant
            n == s@.len(),
            0 <= i <= n,
            v@.len() == i,
            forall|j: int| 0 <= j < i ==> v@[j] == s@[j],
        decreases n - i,
    {
        v.push(s.get_char(i));
        i = i + 1;
    }
    assert(v@ =~= s@);
    v
}

/// Parses a character sequence as an unsigned 32-bit decimal numeral,
/// reporting exactly what [`parse_u32_spec`] says.
pub fn parse_u32_chars(s: &Vec<char>) -> (r: Result<u32, EvalError>)
    ensures
        r == parse_u32_spec(s@),
{
    let n = s.len();
    if n == 0 {
        return Err(EvalError::InvalidNumber);
    }
    let mut i: usize = 0;
    while i < n
        invariant
            n == s@.len(),
            0 <= i <= n,
            forall|j: int| 0 <= j < i ==> is_digit_char(s@[j]),
        decreases n - i,
    {
        let c = s[i];
        if c < '0' || c > '9' {
            return Err(EvalError::InvalidNumber);
        }
        i = i + 1;
    }
    assert(seq_is_digits(s@));
    let mut val: u64 = 0;
    let mut k: usize = 0;
    while k < n
        invariant
            n == s@.len(),
            seq_is_digits(s@),
            0 <= k <= n,
            val == digits_val(s@.take(k as int)),
            val <= u32::MAX,
        decreases n - k,
    {
        let c = s[k];
        assert(is_digit_char(c));
        assert('0' as int == 48 && '9' as int == 57);
        let d: u64 = (c as u64) - 48;
        assert(d == digit_val(c));
        let next: u64 = val * 10 + d;
        proof {
            assert(s@.take(k as int + 1) =~= s@.take(k as int).push(s@[k as int]));
            lemma_digits_val_snoc(s@.take(k as int), s@[k as int]);
        }
        if next > 0xFFFF_FFFF {
            proof {
                lemma_digits_val_prefix_mono(s@, k as int + 1, s@.len() as int);
                assert(s@.take(s@.len() as int) =~= s@);
            }
            return Err(EvalError::NumberTooLarge);
        }
        val = next;
        k = k + 1;
    }
    proof {
        assert(s@.take(n as int) =~= s@);
    }
    Ok(val as u32)
}

/// Parses a string as an unsigned 32-bit decimal numeral, reporting
/// exactly what [`parse_u32_spec`] says.
pub fn parse_u32_str(s: &str) -> (r: Result<u32, EvalError>)
    ensures
        r == parse_u32_spec(s@),
{
    let cs = chars_of(s);
    parse_u32_chars(&cs)
}

} // verus!
