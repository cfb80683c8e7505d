//! The amount-token grammar: the syntax Rust's floating-point parser accepts.
//! An amount is kept as its token text; whether the token is a number is
//! decided here, against this grammar: an optional sign, then `inf`,
//! `infinity` or `nan` in any case, or digits with an optional single `.`
//! and an optional `e`/`E` exponent with signed digits.

use vstd::prelude::*;
use vstd::string::*;
use crate::text::find_char;
use crate::text::is_ws;
use crate::text::lemma_find_char_props;
use crate::text::lemma_find_char_is;

verus! {

pub open spec fn is_digit(c: char) -> bool {
    48 <= c as u32 && c as u32 <= 57
}

pub fn char_is_digit(c: char) -> (b: bool)
    ensures
        b == is_digit(c),
{
    let u = c as u32;
    48 <= u && u <= 57
}

pub open spec fn digits1(s: Seq<char>) -> bool {
    s.len() > 0 && forall|i: int| 0 <= i < s.len() ==> is_digit(s[i])
}

pub open spec fn signed_digits(s: Seq<char>) -> bool {
    if s.len() > 0 && (s[0] == '+' || s[0] == '-') {
        digits1(s.drop_first())
    } else {
        digits1(s)
    }
}

/// Digits with at most one `.` among them and at least one digit.
pub open spec fn number_token(s: Seq<char>) -> bool {
    let d = find_char(s, '.');
    if 0 <= d < s.len() {
        s.len() > 1 && forall|i: int| 0 <= i < s.len() && i != d ==> is_digit(s[i])
    } else {
        digits1(s)
    }
}

/// Index of the first `e` or `E` in `s`, or `s.len()` when absent.
pub open spec fn find_exp(s: Seq<char>) -> int
    decreases s.len(),
{
    if s.len() == 0 {
        0
    } else if s[0] == 'e' || s[0] == 'E' {
        0
    } else {
        1 + find_exp(s.drop_first())
    }
}

pub proof fn lemma_find_exp_props(s: Seq<char>)
    ensures
        0 <= find_exp(s) <= s.len(),
        forall|j: int| 0 <= j < find_exp(s) ==> s[j] != 'e' && s[j] != 'E',
        find_exp(s) < s.len() ==> (s[find_exp(s)] == 'e' || s[find_exp(s)] == 'E'),
    decreases s.len(),
{
    if s.len() > 0 && s[0] != 'e' && s[0] != 'E' {
        lemma_find_exp_props(s.drop_first());
        assert(forall|j: int| 1 <= j < find_exp(s) ==> s[j] == s.drop_first()[j - 1]);
    }
}

pub proof fn lemma_find_exp_is(s: Seq<char>, i: int)
    requires
        0 <= i <= s.len(),
        forall|j: int| 0 <= j < i ==> s[j] != 'e' && s[j] != 'E',
        i < s.len() ==> (s[i] == 'e' || s[i] == 'E'),
    ensures
        find_exp(s) == i,
    decreases s.len(),
{
    if s.len() > 0 && s[0] != 'e' && s[0] != 'E' {
        assert(i >= 1);
        assert(forall|j: int| 0 <= j < i - 1 ==> s.drop_first()[j] == s[j + 1]);
        assert(i - 1 < s.drop_first().len() ==> s.drop_first()[i - 1] == s[i]);
        lemma_find_exp_is(s.drop_first(), i - 1);
    }
}

/// A number with an optional exponent part.
pub open spec fn number_exp(s: Seq<char>) -> bool {
    let e = find_exp(s);
    if 0 <= e < s.len() {
        number_token(s.subrange(0, e)) && signed_digits(s.subrange(e + 1, s.len() as int))
    } else {
        number_token(s)
    }
}

pub open spec fn word_inf(t: Seq<char>) -> bool {
    t.len() == 3 && (t[0] == 'i' || t[0] == 'I') && (t[1] == 'n' || t[1] == 'N')
        && (t[2] == 'f' || t[2] == 'F')
}

pub open spec fn word_infinity(t: Seq<char>) -> bool {
    t.len() == 8 && (t[0] == 'i' || t[0] == 'I') && (t[1] == 'n' || t[1] == 'N')
        && (t[2] == 'f' || t[2] == 'F') && (t[3] == 'i' || t[3] == 'I')
        && (t[4] == 'n' || t[4] == 'N') && (t[5] == 'i' || t[5] == 'I')
        && (t[6] == 't' || t[6] == 'T') && (t[7] == 'y' || t[7] == 'Y')
}

pub open spec fn word_nan(t: Seq<char>) -> bool {
    t.len() == 3 && (t[0] == 'n' || t[0] == 'N') && (t[1] == 'a' || t[1] == 'A')
        && (t[2] == 'n' || t[2] == 'N')
}

/// Whether `s` is a token the floating-point parser accepts.
pub open spec fn float_token(s: Seq<char>) -> bool {
    let t = if s.len() > 0 && (s[0] == '+' || s[0] == '-') {
        s.drop_first()
    } else {
        s
    };
    word_inf(t) || word_infinity(t) || word_nan(t) || number_exp(t)
}

/// The characters an accepted token can be made of: sign, digit, dot, the
/// exponent letter, or a letter of `inf`, `infinity` or `nan`.
pub open spec fn token_char(c: char) -> bool {
    is_digit(c) || c == '.' || c == '+' || c == '-' || c == 'e' || c == 'E'
        || c == 'i' || c == 'I' || c == 'n' || c == 'N' || c == 'f' || c == 'F'
        || c == 't' || c == 'T' || c == 'y' || c == 'Y' || c == 'a' || c == 'A'
}

proof fn lemma_number_token_chars(s: Seq<char>)
    requires
        number_token(s),
    ensures
        forall|i: int| 0 <= i < s.len() ==> token_char(#[trigger] s[i]),
{
    let d = find_char(s, '.');
    lemma_find_char_props(s, '.');
    if 0 <= d < s.len() {
        assert forall|i: int| 0 <= i < s.len() implies token_char(#[trigger] s[i]) by {
            if i == d {
                assert(s[i] == '.');
            }
        }
    }
}

proof fn lemma_number_exp_chars(s: Seq<char>)
    requires
        number_exp(s),
    ensures
        s.len() > 0,
        forall|i: int| 0 <= i < s.len() ==> token_char(#[trigger] s[i]),
{
    let e = find_exp(s);
    lemma_find_exp_props(s);
    if 0 <= e < s.len() {
        let mantissa = s.subrange(0, e);
        let exponent = s.subrange(e + 1, s.len() as int);
        lemma_number_token_chars(mantissa);
        assert(mantissa.len() > 0);
        assert forall|i: int| 0 <= i < s.len() implies token_char(#[trigger] s[i]) by {
            if i < e {
                assert(s[i] == mantissa[i]);
            } else if i == e {
                assert(s[i] == 'e' || s[i] == 'E');
            } else {
                assert(s[i] == exponent[i - e - 1]);
                if exponent.len() > 0 && (exponent[0] == '+' || exponent[0] == '-') {
                    if i - e - 1 > 0 {
                        assert(exponent[i - e - 1] == exponent.drop_first()[i - e - 2]);
                        assert(is_digit(exponent[i - e - 1]));
                    }
                } else {
                    assert(is_digit(exponent[i - e - 1]));
                }
            }
        }
    } else {
        lemma_number_token_chars(s);
    }
}

/// An accepted token is non-empty, holds no space and no whitespace at its
/// ends, and never opens with the currency marker.
pub proof fn lemma_float_token_shape(s: Seq<char>)
    requires
        float_token(s),
    ensures
        s.len() > 0,
        !s.contains(' '),
        !is_ws(s[0]),
        !is_ws(s.last()),
        s[0] != '$',
{
    let signed = s.len() > 0 && (s[0] == '+' || s[0] == '-');
    let t = if signed {
        s.drop_first()
    } else {
        s
    };
    assert(forall|i: int| 0 <= i < t.len() ==> token_char(#[trigger] t[i])) by {
        if word_inf(t) || word_infinity(t) || word_nan(t) {
            assert forall|i: int| 0 <= i < t.len() implies token_char(#[trigger] t[i]) by {
                if word_inf(t) || word_nan(t) {
                    assert(i == 0 || i == 1 || i == 2);
                } else {
                    assert(0 <= i <= 7);
                }
            }
        } else {
            lemma_number_exp_chars(t);
        }
    }
    if !(word_inf(t) || word_infinity(t) || word_nan(t)) {
        lemma_number_exp_chars(t);
    }
    assert(t.len() > 0);
    assert(s.len() > 0);
    assert(forall|i: int| 0 <= i < s.len() ==> token_char(#[trigger] s[i])) by {
        assert forall|i: int| 0 <= i < s.len() implies token_char(#[trigger] s[i]) by {
            if signed && i == 0 {
            } else if signed {
                assert(s[i] == t[i - 1]);
            } else {
                assert(s[i] == t[i]);
            }
        }
    }
    assert(token_char(s[0]));
    assert(token_char(s.last()));
    if s.contains(' ') {
        let j = choose|j: int| 0 <= j < s.len() && s[j] == ' ';
        assert(token_char(s[j]));
        assert(false);
    }
}

// ---------------------------------------------------------------------------
// The executable recognizer
// ---------------------------------------------------------------------------

fn all_digits(s: &str, from: usize, to: usize) -> (b: bool)
    requires
        from <= to <= s@.len(),
    ensures
        b == (forall|j: int| from <= j < to ==> is_digit(s@[j])),
{
    let mut i = from;
    while i < to
        invariant
            from <= i <= to <= s@.len(),
            forall|j: int| from <= j < i ==> is_digit(s@[j]),
        decreases to - i,
    {
        if !char_is_digit(s.get_char(i)) {
            return false;
        }
        i = i + 1;
    }
    true
}

fn check_digits1(s: &str, from: usize, to: usize) -> (b: bool)
    requires
        from <= to <= s@.len(),
    ensures
        b == digits1(s@.subrange(from as int, to as int)),
{
    let b = if from == to {
        false
    } else {
        all_digits(s, from, to)
    };
    proof {
        let sub = s@.subrange(from as int, to as int);
        if forall|j: int| from <= j < to ==> is_digit(s@[j]) {
            assert forall|i: int| 0 <= i < sub.len() implies is_digit(sub[i]) by {
                assert(sub[i] == s@[from + i]);
            }
        } else {
            let j = choose|j: int| from <= j < to && !is_digit(s@[j]);
            assert(sub[j - from] == s@[j]);
        }
    }
    b
}

fn check_signed_digits(s: &str, from: usize) -> (b: bool)
    requires
        from <= s@.len(),
    ensures
        b == signed_digits(s@.subrange(from as int, s@.len() as int)),
{
    let n = s.unicode_len();
    let signed = from < n && (s.get_char(from) == '+' || s.get_char(from) == '-');
    let start = if signed {
        from + 1
    } else {
        from
    };
    let b = check_digits1(s, start, n);
    proof {
        let sub = s@.subrange(from as int, n as int);
        if sub.len() > 0 {
            assert(sub[0] == s@[from as int]);
        }
        if signed {
            assert(sub.drop_first() =~= s@.subrange(start as int, n as int));
        } else {
            assert(sub =~= s@.subrange(start as int, n as int));
        }
    }
    b
}

fn check_number(s: &str, from: usize, to: usize) -> (b: bool)
    requires
        from <= to <= s@.len(),
    ensures
        b == number_token(s@.subrange(from as int, to as int)),
{
    let ghost sub = s@.subrange(from as int, to as int);
    let mut d = from;
    while d < to && s.get_char(d) != '.'
        invariant
            from <= d <= to <= s@.len(),
            forall|j: int| from <= j < d ==> s@[j] != '.',
        decreases to - d,
    {
        d = d + 1;
    }
    proof {
        assert forall|i: int| 0 <= i < d - from implies sub[i] != '.' by {
            assert(sub[i] == s@[from + i]);
        }
        if d < to {
            assert(sub[d - from] == s@[d as int]);
        }
        lemma_find_char_is(sub, '.', d - from);
    }
    if d < to {
        if to - from <= 1 {
            return false;
        }
        let b = all_digits(s, from, d) && all_digits(s, d + 1, to);
        proof {
            if b {
                assert forall|i: int| 0 <= i < sub.len() && i != d - from implies
                    is_digit(sub[i]) by {
                    assert(sub[i] == s@[from + i]);
                }
            } else {
                if !(forall|j: int| from <= j < d ==> is_digit(s@[j])) {
                    let j = choose|j: int| from <= j < d && !is_digit(s@[j]);
                    assert(sub[j - from] == s@[j]);
                } else {
                    let j = choose|j: int| d + 1 <= j < to && !is_digit(s@[j]);
                    assert(sub[j - from] == s@[j]);
                }
            }
        }
        b
    } else {
        check_digits1(s, from, to)
    }
}

fn check_word_inf(s: &str, from: usize) -> (b: bool)
    requires
        from <= s@.len(),
    ensures
        b == word_inf(s@.subrange(from as int, s@.len() as int)),
{
    let n = s.unicode_len();
    if n - from != 3 {
        return false;
    }
    let c0 = s.get_char(from);
    let c1 = s.get_char(from + 1);
    let c2 = s.get_char(from + 2);
    proof {
        let sub = s@.subrange(from as int, n as int);
        assert(sub[0] == s@[from as int]);
        assert(sub[1] == s@[from + 1]);
        assert(sub[2] == s@[from + 2]);
    }
    (c0 == 'i' || c0 == 'I') && (c1 == 'n' || c1 == 'N') && (c2 == 'f' || c2 == 'F')
}

fn check_word_infinity(s: &str, from: usize) -> (b: bool)
    requires
        from <= s@.len(),
    ensures
        b == word_infinity(s@.subrange(from as int, s@.len() as int)),
{
    let n = s.unicode_len();
    if n - from != 8 {
        return false;
    }
    let c0 = s.get_char(from);
    let c1 = s.get_char(from + 1);
    let c2 = s.get_char(from + 2);
    let c3 = s.get_char(from + 3);
    let c4 = s.get_char(from + 4);
    let c5 = s.get_char(from + 5);
    let c6 = s.get_char(from + 6);
    let c7 = s.get_char(from + 7);
    proof {
        let sub = s@.subrange(from as int, n as int);
        assert(sub[0] == s@[from as int]);
        assert(sub[1] == s@[from + 1]);
        assert(sub[2] == s@[from + 2]);
        assert(sub[3] == s@[from + 3]);
        assert(sub[4] == s@[from + 4]);
        assert(sub[5] == s@[from + 5]);
        assert(sub[6] == s@[from + 6]);
        assert(sub[7] == s@[from + 7]);
    }
    (c0 == 'i' || c0 == 'I') && (c1 == 'n' || c1 == 'N') && (c2 == 'f' || c2 == 'F')
        && (c3 == 'i' || c3 == 'I') && (c4 == 'n' || c4 == 'N') && (c5 == 'i' || c5 == 'I')
        && (c6 == 't' || c6 == 'T') && (c7 == 'y' || c7 == 'Y')
}

fn check_word_nan(s: &str, from: usize) -> (b: bool)
    requires
        from <= s@.len(),
    ensures
        b == word_nan(s@.subrange(from as int, s@.len() as int)),
{
    let n = s.unicode_len();
    if n - from != 3 {
        return false;
    }
    let c0 = s.get_char(from);
    let c1 = s.get_char(from + 1);
    let c2 = s.get_char(from + 2);
    proof {
        let sub = s@.subrange(from as int, n as int);
        assert(sub[0] == s@[from as int]);
        assert(sub[1] == s@[from + 1]);
        assert(sub[2] == s@[from + 2]);
    }
    (c0 == 'n' || c0 == 'N') && (c1 == 'a' || c1 == 'A') && (c2 == 'n' || c2 == 'N')
}

/// Decides whether `s` parses as a floating-point amount, by the grammar
/// `float_token`.
pub fn is_float_token(s: &str) -> (b: bool)
    ensures
        b == float_token(s@),
{
    let n = s.unicode_len();
    let start: usize = if n > 0 && (s.get_char(0) == '+' || s.get_char(0) == '-') {
        1
    } else {
        0
    };
    let ghost t = s@.subrange(start as int, n as int);
    proof {
        if start == 1 {
            assert(t =~= s@.drop_first());
        } else {
            assert(t =~= s@);
        }
    }
    if check_word_inf(s, start) || check_word_infinity(s, start) || check_word_nan(s, start) {
        return true;
    }
    let mut e = start;
    while e < n && s.get_char(e) != 'e' && s.get_char(e) != 'E'
        invariant
            start <= e <= n,
            n == s@.len(),
            forall|j: int| start <= j < e ==> s@[j] != 'e' && s@[j] != 'E',
        decreases n - e,
    {
        e = e + 1;
    }
    proof {
        assert forall|i: int| 0 <= i < e - start implies t[i] != 'e' && t[i] != 'E' by {
            assert(t[i] == s@[start + i]);
        }
        if e < n {
            assert(t[e - start] == s@[e as int]);
        }
        lemma_find_exp_is(t, e - start);
    }
    if e < n {
        let b1 = check_number(s, start, e);
        let b2 = check_signed_digits(s, e + 1);
        proof {
            assert(t.subrange(0, e - start) =~= s@.subrange(start as int, e as int));
            assert(t.subrange(e - start + 1, t.len() as int)
                =~= s@.subrange(e + 1, n as int));
        }
        b1 && b2
    } else {
        let b = check_number(s, start, n);
        proof {
            assert(t.subrange(0, t.len() as int) =~= t);
        }
        b
    }
}

} // verus!
