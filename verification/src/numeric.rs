//! The classification rule for column values: whether a text is a valid
//! 64-bit floating-point literal. The standard library documents the exact
//! grammar its float parser accepts (an optional sign, then `inf`,
//! `infinity` or `nan` case-insensitively, or a number made of digits with
//! an optional point and an optional signed exponent); that grammar is
//! stated here as a spec and decided by verified code.
use vstd::prelude::*;

use crate::strconv::str_chars;

verus! {

/// A decimal digit character.
pub open spec fn is_digit_char(c: char) -> bool {
    '0' <= c && c <= '9'
}

/// Every character of `s` in `[from, to)` is a decimal digit.
pub open spec fn digits_in(s: Seq<char>, from: int, to: int) -> bool {
    forall|i: int| from <= i < to ==> is_digit_char(#[trigger] s[i])
}

/// Lowercases the letters that the special float words are spelled with,
/// leaving every other character alone.
pub open spec fn lower_ci(c: char) -> char {
    if c == 'I' {
        'i'
    } else if c == 'N' {
        'n'
    } else if c == 'F' {
        'f'
    } else if c == 'T' {
        't'
    } else if c == 'Y' {
        'y'
    } else if c == 'A' {
        'a'
    } else {
        c
    }
}

/// The sequence with `lower_ci` applied to each character.
pub open spec fn seq_lower(s: Seq<char>) -> Seq<char> {
    s.map_values(|c: char| lower_ci(c))
}

/// The text is one of the special float words, case-insensitively.
pub open spec fn is_special_word(t: Seq<char>) -> bool {
    seq_lower(t) == "inf"@ || seq_lower(t) == "infinity"@ || seq_lower(t) == "nan"@
}

/// The first index at or after `from` holding an exponent marker, or the
/// length when there is none.
pub open spec fn find_e(s: Seq<char>, from: int) -> int
    decreases s.len() - from,
{
    if from < 0 || from >= s.len() {
        s.len() as int
    } else if s[from] == 'e' || s[from] == 'E' {
        from
    } else {
        find_e(s, from + 1)
    }
}

/// The first index at or after `from` holding a decimal point, or the
/// length when there is none.
pub open spec fn find_dot(s: Seq<char>, from: int) -> int
    decreases s.len() - from,
{
    if from < 0 || from >= s.len() {
        s.len() as int
    } else if s[from] == '.' {
        from
    } else {
        find_dot(s, from + 1)
    }
}

/// `find_e` names the first exponent marker at or after `from`.
pub proof fn lemma_find_e(s: Seq<char>, from: int)
    requires
        0 <= from <= s.len(),
    ensures
        from <= find_e(s, from) <= s.len(),
        find_e(s, from) < s.len() ==> (s[find_e(s, from)] == 'e' || s[find_e(s, from)] == 'E'),
        forall|j: int|
            from <= j < find_e(s, from) ==> (#[trigger] s[j]) != 'e' && s[j] != 'E',
    decreases s.len() - from,
{
    if from < s.len() && !(s[from] == 'e' || s[from] == 'E') {
        lemma_find_e(s, from + 1);
    }
}

/// `find_dot` names the first decimal point at or after `from`.
pub proof fn lemma_find_dot(s: Seq<char>, from: int)
    requires
        0 <= from <= s.len(),
    ensures
        from <= find_dot(s, from) <= s.len(),
        find_dot(s, from) < s.len() ==> s[find_dot(s, from)] == '.',
        forall|j: int| from <= j < find_dot(s, from) ==> (#[trigger] s[j]) != '.',
    decreases s.len() - from,
{
    if from < s.len() && s[from] != '.' {
        lemma_find_dot(s, from + 1);
    }
}

/// Digits with an optional leading sign, at least one digit.
pub open spec fn is_signed_count(x: Seq<char>) -> bool {
    let b: int = if x.len() > 0 && (x[0] == '+' || x[0] == '-') {
        1
    } else {
        0
    };
    x.len() > b && digits_in(x, b, x.len() as int)
}

/// A mantissa: digits, an optional point, digits — with at least one digit
/// on one side of the point.
pub open spec fn is_mantissa(m: Seq<char>) -> bool {
    let d = find_dot(m, 0);
    if d == m.len() {
        m.len() > 0 && digits_in(m, 0, m.len() as int)
    } else {
        digits_in(m, 0, d) && digits_in(m, d + 1, m.len() as int) && (d > 0 || d + 1 < m.len())
    }
}

/// A number: a mantissa, optionally followed by an exponent marker and a
/// signed digit count.
pub open spec fn is_number(t: Seq<char>) -> bool {
    let e = find_e(t, 0);
    is_mantissa(t.take(e)) && (e == t.len() || is_signed_count(t.skip(e + 1)))
}

/// Whether a text is a valid 64-bit floating-point literal: an optional
/// sign, then one of the special words or a number. This is the rule that
/// classifies a column value as a numeric measurement field.
pub open spec fn is_numeric_literal(s: Seq<char>) -> bool {
    let t = if s.len() > 0 && (s[0] == '+' || s[0] == '-') {
        s.skip(1)
    } else {
        s
    };
    is_special_word(t) || is_number(t)
}

/// Copies the characters of `s` in `[from, to)`.
pub fn copy_range(s: &Vec<char>, from: usize, to: usize) -> (r: Vec<char>)
    requires
        from <= to <= s@.len(),
    ensures
        r@ == s@.subrange(from as int, to as int),
{
    let mut r: Vec<char> = Vec::new();
    let mut i: usize = from;
    while i < to
        invariant
            from <= i <= to <= s@.len(),
            r@ == s@.subrange(from as int, i as int),
        decreases to - i,
    {
        r.push(s[i]);
        proof {
            assert(r@ =~= s@.subrange(from as int, i + 1 as int));
        }
        i += 1;
    }
    r
}

/// Lowercases the special-word letters of one character.
fn lower_ci_char(c: char) -> (r: char)
    ensures
        r == lower_ci(c),
{
    if c == 'I' {
        'i'
    } else if c == 'N' {
        'n'
    } else if c == 'F' {
        'f'
    } else if c == 'T' {
        't'
    } else if c == 'Y' {
        'y'
    } else if c == 'A' {
        'a'
    } else {
        c
    }
}

/// Decides whether the text is one of the special float words.
fn is_special_text(t: &Vec<char>) -> (r: bool)
    ensures
        r == is_special_word(t@),
{
    let mut low: Vec<char> = Vec::new();
    let mut i: usize = 0;
    while i < t.len()
        invariant
            i <= t@.len(),
            low@ == seq_lower(t@.take(i as int)),
        decreases t@.len() - i,
    {
        low.push(lower_ci_char(t[i]));
        proof {
            assert(low@ =~= seq_lower(t@.take(i + 1 as int)));
        }
        i += 1;
    }
    proof {
        assert(t@.take(t@.len() as int) =~= t@);
        reveal_strlit("inf");
        reveal_strlit("infinity");
        reveal_strlit("nan");
    }
    let is_inf = low.len() == 3 && low[0] == 'i' && low[1] == 'n' && low[2] == 'f';
    let is_infinity = low.len() == 8 && low[0] == 'i' && low[1] == 'n' && low[2] == 'f' && low[3]
        == 'i' && low[4] == 'n' && low[5] == 'i' && low[6] == 't' && low[7] == 'y';
    let is_nan = low.len() == 3 && low[0] == 'n' && low[1] == 'a' && low[2] == 'n';
    proof {
        if is_inf {
            assert(low@ =~= "inf"@);
        }
        if is_infinity {
            assert(low@ =~= "infinity"@);
        }
        if is_nan {
            assert(low@ =~= "nan"@);
        }
    }
    is_inf || is_infinity || is_nan
}

/// Decides whether every character in `[from, to)` is a digit.
fn digits_in_range(t: &Vec<char>, from: usize, to: usize) -> (r: bool)
    requires
        from <= to <= t@.len(),
    ensures
        r == digits_in(t@, from as int, to as int),
{
    let mut i: usize = from;
    while i < to
        invariant
            from <= i <= to <= t@.len(),
            forall|j: int| from <= j < i ==> is_digit_char(#[trigger] t@[j]),
        decreases to - i,
    {
        let c = t[i];
        if !('0' <= c && c <= '9') {
            return false;
        }
        i += 1;
    }
    true
}

/// Finds the first exponent marker at or after `from`.
fn find_e_at(t: &Vec<char>, from: usize) -> (r: usize)
    requires
        from <= t@.len(),
    ensures
        r == find_e(t@, from as int),
        from <= r <= t@.len(),
{
    proof {
        lemma_find_e(t@, from as int);
    }
    let mut i: usize = from;
    while i < t.len()
        invariant
            from <= i <= t@.len(),
            forall|j: int| from <= j < i ==> (#[trigger] t@[j]) != 'e' && t@[j] != 'E',
        decreases t@.len() - i,
    {
        let c = t[i];
        if c == 'e' || c == 'E' {
            proof {
                lemma_find_e(t@, from as int);
                let f = find_e(t@, from as int);
                if f < i {
                    assert(t@[f] != 'e' && t@[f] != 'E');
                }
                if f > i {
                    assert(t@[i as int] != 'e' && t@[i as int] != 'E');
                }
            }
            return i;
        }
        i += 1;
    }
    proof {
        lemma_find_e(t@, from as int);
        let f = find_e(t@, from as int);
        if f < t@.len() {
            assert(t@[f] != 'e' && t@[f] != 'E');
        }
    }
    t.len()
}

/// Finds the first decimal point at or after `from`.
fn find_dot_at(t: &Vec<char>, from: usize) -> (r: usize)
    requires
        from <= t@.len(),
    ensures
        r == find_dot(t@, from as int),
        from <= r <= t@.len(),
{
    proof {
        lemma_find_dot(t@, from as int);
    }
    let mut i: usize = from;
    while i < t.len()
        invariant
            from <= i <= t@.len(),
            forall|j: int| from <= j < i ==> (#[trigger] t@[j]) != '.',
        decreases t@.len() - i,
    {
        let c = t[i];
        if c == '.' {
            proof {
                lemma_find_dot(t@, from as int);
                let f = find_dot(t@, from as int);
                if f < i {
                    assert(t@[f] != '.');
                }
                if f > i {
                    assert(t@[i as int] != '.');
                }
            }
            return i;
        }
        i += 1;
    }
    proof {
        lemma_find_dot(t@, from as int);
        let f = find_dot(t@, from as int);
        if f < t@.len() {
            assert(t@[f] != '.');
        }
    }
    t.len()
}

/// Decides whether the text is digits with an optional leading sign.
fn is_signed_count_text(x: &Vec<char>) -> (r: bool)
    ensures
        r == is_signed_count(x@),
{
    let b: usize = if x.len() > 0 && {
        let c = x[0];
        c == '+' || c == '-'
    } {
        1
    } else {
        0
    };
    x.len() > b && digits_in_range(x, b, x.len())
}

/// Decides whether the text is a mantissa.
fn is_mantissa_text(m: &Vec<char>) -> (r: bool)
    ensures
        r == is_mantissa(m@),
{
    let d = find_dot_at(m, 0);
    proof {
        lemma_find_dot(m@, 0);
    }
    if d == m.len() {
        m.len() > 0 && digits_in_range(m, 0, m.len())
    } else {
        digits_in_range(m, 0, d) && digits_in_range(m, d + 1, m.len()) && (d > 0 || d + 1 < m.len())
    }
}

/// Decides whether the text is a number.
fn is_number_text(t: &Vec<char>) -> (r: bool)
    ensures
        r == is_number(t@),
{
    let e = find_e_at(t, 0);
    proof {
        lemma_find_e(t@, 0);
    }
    let mant = copy_range(t, 0, e);
    proof {
        assert(mant@ =~= t@.take(e as int));
    }
    if !is_mantissa_text(&mant) {
        return false;
    }
    if e == t.len() {
        true
    } else {
        let x = copy_range(t, e + 1, t.len());
        proof {
            assert(x@ =~= t@.skip(e + 1 as int));
        }
        is_signed_count_text(&x)
    }
}

/// Decides whether a text is a valid 64-bit floating-point literal — the
/// classification rule for measurement fields against tags.
pub fn is_numeric_text(s: &str) -> (r: bool)
    ensures
        r == is_numeric_literal(s@),
{
    let chars = str_chars(s);
    let start: usize = if chars.len() > 0 && {
        let c = chars[0];
        c == '+' || c == '-'
    } {
        1
    } else {
        0
    };
    let t = copy_range(&chars, start, chars.len());
    proof {
        if start == 1 {
            assert(t@ =~= s@.skip(1));
        } else {
            assert(t@ =~= s@);
        }
    }
    is_special_text(&t) || is_number_text(&t)
}

} // verus!
