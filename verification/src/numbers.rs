//! The syntax of a decimal floating-point number as `f64::from_str` accepts
//! it: an optional sign, then `inf`, `infinity` or `nan` (in any ASCII case),
//! or digits with at most one point and at least one digit, then an optional
//! exponent `e` or `E`, an optional sign and one or more digits.
use vstd::prelude::*;

verus! {

pub open spec fn is_ascii_digit(c: char) -> bool {
    '0' <= c && c <= '9'
}

pub open spec fn is_sign(c: char) -> bool {
    c == '+' || c == '-'
}

pub open spec fn is_exp_mark(c: char) -> bool {
    c == 'e' || c == 'E'
}

/// The states of the reader of a number: 0 at the start, 1 after a sign,
/// 2 in the integer digits, 3 after a point with no digit before it, 4
/// after a point that follows digits, 5 in the fraction digits, 6 after the
/// exponent mark, 7 after the exponent's sign, 8 in the exponent digits,
/// and 9 once the text cannot be a number.
pub open spec fn number_step(state: u8, c: char) -> u8 {
    if state == 0 {
        if is_sign(c) { 1 } else if is_ascii_digit(c) { 2 } else if c == '.' { 3 } else { 9 }
    } else if state == 1 {
        if is_ascii_digit(c) { 2 } else if c == '.' { 3 } else { 9 }
    } else if state == 2 {
        if is_ascii_digit(c) { 2 } else if c == '.' { 4 } else if is_exp_mark(c) { 6 } else { 9 }
    } else if state == 3 {
        if is_ascii_digit(c) { 5 } else { 9 }
    } else if state == 4 || state == 5 {
        if is_ascii_digit(c) { 5 } else if is_exp_mark(c) { 6 } else { 9 }
    } else if state == 6 {
        if is_sign(c) { 7 } else if is_ascii_digit(c) { 8 } else { 9 }
    } else if state == 7 || state == 8 {
        if is_ascii_digit(c) { 8 } else { 9 }
    } else {
        9
    }
}

/// The state the reader is in after the text.
pub open spec fn number_run(s: Seq<char>) -> u8
    decreases s.len(),
{
    if s.len() == 0 {
        0
    } else {
        number_step(number_run(s.drop_last()), s.last())
    }
}

/// The text is a complete number.
pub open spec fn number_syntax(s: Seq<char>) -> bool {
    let q = number_run(s);
    q == 2 || q == 4 || q == 5 || q == 8
}

/// `c` is the lower-case letter `w` in either case.
pub open spec fn ascii_ci_eq(c: char, w: char) -> bool {
    c == w || ('a' <= w && w <= 'z' && (c as u32) + 32 == (w as u32))
}

/// The text is the word `w`, letters in any ASCII case.
pub open spec fn word_ci(s: Seq<char>, w: Seq<char>) -> bool {
    s.len() == w.len() && forall|i: int| 0 <= i < s.len() ==> ascii_ci_eq(#[trigger] s[i], w[i])
}

/// The text without one leading sign.
pub open spec fn unsigned_part(s: Seq<char>) -> Seq<char> {
    if s.len() > 0 && is_sign(s[0]) {
        s.skip(1)
    } else {
        s
    }
}

/// The text is a number `f64::from_str` reads.
pub open spec fn float_syntax(s: Seq<char>) -> bool {
    let b = unsigned_part(s);
    ||| word_ci(b, "inf"@)
    ||| word_ci(b, "infinity"@)
    ||| word_ci(b, "nan"@)
    ||| number_syntax(s)
}

fn step(state: u8, c: char) -> (r: u8)
    ensures
        r == number_step(state, c),
{
    let digit = '0' <= c && c <= '9';
    let sign = c == '+' || c == '-';
    let exp = c == 'e' || c == 'E';
    if state == 0 {
        if sign { 1 } else if digit { 2 } else if c == '.' { 3 } else { 9 }
    } else if state == 1 {
        if digit { 2 } else if c == '.' { 3 } else { 9 }
    } else if state == 2 {
        if digit { 2 } else if c == '.' { 4 } else if exp { 6 } else { 9 }
    } else if state == 3 {
        if digit { 5 } else { 9 }
    } else if state == 4 || state == 5 {
        if digit { 5 } else if exp { 6 } else { 9 }
    } else if state == 6 {
        if sign { 7 } else if digit { 8 } else { 9 }
    } else if state == 7 || state == 8 {
        if digit { 8 } else { 9 }
    } else {
        9
    }
}

/// Whether the characters of `s` from `from` on are the word `w`, letters in
/// any ASCII case.
fn word_ci_from(s: &str, from: usize, w: &str) -> (r: bool)
    requires
        from <= s@.len(),
    ensures
        r == word_ci(s@.skip(from as int), w@),
{
    let n = s.unicode_len();
    let m = w.unicode_len();
    if n - from != m {
        return false;
    }
    let mut i: usize = 0;
    while i < m
        invariant
            n == s@.len(),
            m == w@.len(),
            from <= n,
            n - from == m,
            i <= m,
            forall|j: int| 0 <= j < i ==> ascii_ci_eq(#[trigger] s@.skip(from as int)[j], w@[j]),
        decreases m - i,
    {
        let c = s.get_char(from + i);
        let x = w.get_char(i);
        assert(s@.skip(from as int)[i as int] == c);
        let same = c == x || ('a' <= x && x <= 'z' && (c as u32) + 32 == (x as u32));
        if !same {
            return false;
        }
        i = i + 1;
    }
    true
}

/// Whether `f64::from_str` reads the text as a number.
pub fn float_text(s: &str) -> (r: bool)
    ensures
        r == float_syntax(s@),
{
    let n = s.unicode_len();
    let from: usize = if n > 0 && (s.get_char(0) == '+' || s.get_char(0) == '-') {
        1
    } else {
        0
    };
    assert(unsigned_part(s@) == s@.skip(from as int));
    if word_ci_from(s, from, "inf") || word_ci_from(s, from, "infinity") || word_ci_from(s, from, "nan") {
        return true;
    }
    let mut state: u8 = 0;
    let mut i: usize = 0;
    while i < n
        invariant
            n == s@.len(),
            i <= n,
            state == number_run(s@.subrange(0, i as int)),
        decreases n - i,
    {
        let c = s.get_char(i);
        assert(s@.subrange(0, i + 1).drop_last() == s@.subrange(0, i as int));
        state = step(state, c);
        i = i + 1;
    }
    assert(s@.subrange(0, n as int) == s@);
    state == 2 || state == 4 || state == 5 || state == 8
}

} // verus!
