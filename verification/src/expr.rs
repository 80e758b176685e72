//! Expressions in configuration values, evaluated by the `evalexpr` crate.
//!
//! The evaluator knows functions that can panic on their arguments, and it
//! descends as deep as an expression nests. Only plain expressions are handed
//! to it: numbers, `true` and `false`, the arithmetic, comparison and boolean
//! operators, brackets and whitespace, in a text of bounded length.

use vstd::prelude::*;
use crate::text::{spec_is_whitespace, to_chars};

verus! {

/// The longest text that is read as an expression.
pub const MAX_EXPR_LEN: usize = 256;

/// Whether the character is a decimal digit.
pub open spec fn is_digit(c: char) -> bool {
    '0' <= c <= '9'
}

/// Whether the character can stand in a number: a digit, the point, or the
/// mark of the exponent.
pub open spec fn is_number_char(c: char) -> bool {
    is_digit(c) || c == '.' || c == 'e' || c == 'E'
}

/// Whether the character can stand in a word: in a number, or in `true` or
/// `false`.
pub open spec fn is_word_char(c: char) -> bool {
    is_number_char(c) || c == 'a' || c == 'f' || c == 'l' || c == 'r' || c == 's' || c == 't'
        || c == 'u'
}

/// Whether the character is part of an arithmetic, comparison or boolean
/// operator, or a bracket.
pub open spec fn is_operator_char(c: char) -> bool {
    c == '+' || c == '-' || c == '*' || c == '/' || c == '%' || c == '^' || c == '<' || c == '>'
        || c == '=' || c == '!' || c == '&' || c == '|' || c == '(' || c == ')'
}

/// The number of word characters at the start of `s`.
pub open spec fn word_len(s: Seq<char>) -> nat
    decreases s.len(),
{
    if s.len() > 0 && is_word_char(s[0]) {
        1 + word_len(s.drop_first())
    } else {
        0
    }
}

/// Whether a word starts at position `a` of `text`: a word character that
/// no word character precedes.
pub open spec fn is_word_start(text: Seq<char>, a: int) -> bool {
    0 <= a < text.len() && is_word_char(text[a]) && (a == 0 || !is_word_char(text[a - 1]))
}

/// The word that starts at position `a` of `text`.
pub open spec fn word_at(text: Seq<char>, a: int) -> Seq<char> {
    text.subrange(a, a + word_len(text.skip(a)))
}

/// Whether the word is `true`, `false`, or has the shape of a number: it
/// starts with a digit or a point and holds only digits, points and marks of
/// the exponent.
pub open spec fn word_ok(w: Seq<char>) -> bool {
    ||| w == seq!['t', 'r', 'u', 'e']
    ||| w == seq!['f', 'a', 'l', 's', 'e']
    ||| (w.len() > 0 && (is_digit(w[0]) || w[0] == '.') && forall|i: int|
        0 <= i < w.len() ==> is_number_char(#[trigger] w[i]))
}

/// Whether the text is a plain expression: at most `MAX_EXPR_LEN`
/// characters, each of them a word character, an operator character or
/// whitespace, and every word a number, `true` or `false`. Such a text names
/// no function and no variable that exists, and holds no string.
pub open spec fn spec_plain_expr(text: Seq<char>) -> bool {
    &&& text.len() <= MAX_EXPR_LEN
    &&& forall|i: int|
        0 <= i < text.len() ==> is_word_char(#[trigger] text[i]) || is_operator_char(text[i])
            || spec_is_whitespace(text[i])
    &&& forall|a: int| is_word_start(text, a) ==> word_ok(#[trigger] word_at(text, a))
}

/// What `evalexpr::eval_boolean` makes of an expression: its truth value, or
/// the text of the error where the evaluation fails.
pub uninterp spec fn spec_eval_boolean(expr: Seq<char>) -> Result<bool, Seq<char>>;

/// What `evalexpr::eval_number` makes of an expression, cut to an integer:
/// the fraction is dropped, a value beyond the range of `i128` becomes the
/// nearest bound, and a value that is no number becomes zero; or the text of
/// the error where the evaluation fails.
pub uninterp spec fn spec_eval_integer(expr: Seq<char>) -> Result<i128, Seq<char>>;

/// The result with the text of its error in place of the error.
pub open spec fn with_text<T>(r: Result<T, String>) -> Result<T, Seq<char>> {
    match r {
        Ok(v) => Ok(v),
        Err(text) => Err(text@),
    }
}

/// `evalexpr::eval_boolean` on a plain expression, with the text of the error
/// where the evaluation fails. On a plain expression the evaluator calls none
/// of its functions, works on integers with checked operations only, and
/// nests no deeper than the text is long.
#[verifier::external_body]
pub(crate) fn eval_boolean(expr: &str) -> (r: Result<bool, String>)
    requires
        spec_plain_expr(expr@),
    ensures
        with_text(r) == spec_eval_boolean(expr@),
{
    match evalexpr::eval_boolean(expr) {
        Ok(b) => Ok(b),
        Err(e) => Err(e.to_string()),
    }
}

/// `evalexpr::eval_number` on a plain expression, the number cut to an
/// integer, with the text of the error where the evaluation fails. On a plain
/// expression the evaluator calls none of its functions, works on integers
/// with checked operations only, and nests no deeper than the text is long.
#[verifier::external_body]
pub(crate) fn eval_integer(expr: &str) -> (r: Result<i128, String>)
    requires
        spec_plain_expr(expr@),
    ensures
        with_text(r) == spec_eval_integer(expr@),
{
    match evalexpr::eval_number(expr) {
        Ok(v) => Ok(v as i128),
        Err(e) => Err(e.to_string()),
    }
}

/// The word characters at the start of `s` are word characters, and the
/// character after them, if there is one, is none.
proof fn lemma_word_len(s: Seq<char>)
    ensures
        word_len(s) <= s.len(),
        forall|k: int| 0 <= k < word_len(s) ==> is_word_char(#[trigger] s[k]),
        word_len(s) < s.len() ==> !is_word_char(s[word_len(s) as int]),
        s.len() > 0 && is_word_char(s[0]) ==> word_len(s) >= 1,
    decreases s.len(),
{
    if s.len() > 0 && is_word_char(s[0]) {
        let t = s.drop_first();
        lemma_word_len(t);
        assert forall|k: int| 0 <= k < word_len(s) implies is_word_char(#[trigger] s[k]) by {
            if k > 0 {
                assert(s[k] == t[k - 1]);
            }
        }
        if word_len(s) < s.len() {
            assert(s[word_len(s) as int] == t[word_len(t) as int]);
        }
    }
}

fn digit(c: char) -> (r: bool)
    ensures
        r == is_digit(c),
{
    '0' <= c && c <= '9'
}

fn number_char(c: char) -> (r: bool)
    ensures
        r == is_number_char(c),
{
    digit(c) || c == '.' || c == 'e' || c == 'E'
}

fn word_char(c: char) -> (r: bool)
    ensures
        r == is_word_char(c),
{
    number_char(c) || c == 'a' || c == 'f' || c == 'l' || c == 'r' || c == 's' || c == 't' || c
        == 'u'
}

fn operator_char(c: char) -> (r: bool)
    ensures
        r == is_operator_char(c),
{
    c == '+' || c == '-' || c == '*' || c == '/' || c == '%' || c == '^' || c == '<' || c == '>'
        || c == '=' || c == '!' || c == '&' || c == '|' || c == '(' || c == ')'
}

/// The end of the word characters that start at `from`.
fn word_end(chars: &Vec<char>, from: usize) -> (to: usize)
    requires
        from <= chars@.len(),
    ensures
        from <= to <= chars@.len(),
        to - from == word_len(chars@.skip(from as int)),
{
    let mut at = from;
    while at < chars.len() && word_char(chars[at])
        invariant
            from <= at <= chars@.len(),
            word_len(chars@.skip(from as int)) == (at - from) + word_len(chars@.skip(at as int)),
        decreases chars@.len() - at,
    {
        assert(chars@.skip(at as int).drop_first() =~= chars@.skip(at + 1));
        at += 1;
    }
    at
}

/// Whether `chars[a..b]` is `true`, `false`, or has the shape of a number.
fn word_is_ok(chars: &Vec<char>, a: usize, b: usize) -> (ok: bool)
    requires
        a <= b <= chars@.len(),
    ensures
        ok == word_ok(chars@.subrange(a as int, b as int)),
{
    let ghost w = chars@.subrange(a as int, b as int);
    let len = b - a;
    if len == 4 && chars[a] == 't' && chars[a + 1] == 'r' && chars[a + 2] == 'u' && chars[a + 3]
        == 'e' {
        assert(w =~= seq!['t', 'r', 'u', 'e']);
        return true;
    }
    if len == 5 && chars[a] == 'f' && chars[a + 1] == 'a' && chars[a + 2] == 'l' && chars[a + 3]
        == 's' && chars[a + 4] == 'e' {
        assert(w =~= seq!['f', 'a', 'l', 's', 'e']);
        return true;
    }
    proof {
        let t = seq!['t', 'r', 'u', 'e'];
        let f = seq!['f', 'a', 'l', 's', 'e'];
        if w == t {
            assert(w.len() == 4 && w[0] == t[0] && w[1] == t[1] && w[2] == t[2] && w[3] == t[3]);
        }
        if w == f {
            assert(w.len() == 5 && w[0] == f[0] && w[1] == f[1] && w[2] == f[2] && w[3] == f[3]
                && w[4] == f[4]);
        }
        assert(w != t && w != f);
    }
    if len == 0 {
        return false;
    }
    if !(digit(chars[a]) || chars[a] == '.') {
        assert(w[0] == chars@[a as int]);
        return false;
    }
    let mut k = a;
    while k < b
        invariant
            a <= k <= b <= chars@.len(),
            w == chars@.subrange(a as int, b as int),
            w != seq!['t', 'r', 'u', 'e'],
            w != seq!['f', 'a', 'l', 's', 'e'],
            forall|i: int| 0 <= i < k - a ==> is_number_char(#[trigger] w[i]),
        decreases b - k,
    {
        if !number_char(chars[k]) {
            assert(w[k - a] == chars@[k as int]);
            return false;
        }
        assert(w[k - a] == chars@[k as int]);
        k += 1;
    }
    assert(w[0] == chars@[a as int]);
    true
}

/// Whether the text is a plain expression.
pub fn is_plain_expr(text: &str) -> (plain: bool)
    ensures
        plain == spec_plain_expr(text@),
{
    let chars = to_chars(text);
    let n = chars.len();
    if n > MAX_EXPR_LEN {
        return false;
    }
    let mut i: usize = 0;
    while i < n
        invariant
            i <= n,
            n == chars@.len(),
            chars@ == text@,
            n <= MAX_EXPR_LEN,
            forall|k: int|
                0 <= k < i ==> is_word_char(#[trigger] chars@[k]) || is_operator_char(chars@[k])
                    || spec_is_whitespace(chars@[k]),
            forall|a: int|
                is_word_start(chars@, a) && a < i ==> word_ok(#[trigger] word_at(chars@, a)),
            i < n && is_word_char(chars@[i as int]) ==> is_word_start(chars@, i as int),
        decreases n - i,
    {
        let c = chars[i];
        if word_char(c) {
            let j = word_end(&chars, i);
            proof {
                lemma_word_len(chars@.skip(i as int));
                assert(chars@.skip(i as int)[0] == chars@[i as int]);
                assert forall|k: int| i <= k < j implies is_word_char(#[trigger] chars@[k]) by {
                    assert(chars@.skip(i as int)[k - i] == chars@[k]);
                }
                if j < n {
                    assert(chars@.skip(i as int)[j - i] == chars@[j as int]);
                }
            }
            if !word_is_ok(&chars, i, j) {
                assert(is_word_start(chars@, i as int) && !word_ok(word_at(chars@, i as int)));
                return false;
            }
            i = j;
        } else if operator_char(c) || c.is_whitespace() {
            i += 1;
        } else {
            assert(!(is_word_char(chars@[i as int]) || is_operator_char(chars@[i as int])
                || spec_is_whitespace(chars@[i as int])));
            return false;
        }
    }
    true
}

} // verus!
