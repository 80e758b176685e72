//! Text of the configuration and state files: whitespace, fields between
//! separators, and small decimal numbers.

use vstd::prelude::*;

verus! {

/// Whether a character has the Unicode property `White_Space`.
pub uninterp spec fn spec_is_whitespace(c: char) -> bool;

/// `char::is_whitespace`: whether the character has the Unicode property
/// `White_Space`.
pub assume_specification[ char::is_whitespace ](c: char) -> (b: bool)
    ensures
        b == spec_is_whitespace(c),
;

/// The characters of a string.
pub fn to_chars(s: &str) -> (chars: Vec<char>)
    ensures
        chars@ == s@,
{
    let mut chars: Vec<char> = Vec::new();
    for c in it: s.chars()
        invariant
            it.seq() == s@,
            chars@ == s@.take(it.index() as int),
    {
        chars.push(c);
        assert(s@.take(it.index() + 1) =~= s@.take(it.index() as int).push(c));
    }
    assert(s@.take(s@.len() as int) =~= s@);
    chars
}

/// The number of whitespace characters at the start of `s`.
pub open spec fn leading_ws(s: Seq<char>) -> nat
    decreases s.len(),
{
    if s.len() > 0 && spec_is_whitespace(s[0]) {
        1 + leading_ws(s.drop_first())
    } else {
        0
    }
}

/// The number of whitespace characters at the end of `s`.
pub open spec fn trailing_ws(s: Seq<char>) -> nat
    decreases s.len(),
{
    if s.len() > 0 && spec_is_whitespace(s.last()) {
        1 + trailing_ws(s.drop_last())
    } else {
        0
    }
}

/// `s` without the whitespace at its start and at its end.
pub open spec fn spec_trim(s: Seq<char>) -> Seq<char> {
    let rest = s.skip(leading_ws(s) as int);
    rest.take(rest.len() - trailing_ws(rest))
}

/// The position of the first `sep` in `s`, or the length of `s` if there is
/// none.
pub open spec fn first_sep(s: Seq<char>, sep: char) -> nat
    decreases s.len(),
{
    if s.len() == 0 || s[0] == sep {
        0
    } else {
        1 + first_sep(s.drop_first(), sep)
    }
}

/// The value of a decimal digit.
pub open spec fn digit_value(c: char) -> Option<int> {
    if '0' <= c <= '9' {
        Some(c as int - '0' as int)
    } else {
        None
    }
}

/// The value of a run of decimal digits; `None` if a character is no digit.
pub open spec fn digits_value(s: Seq<char>) -> Option<int>
    decreases s.len(),
{
    if s.len() == 0 {
        Some(0)
    } else {
        match (digits_value(s.drop_last()), digit_value(s.last())) {
            (Some(high), Some(low)) => Some(10 * high + low),
            _ => None,
        }
    }
}

/// The number that `tok` writes: an optional `+` and one or more decimal
/// digits with a value of at most 255. Anything else is no number.
pub open spec fn spec_parse_u8(tok: Seq<char>) -> Option<u8> {
    let body = if tok.len() > 0 && tok[0] == '+' {
        tok.skip(1)
    } else {
        tok
    };
    if body.len() == 0 {
        None
    } else {
        match digits_value(body) {
            Some(v) => if v <= 255 {
                Some(v as u8)
            } else {
                None
            },
            None => None,
        }
    }
}

proof fn lemma_leading_ws_bound(s: Seq<char>)
    ensures
        leading_ws(s) <= s.len(),
    decreases s.len(),
{
    if s.len() > 0 && spec_is_whitespace(s[0]) {
        lemma_leading_ws_bound(s.drop_first());
    }
}

proof fn lemma_trailing_ws_bound(s: Seq<char>)
    ensures
        trailing_ws(s) <= s.len(),
    decreases s.len(),
{
    if s.len() > 0 && spec_is_whitespace(s.last()) {
        lemma_trailing_ws_bound(s.drop_last());
    }
}

proof fn lemma_first_sep_bound(s: Seq<char>, sep: char)
    ensures
        first_sep(s, sep) <= s.len(),
        first_sep(s, sep) < s.len() ==> s[first_sep(s, sep) as int] == sep,
        forall|j: int| 0 <= j < first_sep(s, sep) ==> s[j] != sep,
    decreases s.len(),
{
    if !(s.len() == 0 || s[0] == sep) {
        let t = s.drop_first();
        lemma_first_sep_bound(t, sep);
        assert forall|j: int| 0 <= j < first_sep(s, sep) implies s[j] != sep by {
            if j > 0 {
                assert(s[j] == t[j - 1]);
            }
        }
    }
}

/// A prefix of a run of digits is a run of digits with a value that is not
/// larger.
proof fn lemma_digits_prefix(s: Seq<char>, k: int)
    requires
        0 <= k <= s.len(),
        digits_value(s) is Some,
    ensures
        digits_value(s.take(k)) is Some,
        0 <= digits_value(s.take(k))->0 <= digits_value(s)->0,
    decreases s.len(),
{
    if k == s.len() {
        assert(s.take(k) =~= s);
        if s.len() > 0 {
            lemma_digits_prefix(s.drop_last(), k - 1);
        }
    } else {
        lemma_digits_prefix(s.drop_last(), k);
        assert(s.drop_last().take(k) =~= s.take(k));
    }
}

/// The bounds of the part of `chars[from..to]` that is left when the
/// whitespace at both ends is taken away.
pub fn trim_range(chars: &Vec<char>, from: usize, to: usize) -> (range: (usize, usize))
    requires
        from <= to <= chars@.len(),
    ensures
        from <= range.0 <= range.1 <= to,
        chars@.subrange(range.0 as int, range.1 as int) == spec_trim(
            chars@.subrange(from as int, to as int),
        ),
{
    let ghost s = chars@.subrange(from as int, to as int);
    let mut a = from;
    while a < to && chars[a].is_whitespace()
        invariant
            from <= a <= to <= chars@.len(),
            s == chars@.subrange(from as int, to as int),
            leading_ws(s) == (a - from) + leading_ws(chars@.subrange(a as int, to as int)),
        decreases to - a,
    {
        assert(chars@.subrange(a as int, to as int).drop_first() =~= chars@.subrange(
            a + 1,
            to as int,
        ));
        a += 1;
    }
    let ghost rest = chars@.subrange(a as int, to as int);
    assert(leading_ws(rest) == 0);
    assert(rest =~= s.skip(leading_ws(s) as int));
    let mut b = to;
    while b > a && chars[b - 1].is_whitespace()
        invariant
            a <= b <= to <= chars@.len(),
            rest == chars@.subrange(a as int, to as int),
            trailing_ws(rest) == (to - b) + trailing_ws(chars@.subrange(a as int, b as int)),
        decreases b - a,
    {
        assert(chars@.subrange(a as int, b as int).drop_last() =~= chars@.subrange(
            a as int,
            b - 1,
        ));
        b -= 1;
    }
    assert(trailing_ws(chars@.subrange(a as int, b as int)) == 0);
    assert(chars@.subrange(a as int, b as int) =~= rest.take(rest.len() - trailing_ws(rest)));
    (a, b)
}

/// The position of the first `sep` in `chars[from..to]`, or `to` if there is
/// none.
pub fn find_sep(chars: &Vec<char>, from: usize, to: usize, sep: char) -> (at: usize)
    requires
        from <= to <= chars@.len(),
    ensures
        from <= at <= to,
        at - from == first_sep(chars@.subrange(from as int, to as int), sep),
{
    let mut at = from;
    while at < to && chars[at] != sep
        invariant
            from <= at <= to <= chars@.len(),
            first_sep(chars@.subrange(from as int, to as int), sep) == (at - from) + first_sep(
                chars@.subrange(at as int, to as int),
                sep,
            ),
        decreases to - at,
    {
        assert(chars@.subrange(at as int, to as int).drop_first() =~= chars@.subrange(
            at + 1,
            to as int,
        ));
        at += 1;
    }
    at
}

/// Reads `chars[from..to]` as a number of at most 255.
pub fn parse_u8(chars: &Vec<char>, from: usize, to: usize) -> (value: Option<u8>)
    requires
        from <= to <= chars@.len(),
    ensures
        value == spec_parse_u8(chars@.subrange(from as int, to as int)),
{
    let ghost tok = chars@.subrange(from as int, to as int);
    let start = if from < to && chars[from] == '+' {
        from + 1
    } else {
        from
    };
    let ghost body = chars@.subrange(start as int, to as int);
    assert(body =~= if tok.len() > 0 && tok[0] == '+' {
        tok.skip(1)
    } else {
        tok
    });
    if start == to {
        return None;
    }
    let mut acc: u32 = 0;
    let mut i = start;
    while i < to
        invariant
            start <= i <= to <= chars@.len(),
            from <= start,
            tok == chars@.subrange(from as int, to as int),
            body == chars@.subrange(start as int, to as int),
            body == (if tok.len() > 0 && tok[0] == '+' {
                tok.skip(1)
            } else {
                tok
            }),
            body.len() > 0,
            digits_value(body.take(i - start)) == Some(acc as int),
            acc <= 255,
        decreases to - i,
    {
        let c = chars[i];
        let ghost next = body.take(i - start + 1);
        proof {
            assert(next.drop_last() =~= body.take(i - start));
            assert(next.last() == c);
            assert(digits_value(next) == match (digits_value(next.drop_last()), digit_value(c)) {
                (Some(high), Some(low)) => Some(10 * high + low),
                _ => None,
            });
            if digits_value(body) is Some {
                lemma_digits_prefix(body, i - start + 1);
            }
        }
        if c < '0' || c > '9' {
            assert(digits_value(body) is None);
            return None;
        }
        let digit: u32 = (c as u32) - ('0' as u32);
        acc = acc * 10 + digit;
        assert(digits_value(next) == Some(acc as int));
        if acc > 255 {
            assert(spec_parse_u8(tok) is None);
            return None;
        }
        i += 1;
    }
    assert(body.take(to - start) =~= body);
    Some(acc as u8)
}

} // verus!
