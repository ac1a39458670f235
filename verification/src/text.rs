//! Small text utilities: splitting and number parsing.

use crate::path::{digit_value, digits_value, is_digit};
use vstd::prelude::*;

verus! {

/// Position of the first occurrence of `c` in `s`.
pub open spec fn find_char(s: Seq<char>, c: char) -> Option<int>
    decreases s.len(),
{
    if s.len() == 0 {
        None
    } else if s[0] == c {
        Some(0)
    } else {
        match find_char(s.skip(1), c) {
            Some(i) => Some(i + 1),
            None => None,
        }
    }
}

/// Splits `s` by every occurrence of `sep`.
pub open spec fn split_seq(s: Seq<char>, sep: char) -> Seq<Seq<char>>
    decreases s.len(),
{
    match find_char(s, sep) {
        Some(i) => {
            proof {
                lemma_find_char(s, sep);
            }
            seq![s.take(i)] + split_seq(s.skip(i + 1), sep)
        },
        None => seq![s],
    }
}

/// Whether all characters are digits.
pub open spec fn all_digits(s: Seq<char>) -> bool {
    forall|i: int| 0 <= i < s.len() ==> is_digit(#[trigger] s[i])
}

/// Parses an unsigned number in the way `usize::from_str` does:
/// an optional `+` followed by at least one digit, fitting into `usize`.
pub open spec fn parse_usize_spec(s: Seq<char>) -> Option<usize> {
    let digits = if s.len() > 0 && s[0] == '+' {
        s.skip(1)
    } else {
        s
    };
    if digits.len() > 0 && all_digits(digits) && digits_value(digits) <= usize::MAX {
        Some(digits_value(digits) as usize)
    } else {
        None
    }
}

pub proof fn lemma_find_char(s: Seq<char>, c: char)
    ensures
        find_char(s, c) matches Some(i) ==> 0 <= i < s.len() && s[i] == c && forall|k: int|
            0 <= k < i ==> s[k] != c,
        find_char(s, c) is None ==> forall|k: int| 0 <= k < s.len() ==> s[k] != c,
    decreases s.len(),
{
    if s.len() > 0 && s[0] != c {
        lemma_find_char(s.skip(1), c);
        if let Some(i) = find_char(s.skip(1), c) {
            assert forall|k: int| 0 <= k < i + 1 implies s[k] != c by {
                if k > 0 {
                    assert(s[k] == s.skip(1)[k - 1]);
                }
            }
        } else {
            assert forall|k: int| 0 <= k < s.len() implies s[k] != c by {
                if k > 0 {
                    assert(s[k] == s.skip(1)[k - 1]);
                }
            }
        }
    }
}

/// Characterization of `find_char` by its defining properties.
pub proof fn lemma_find_char_unique(s: Seq<char>, c: char, i: int)
    requires
        0 <= i <= s.len(),
        i < s.len() ==> s[i] == c,
        forall|k: int| 0 <= k < i ==> s[k] != c,
    ensures
        find_char(s, c) == (if i < s.len() {
            Some(i)
        } else {
            None::<int>
        }),
{
    lemma_find_char(s, c);
    match find_char(s, c) {
        Some(j) => {
            if j < i {
                assert(s[j] != c);
            } else if i < j {
                assert(s[i] != c);
            }
        },
        None => {
            if i < s.len() {
                assert(s[i] != c);
            }
        },
    }
}

/// Finds the first occurrence of `c` in `s[from..]`.
pub fn find_from(s: &[char], from: usize, c: char) -> (r: Option<usize>)
    requires
        from <= s@.len(),
    ensures
        r == (match find_char(s@.skip(from as int), c) {
            Some(i) => Some((i + from) as usize),
            None => None::<usize>,
        }),
        r matches Some(j) ==> from <= j < s@.len() && s@[j as int] == c && find_char(
            s@.skip(from as int),
            c,
        ) == Some(j - from),
{
    let mut i = from;
    while i < s.len()
        invariant
            from <= i <= s@.len(),
            forall|k: int| from <= k < i ==> s@[k] != c,
        decreases s@.len() - i,
    {
        if s[i] == c {
            proof {
                lemma_find_char_unique(s@.skip(from as int), c, (i - from) as int);
            }
            return Some(i);
        }
        i = i + 1;
    }
    proof {
        lemma_find_char_unique(s@.skip(from as int), c, (s@.len() - from) as int);
    }
    None
}

/// Copies a range of characters into a new vector.
pub fn copy_range(s: &[char], from: usize, to: usize) -> (r: Vec<char>)
    requires
        from <= to <= s@.len(),
    ensures
        r@ == s@.subrange(from as int, to as int),
{
    let mut res: Vec<char> = Vec::new();
    let mut i = from;
    while i < to
        invariant
            from <= i <= to,
            to <= s@.len(),
            res@ == s@.subrange(from as int, i as int),
        decreases to - i,
    {
        res.push(s[i]);
        i = i + 1;
        assert(res@ =~= s@.subrange(from as int, i as int));
    }
    res
}

/// Splits characters by every occurrence of `sep`.
pub fn split_chars(s: &[char], sep: char) -> (r: Vec<Vec<char>>)
    ensures
        r@.len() == split_seq(s@, sep).len(),
        forall|i: int| 0 <= i < r@.len() ==> #[trigger] r@[i]@ == split_seq(s@, sep)[i],
{
    let mut res: Vec<Vec<char>> = Vec::new();
    let mut from: usize = 0;
    let n = s.len();
    assert(s@.skip(0) =~= s@);
    loop
        invariant
            n == s@.len(),
            from <= s@.len(),
            res@.len() + split_seq(s@.skip(from as int), sep).len() == split_seq(s@, sep).len(),
            forall|i: int| 0 <= i < res@.len() ==> #[trigger] res@[i]@ == split_seq(s@, sep)[i],
            forall|i: int|
                0 <= i < split_seq(s@.skip(from as int), sep).len() ==> #[trigger] split_seq(
                    s@.skip(from as int),
                    sep,
                )[i] == split_seq(s@, sep)[res@.len() + i],
        decreases s@.len() - from,
    {
        let ghost rest = s@.skip(from as int);
        proof {
            lemma_find_char(rest, sep);
        }
        match find_from(s, from, sep) {
            Some(j) => {
                let piece = copy_range(s, from, j);
                assert(piece@ =~= rest.take(j - from));
                assert(rest.skip(j - from + 1) =~= s@.skip(j + 1));
                let ghost old_len = res@.len();
                res.push(piece);
                assert(split_seq(rest, sep)[0] == piece@);
                assert forall|i: int|
                    0 <= i < split_seq(s@.skip(j + 1), sep).len() implies #[trigger] split_seq(
                    s@.skip(j + 1),
                    sep,
                )[i] == split_seq(s@, sep)[res@.len() + i] by {
                    assert(split_seq(rest, sep)[i + 1] == split_seq(s@.skip(j + 1), sep)[i]);
                }
                from = j + 1;
            },
            None => {
                let piece = copy_range(s, from, s.len());
                assert(piece@ =~= rest);
                let ghost old_res = res@;
                res.push(piece);
                assert(split_seq(rest, sep) == seq![rest]);
                assert(split_seq(rest, sep)[0] == split_seq(s@, sep)[old_res.len() as int]);
                assert forall|i: int| 0 <= i < res@.len() implies #[trigger] res@[i]@ == split_seq(
                    s@,
                    sep,
                )[i] by {
                    if i < old_res.len() {
                        assert(res@[i] == old_res[i]);
                    }
                }
                return res;
            },
        }
    }
}

/// Parses an unsigned number in the way `usize::from_str` does.
pub fn parse_usize(s: &[char]) -> (r: Option<usize>)
    ensures
        r == parse_usize_spec(s@),
{
    let start: usize = if s.len() > 0 && s[0] == '+' {
        1
    } else {
        0
    };
    let ghost digits = s@.skip(start as int);
    assert(digits == if s@.len() > 0 && s@[0] == '+' {
        s@.skip(1)
    } else {
        s@
    });
    if start == s.len() {
        return None;
    }
    let mut value: usize = 0;
    let mut i = start;
    while i < s.len()
        invariant
            start <= i <= s@.len(),
            digits == s@.skip(start as int),
            digits == if s@.len() > 0 && s@[0] == '+' {
                s@.skip(1)
            } else {
                s@
            },
            all_digits(s@.subrange(start as int, i as int)),
            value == digits_value(s@.subrange(start as int, i as int)),
        decreases s@.len() - i,
    {
        let c = s[i];
        let ghost prev = s@.subrange(start as int, i as int);
        let ghost next = s@.subrange(start as int, i + 1);
        assert(next.drop_last() =~= prev);
        if !('0' <= c && c <= '9') {
            assert(digits[i - start] == c);
            assert(!is_digit(digits[i - start]));
            assert(!all_digits(digits));
            assert(parse_usize_spec(s@) is None);
            return None;
        }
        let d = (c as u32 - '0' as u32) as usize;
        if value > (usize::MAX - d) / 10 {
            proof {
                assert(digits_value(next) > usize::MAX) by (nonlinear_arith)
                    requires
                        digits_value(next) == value * 10 + d,
                        value > (usize::MAX - d) / 10,
                        d < 10,
                ;
                lemma_digits_value_prefix_le(digits, i + 1 - start);
                assert(digits.take(i + 1 - start) =~= next);
                if all_digits(digits) {
                    assert(digits_value(digits) > usize::MAX);
                }
                assert(parse_usize_spec(s@) is None);
            }
            return None;
        }
        assert(value * 10 + d <= usize::MAX) by (nonlinear_arith)
            requires
                value <= (usize::MAX - d) / 10,
                d < 10,
        ;
        value = value * 10 + d;
        i = i + 1;
        assert(all_digits(next)) by {
            assert forall|k: int| 0 <= k < next.len() implies is_digit(#[trigger] next[k]) by {
                if k < prev.len() {
                    assert(next[k] == prev[k]);
                }
            }
        }
    }
    assert(s@.subrange(start as int, s@.len() as int) =~= digits);
    Some(value)
}

/// Digits of a `usize` literal: the text without a leading `+`.
pub open spec fn usize_digits(s: Seq<char>) -> Seq<char> {
    if s.len() > 0 && s[0] == '+' {
        s.skip(1)
    } else {
        s
    }
}

/// Whether a prefix made only of digits already exceeds `usize::MAX`.
pub open spec fn usize_overflows(digits: Seq<char>) -> bool {
    exists|m: int|
        0 < m <= digits.len() && all_digits(#[trigger] digits.take(m)) && digits_value(
            digits.take(m),
        ) > usize::MAX
}

/// The text of the error which `usize::from_str` reports for a text which
/// is not a `usize`: the digits are read from the left, and the first
/// character which is not a digit or makes the number too large decides.
pub open spec fn usize_error_text(s: Seq<char>) -> Seq<char> {
    if s.len() == 0 {
        "cannot parse integer from empty string"@
    } else if usize_overflows(usize_digits(s)) {
        "number too large to fit in target type"@
    } else {
        "invalid digit found in string"@
    }
}

/// The text of the error of parsing `s` as a `usize` (which fails).
pub fn usize_error_message(s: &[char]) -> (m: String)
    requires
        parse_usize_spec(s@) is None,
    ensures
        m@ == usize_error_text(s@),
{
    if s.len() == 0 {
        return "cannot parse integer from empty string".to_string();
    }
    let start: usize = if s[0] == '+' {
        1
    } else {
        0
    };
    let ghost digits = usize_digits(s@);
    assert(digits =~= s@.skip(start as int));
    let mut value: usize = 0;
    let mut i = start;
    while i < s.len()
        invariant
            start <= i <= s@.len(),
            s@.len() > 0,
            digits == usize_digits(s@),
            digits =~= s@.skip(start as int),
            all_digits(digits.take(i - start)),
            value == digits_value(digits.take(i - start)),
            parse_usize_spec(s@) is None,
        decreases s@.len() - i,
    {
        let c = s[i];
        let ghost prev = digits.take(i - start);
        let ghost next = digits.take(i + 1 - start);
        assert(next.drop_last() =~= prev);
        assert(digits[i - start] == c);
        if !('0' <= c && c <= '9') {
            proof {
                assert forall|m: int|
                    0 < m <= digits.len() && all_digits(#[trigger] digits.take(m)) implies digits_value(
                    digits.take(m),
                ) <= usize::MAX by {
                    if m > i - start {
                        assert(digits.take(m)[i - start] == c);
                    }
                    lemma_digits_value_prefix_le(prev, m);
                    assert(prev.take(m) =~= digits.take(m));
                }
            }
            return "invalid digit found in string".to_string();
        }
        let d = (c as u32 - '0' as u32) as usize;
        if value > (usize::MAX - d) / 10 {
            proof {
                assert(digits_value(next) > usize::MAX) by (nonlinear_arith)
                    requires
                        digits_value(next) == value * 10 + d,
                        value > (usize::MAX - d) / 10,
                        d < 10,
                ;
                assert(all_digits(next)) by {
                    assert forall|k: int| 0 <= k < next.len() implies is_digit(#[trigger] next[k]) by {
                        if k < prev.len() {
                            assert(next[k] == prev[k]);
                        }
                    }
                }
                assert(usize_overflows(digits));
            }
            return "number too large to fit in target type".to_string();
        }
        assert(value * 10 + d <= usize::MAX) by (nonlinear_arith)
            requires
                value <= (usize::MAX - d) / 10,
                d < 10,
        ;
        value = value * 10 + d;
        i = i + 1;
        assert(all_digits(next)) by {
            assert forall|k: int| 0 <= k < next.len() implies is_digit(#[trigger] next[k]) by {
                if k < prev.len() {
                    assert(next[k] == prev[k]);
                }
            }
        }
    }
    proof {
        assert(digits.take(i - start) =~= digits);
        if digits.len() > 0 {
            assert(parse_usize_spec(s@) == Some(value));
        }
        assert forall|m: int|
            0 < m <= digits.len() && all_digits(#[trigger] digits.take(m)) implies digits_value(
            digits.take(m),
        ) <= usize::MAX by {
            lemma_digits_value_prefix_le(digits, m);
        }
    }
    "invalid digit found in string".to_string()
}

/// The value of a digit prefix never exceeds the value of the whole
/// sequence, unless a non-digit follows.
pub proof fn lemma_digits_value_prefix_le(d: Seq<char>, k: int)
    requires
        0 <= k <= d.len(),
    ensures
        all_digits(d) ==> digits_value(d.take(k)) <= digits_value(d),
    decreases d.len(),
{
    if k < d.len() {
        assert(d.drop_last().take(k) =~= d.take(k));
        lemma_digits_value_prefix_le(d.drop_last(), k);
        if all_digits(d) {
            assert(all_digits(d.drop_last())) by {
                assert forall|i: int| 0 <= i < d.drop_last().len() implies is_digit(
                    #[trigger] d.drop_last()[i],
                ) by {
                    assert(d.drop_last()[i] == d[i]);
                }
            }
        }
    } else {
        assert(d.take(k) =~= d);
    }
}

} // verus!
