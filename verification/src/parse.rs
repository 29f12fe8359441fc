//! Reading numbers and fields out of a line of text.
use vstd::prelude::*;

use crate::text::{chars_of, is_whitespace, lemma_until_char_unique, matches_at,
    occurs_at, slice_of, string_of, text_views, trim_start_spec, until_char};

verus! {

/// Whether `c` is one of the ten ASCII digits.
pub open spec fn is_digit(c: char) -> bool {
    '0' <= c && c <= '9'
}

/// The value of a digit.
pub open spec fn digit_value(c: char) -> int {
    c as int - '0' as int
}

/// The number that a row of digits stands for.
pub open spec fn digits_value(digits: Seq<char>) -> int
    decreases digits.len(),
{
    if digits.len() == 0 {
        0
    } else {
        digits_value(digits.drop_last()) * 10 + digit_value(digits.last())
    }
}

/// Whether every character of `text` is a digit.
pub open spec fn all_digits(text: Seq<char>) -> bool {
    forall|i: int| 0 <= i < text.len() ==> is_digit(#[trigger] text[i])
}

/// The digits at the front of `text`, up to the first character that is none.
pub open spec fn digit_run(text: Seq<char>) -> Seq<char>
    decreases text.len(),
{
    if text.len() == 0 || !is_digit(text[0]) {
        Seq::<char>::empty()
    } else {
        seq![text[0]] + digit_run(text.drop_first())
    }
}

/// `text` without the characters `c` at its front.
pub open spec fn without_leading(text: Seq<char>, c: char) -> Seq<char>
    decreases text.len(),
{
    if text.len() == 0 || text[0] != c {
        text
    } else {
        without_leading(text.drop_first(), c)
    }
}

/// The position at which `pattern` first stands in `text`.
pub open spec fn find_spec(text: Seq<char>, pattern: Seq<char>) -> Option<int>
    decreases text.len(),
{
    if occurs_at(text, pattern, 0) {
        Some(0)
    } else if text.len() == 0 {
        None
    } else {
        match find_spec(text.drop_first(), pattern) {
            Some(at) => Some(at + 1),
            None => None,
        }
    }
}

/// What stands before and after the first `separator` in `text`.
pub open spec fn split_once_spec(text: Seq<char>, separator: Seq<char>) -> Option<
    (Seq<char>, Seq<char>),
> {
    match find_spec(text, separator) {
        Some(at) => Some((text.take(at), text.skip(at + separator.len()))),
        None => None,
    }
}

/// The pieces of `text` between the characters `separator`; a text without one is one piece.
pub open spec fn split_spec(text: Seq<char>, separator: char) -> Seq<Seq<char>>
    decreases text.len(),
{
    let n = until_char(text, separator);
    if n < 0 || n >= text.len() {
        seq![text]
    } else {
        seq![text.take(n)] + split_spec(text.skip(n + 1), separator)
    }
}

/// What stands behind the last `c` in `text`; all of it where there is none.
pub open spec fn after_last(text: Seq<char>, c: char) -> Seq<char>
    decreases text.len(),
{
    if text.len() == 0 || text.last() == c {
        Seq::<char>::empty()
    } else {
        after_last(text.drop_last(), c).push(text.last())
    }
}

/// The whole number of 64 bits that `text` is: an optional sign, then digits and nothing else.
pub open spec fn whole_number(text: Seq<char>) -> Option<int> {
    let signed = text.len() > 0 && (text[0] == '-' || text[0] == '+');
    let digits = if signed {
        text.skip(1)
    } else {
        text
    };
    let value = if signed && text[0] == '-' {
        -digits_value(digits)
    } else {
        digits_value(digits)
    };
    if digits.len() > 0 && all_digits(digits) && i64::MIN <= value <= i64::MAX {
        Some(value)
    } else {
        None
    }
}

/// The whole number at the front of `text`, behind white space and minus signs; what follows
/// its digits is not looked at.
pub open spec fn front_number(text: Seq<char>) -> Option<int> {
    let body = trim_start_spec(text);
    let digits = digit_run(without_leading(body, '-'));
    if digits.len() == 0 || digits_value(digits) > i64::MAX {
        None
    } else if body[0] == '-' {
        Some(-digits_value(digits))
    } else {
        Some(digits_value(digits))
    }
}

/// Where `pattern` is found is where it stands and where it stands nowhere before.
pub proof fn lemma_find(text: Seq<char>, pattern: Seq<char>)
    ensures
        match find_spec(text, pattern) {
            Some(at) => occurs_at(text, pattern, at) && forall|k: int|
                0 <= k < at ==> !occurs_at(text, pattern, k),
            None => forall|k: int| !occurs_at(text, pattern, k),
        },
    decreases text.len(),
{
    if !occurs_at(text, pattern, 0) && text.len() > 0 {
        let rest = text.drop_first();
        lemma_find(rest, pattern);
        assert forall|k: int| k > 0 implies occurs_at(text, pattern, k) == occurs_at(
            rest,
            pattern,
            k - 1,
        ) by {
            if k + pattern.len() <= text.len() {
                assert(text.subrange(k, k + pattern.len()) =~= rest.subrange(
                    k - 1,
                    k - 1 + pattern.len(),
                ));
            }
        }
    }
}

proof fn lemma_find_unique(text: Seq<char>, pattern: Seq<char>, at: int)
    requires
        occurs_at(text, pattern, at),
        forall|k: int| 0 <= k < at ==> !occurs_at(text, pattern, k),
    ensures
        find_spec(text, pattern) == Some(at),
{
    lemma_find(text, pattern);
    match find_spec(text, pattern) {
        Some(found) => {
            if found < at {
                assert(!occurs_at(text, pattern, found));
            }
        },
        None => {
            assert(!occurs_at(text, pattern, at));
        },
    }
}

proof fn lemma_digits_value_positive(digits: Seq<char>)
    requires
        all_digits(digits),
    ensures
        digits_value(digits) >= 0,
    decreases digits.len(),
{
    if digits.len() > 0 {
        assert(all_digits(digits.drop_last()));
        assert(is_digit(digits[digits.len() - 1]));
        lemma_digits_value_positive(digits.drop_last());
    }
}

/// The position at which `pattern` first stands in `text`.
pub fn find(text: &[char], pattern: &[char]) -> (position: Option<usize>)
    ensures
        match position {
            Some(at) => find_spec(text@, pattern@) == Some(at as int) && at + pattern@.len()
                <= text@.len(),
            None => find_spec(text@, pattern@) is None,
        },
{
    let mut at: usize = 0;
    while at < text.len()
        invariant
            at <= text.len(),
            forall|k: int| 0 <= k < at ==> !occurs_at(text@, pattern@, k),
        decreases text.len() - at,
    {
        if matches_at(text, pattern, at) {
            proof {
                lemma_find_unique(text@, pattern@, at as int);
            }
            return Some(at);
        }
        at = at + 1;
    }
    if matches_at(text, pattern, at) {
        proof {
            lemma_find_unique(text@, pattern@, at as int);
        }
        return Some(at);
    }
    proof {
        lemma_find(text@, pattern@);
        match find_spec(text@, pattern@) {
            Some(found) => {
                assert(!occurs_at(text@, pattern@, found));
            },
            None => {},
        }
    }
    None
}

/// What stands before and after the first `separator` in `text`.
pub fn split_once(text: &[char], separator: &[char]) -> (parts: Option<(Vec<char>, Vec<char>)>)
    ensures
        match parts {
            Some((front, back)) => split_once_spec(text@, separator@) == Some((front@, back@)),
            None => split_once_spec(text@, separator@) is None,
        },
{
    match find(text, separator) {
        Some(at) => {
            assert(at + separator.len() <= text.len());
            let front: Vec<char> = slice_of(text, 0, at);
            let back: Vec<char> = slice_of(text, at + separator.len(), text.len());
            assert(front@ =~= text@.take(at as int));
            assert(back@ =~= text@.skip(at + separator@.len()));
            Some((front, back))
        },
        None => None,
    }
}

/// The pieces of `text` between the characters `separator`.
pub fn split(text: &str, separator: char) -> (pieces: Vec<String>)
    ensures
        text_views(pieces@) == split_spec(text@, separator),
{
    let chars: Vec<char> = chars_of(text);
    let mut pieces: Vec<String> = Vec::new();
    let mut from: usize = 0;
    assert(text@.skip(0) =~= text@);
    assert(text_views(pieces@) + split_spec(text@, separator) =~= split_spec(text@, separator));
    loop
        invariant
            from <= chars.len(),
            chars@ == text@,
            text_views(pieces@) + split_spec(text@.skip(from as int), separator) == split_spec(
                text@,
                separator,
            ),
        decreases chars.len() - from,
    {
        let ghost rest = text@.skip(from as int);
        let mut to: usize = from;
        while to < chars.len() && chars[to] != separator
            invariant
                from <= to <= chars.len(),
                chars@ == text@,
                forall|k: int| from <= k < to ==> chars@[k] != separator,
            decreases chars.len() - to,
        {
            to = to + 1;
        }
        proof {
            assert forall|k: int| 0 <= k < to - from implies rest[k] != separator by {
                assert(rest[k] == chars@[from + k]);
            }
            lemma_until_char_unique(rest, separator, to - from);
        }
        let part: Vec<char> = slice_of(&chars, from, to);
        let piece: String = string_of(&part);
        let ghost before = pieces@;
        pieces.push(piece);
        assert(text_views(pieces@) =~= text_views(before).push(piece@));
        if to == chars.len() {
            proof {
                assert(piece@ =~= rest);
                assert(text_views(pieces@) =~= text_views(before) + split_spec(rest, separator));
            }
            return pieces;
        }
        proof {
            assert(rest.take(to - from) =~= piece@);
            assert(rest.skip(to - from + 1) =~= text@.skip(to + 1));
            assert(text_views(pieces@) + split_spec(text@.skip(to + 1), separator) =~= text_views(
                before,
            ) + split_spec(rest, separator));
        }
        from = to + 1;
    }
}

/// What stands behind the last `c` in `text`; all of it where there is none.
pub fn behind_last(text: &[char], c: char) -> (back: Vec<char>)
    ensures
        back@ == after_last(text@, c),
{
    let mut from: usize = text.len();
    assert(text@.take(from as int) =~= text@);
    assert(text@.skip(from as int) =~= Seq::<char>::empty());
    while from > 0 && text[from - 1] != c
        invariant
            from <= text.len(),
            after_last(text@, c) =~= after_last(text@.take(from as int), c) + text@.skip(
                from as int,
            ),
        decreases from,
    {
        assert(text@.take(from as int).drop_last() =~= text@.take(from - 1));
        assert(text@.skip(from - 1) =~= seq![text@[from - 1]] + text@.skip(from as int));
        from = from - 1;
    }
    let back: Vec<char> = slice_of(text, from, text.len());
    assert(back@ =~= text@.skip(from as int));
    back
}

/// The number that a row of digits stands for, where it fits in 64 bits.
pub fn digits_number(digits: &[char]) -> (number: Option<u64>)
    requires
        all_digits(digits@),
    ensures
        match number {
            Some(value) => value == digits_value(digits@),
            None => digits_value(digits@) > u64::MAX,
        },
{
    let mut number: Option<u64> = Some(0);
    let mut i: usize = 0;
    while i < digits.len()
        invariant
            i <= digits.len(),
            all_digits(digits@),
            match number {
                Some(value) => value == digits_value(digits@.take(i as int)),
                None => digits_value(digits@.take(i as int)) > u64::MAX,
            },
        decreases digits.len() - i,
    {
        assert(digits@.take(i + 1).drop_last() =~= digits@.take(i as int));
        assert(is_digit(digits@[i as int]));
        let digit: u64 = (digits[i] as u32 - '0' as u32) as u64;
        number = match number {
            Some(value) => match value.checked_mul(10) {
                Some(shifted) => shifted.checked_add(digit),
                None => None,
            },
            None => None,
        };
        i = i + 1;
    }
    assert(digits@.take(digits@.len() as int) =~= digits@);
    number
}

/// The whole number of 64 bits that `text` is, where it is one.
pub fn parse_whole(text: &[char]) -> (number: Option<i64>)
    ensures
        match number {
            Some(value) => whole_number(text@) == Some(value as int),
            None => whole_number(text@) is None,
        },
{
    let signed: bool = text.len() > 0 && (text[0] == '-' || text[0] == '+');
    let from: usize = if signed {
        1
    } else {
        0
    };
    let digits: Vec<char> = slice_of(text, from, text.len());
    assert(signed ==> digits@ =~= text@.skip(1));
    assert(!signed ==> digits@ =~= text@);
    let mut i: usize = 0;
    while i < digits.len()
        invariant
            i <= digits.len(),
            signed == (text@.len() > 0 && (text@[0] == '-' || text@[0] == '+')),
            digits@ == (if signed {
                text@.skip(1)
            } else {
                text@
            }),
            forall|k: int| 0 <= k < i ==> is_digit(#[trigger] digits@[k]),
        decreases digits.len() - i,
    {
        if digits[i] < '0' || digits[i] > '9' {
            assert(!is_digit(digits@[i as int]));
            assert(!all_digits(digits@));
            return None;
        }
        i = i + 1;
    }
    if digits.len() == 0 {
        return None;
    }
    let negative: bool = signed && text[0] == '-';
    proof {
        lemma_digits_value_positive(digits@);
    }
    match digits_number(&digits) {
        Some(value) => {
            if negative {
                if value <= 9223372036854775808u64 {
                    Some((-(value as i128)) as i64)
                } else {
                    None
                }
            } else if value <= 9223372036854775807u64 {
                Some(value as i64)
            } else {
                None
            }
        },
        None => None,
    }
}

/// The whole number at the front of `text`.
pub fn leading_number(text: &[char]) -> (number: Option<i64>)
    ensures
        match number {
            Some(value) => front_number(text@) == Some(value as int),
            None => front_number(text@) is None,
        },
{
    let mut from: usize = 0;
    assert(text@.skip(0) =~= text@);
    while from < text.len() && is_whitespace(text[from])
        invariant
            from <= text.len(),
            trim_start_spec(text@) == trim_start_spec(text@.skip(from as int)),
        decreases text.len() - from,
    {
        assert(text@.skip(from as int).drop_first() =~= text@.skip(from + 1));
        from = from + 1;
    }
    let ghost body = text@.skip(from as int);
    assert(trim_start_spec(text@) == body);
    let negative: bool = from < text.len() && text[from] == '-';
    let mut start: usize = from;
    while start < text.len() && text[start] == '-'
        invariant
            from <= start <= text.len(),
            body == text@.skip(from as int),
            without_leading(body, '-') == without_leading(text@.skip(start as int), '-'),
        decreases text.len() - start,
    {
        assert(text@.skip(start as int).drop_first() =~= text@.skip(start + 1));
        start = start + 1;
    }
    let ghost rest = text@.skip(start as int);
    assert(without_leading(body, '-') == rest);
    let mut end: usize = start;
    assert(text@.subrange(start as int, start as int) + digit_run(text@.skip(start as int))
        =~= digit_run(rest));
    while end < text.len() && '0' <= text[end] && text[end] <= '9'
        invariant
            start <= end <= text.len(),
            text@.subrange(start as int, end as int) + digit_run(text@.skip(end as int))
                =~= digit_run(rest),
            all_digits(text@.subrange(start as int, end as int)),
        decreases text.len() - end,
    {
        let ghost tail = text@.skip(end as int);
        assert(tail.drop_first() =~= text@.skip(end + 1));
        assert(text@.subrange(start as int, end + 1) =~= text@.subrange(
            start as int,
            end as int,
        ).push(text@[end as int]));
        end = end + 1;
    }
    let digits: Vec<char> = slice_of(text, start, end);
    assert(digit_run(text@.skip(end as int)) =~= Seq::<char>::empty());
    assert(digits@ =~= digit_run(rest));
    if digits.len() == 0 {
        return None;
    }
    assert(body.len() > 0) by {
        assert(start < text@.len());
    }
    assert(negative == (body[0] == '-'));
    proof {
        lemma_digits_value_positive(digits@);
    }
    match digits_number(&digits) {
        Some(value) => {
            if value <= 9223372036854775807u64 {
                if negative {
                    Some(-(value as i64))
                } else {
                    Some(value as i64)
                }
            } else {
                None
            }
        },
        None => None,
    }
}

} // verus!
