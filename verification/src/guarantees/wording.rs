//! What the texts are made of: how they are cut, joined, searched and written.
use crate::headers::{
    entry_fields, entry_problem, first_problem, is_header_name, is_header_value, is_token, quoted,
};
use crate::identifier::is_fresh_form;
use crate::parse::{
    after_last, all_digits, digit_run, digits_value, find_spec, front_number, is_digit, lemma_find,
    split_once_spec, split_spec, whole_number, without_leading,
};
use crate::redaction::{
    interleaved, redacted_text, redacted_url, regex_replaced, url_replacement, urls_cut,
};
use crate::text::{
    contains_text, decimal, ends_with_spec, first_chars, hex_char, hex_spec, is_space, join_spec,
    lemma_until_char, lemma_until_char_unique, lemma_word_len_unique, lines_spec,
    lower_char, lower_spec, occurs_at, replace_spec, signed_decimal, text_le, trim_end_spec,
    trim_spec, trim_start_spec, until_char, words_spec,
};
use crate::time::clamp_span;
use crate::urls::{before_query, escaped, escaped_bytes, trimmed, url_without_query};
use vstd::prelude::*;

verus! {

/// A pattern is in a text where the text is something, the pattern and something again.
pub proof fn law_what_a_text_contains(front: Seq<char>, pattern: Seq<char>, back: Seq<char>)
    ensures
        contains_text(front + pattern + back, pattern),
        ends_with_spec(front + pattern, pattern),
        occurs_at(pattern + back, pattern, 0),
{
    let text = front + pattern + back;
    assert(text.subrange(front.len() as int, (front.len() + pattern.len()) as int) =~= pattern);
    assert(occurs_at(text, pattern, front.len() as int));
    let ended = front + pattern;
    assert(ended.subrange(ended.len() - pattern.len(), ended.len() as int) =~= pattern);
    assert((pattern + back).subrange(0, pattern.len() as int) =~= pattern);
}

/// A text that contains a pattern can be cut into what stands before it, the pattern and the
/// rest.
pub proof fn law_what_is_contained_is_there(text: Seq<char>, pattern: Seq<char>)
    requires
        contains_text(text, pattern),
    ensures
        exists|at: int|
            0 <= at <= text.len() - pattern.len() && #[trigger] text.take(at) + pattern + text.skip(
                at + pattern.len(),
            ) == text,
{
    let at = choose|at: int| occurs_at(text, pattern, at);
    let inner = text.subrange(at, at + pattern.len());
    assert(text.take(at) + pattern + text.skip(at + pattern.len()) =~= text) by {
        assert(text.take(at) + inner + text.skip(at + pattern.len()) =~= text);
    }
}

/// Small letters: every ASCII capital gives way to its small letter and nothing else changes.
pub proof fn law_small_letters(text: Seq<char>, i: int)
    requires
        0 <= i < text.len(),
    ensures
        lower_spec(text).len() == text.len(),
        'A' <= text[i] <= 'Z' ==> lower_spec(text)[i] as int == text[i] as int + 32,
        !('A' <= text[i] <= 'Z') ==> lower_spec(text)[i] == text[i],
        lower_spec(lower_spec(text))[i] == lower_spec(text)[i],
{
    assert(lower_spec(text)[i] == lower_char(text[i]));
    assert(lower_spec(lower_spec(text))[i] == lower_char(lower_char(text[i])));
}

/// Blanks, tabs and line ends are white space; letters, digits and signs are not.
pub proof fn law_what_white_space_is(c: char)
    ensures
        is_space(' '),
        is_space('\t'),
        is_space('\n'),
        is_space('\r'),
        is_space('\u{3000}'),
        '!' <= c <= '~' ==> !is_space(c),
{
}

proof fn lemma_trim_start(text: Seq<char>)
    ensures
        trim_start_spec(text).len() <= text.len(),
        trim_start_spec(text) == text.skip(text.len() - trim_start_spec(text).len()),
        trim_start_spec(text).len() > 0 ==> !is_space(trim_start_spec(text)[0]),
        forall|i: int|
            0 <= i < text.len() - trim_start_spec(text).len() ==> is_space(#[trigger] text[i]),
    decreases text.len(),
{
    if text.len() > 0 && is_space(text[0]) {
        let rest = text.drop_first();
        lemma_trim_start(rest);
        assert(rest.skip(rest.len() - trim_start_spec(rest).len()) =~= text.skip(
            text.len() - trim_start_spec(text).len(),
        ));
        assert forall|i: int| 0 <= i < text.len() - trim_start_spec(text).len() implies is_space(
            #[trigger] text[i],
        ) by {
            if i > 0 {
                assert(rest[i - 1] == text[i]);
            }
        }
    } else {
        assert(text.skip(0) =~= text);
    }
}

proof fn lemma_trim_end(text: Seq<char>)
    ensures
        trim_end_spec(text).len() <= text.len(),
        trim_end_spec(text) == text.take(trim_end_spec(text).len() as int),
        trim_end_spec(text).len() > 0 ==> !is_space(trim_end_spec(text).last()),
        forall|i: int| trim_end_spec(text).len() <= i < text.len() ==> is_space(#[trigger] text[i]),
    decreases text.len(),
{
    if text.len() > 0 && is_space(text.last()) {
        let rest = text.drop_last();
        lemma_trim_end(rest);
        assert(rest.take(trim_end_spec(rest).len() as int) =~= text.take(
            trim_end_spec(text).len() as int,
        ));
        assert forall|i: int| trim_end_spec(text).len() <= i < text.len() implies is_space(
            #[trigger] text[i],
        ) by {
            if i < rest.len() {
                assert(rest[i] == text[i]);
            }
        }
    } else {
        assert(text.take(text.len() as int) =~= text);
    }
}

/// A trimmed text is the inner part of the text, without white space at either end; only white
/// space was taken off.
pub proof fn law_trimming_takes_white_space_off(text: Seq<char>)
    ensures
        exists|from: int, to: int|
            0 <= from <= to <= text.len() && trim_spec(text) == #[trigger] text.subrange(from, to)
                && (forall|i: int| 0 <= i < from ==> is_space(#[trigger] text[i]))
                && (forall|i: int|
                to <= i < text.len() ==> is_space(#[trigger] text[i])),
        trim_spec(text).len() > 0 ==> !is_space(trim_spec(text)[0]) && !is_space(
            trim_spec(text).last(),
        ),
{
    let front = trim_start_spec(text);
    lemma_trim_start(text);
    lemma_trim_end(front);
    let from = text.len() - front.len();
    let to = from + trim_spec(text).len();
    assert(trim_spec(text) =~= text.subrange(from, to));
    assert forall|i: int| to <= i < text.len() implies is_space(#[trigger] text[i]) by {
        assert(front[i - from] == text[i]);
    }
    if trim_spec(text).len() > 0 {
        assert(trim_spec(text)[0] == front[0]);
    }
}

proof fn lemma_digits_push(digits: Seq<char>, c: char)
    ensures
        digits_value(digits.push(c)) == digits_value(digits) * 10 + (c as int - '0' as int),
{
    assert(digits.push(c).drop_last() =~= digits);
}

/// A number that is written down is read back: its digits have its value.
pub proof fn law_numbers_are_read_back(n: nat)
    ensures
        decimal(n).len() > 0,
        all_digits(decimal(n)),
        digits_value(decimal(n)) == n,
        n >= 10 ==> decimal(n)[0] != '0',
    decreases n,
{
    if n < 10 {
        assert(decimal(n) =~= Seq::<char>::empty().push((48 + n) as char));
        lemma_digits_push(Seq::<char>::empty(), (48 + n) as char);
    } else {
        law_numbers_are_read_back(n / 10);
        let last = (48 + (n % 10)) as char;
        lemma_digits_push(decimal(n / 10), last);
        assert(decimal(n) == decimal(n / 10).push(last));
        assert forall|i: int| 0 <= i < decimal(n).len() implies is_digit(
            #[trigger] decimal(n)[i],
        ) by {
            if i < decimal(n / 10).len() {
                assert(decimal(n)[i] == decimal(n / 10)[i]);
            }
        }
        assert(decimal(n)[0] == decimal(n / 10)[0]);
        if n / 10 < 10 {
            assert(n / 10 >= 1);
            assert(decimal(n / 10) == seq![(48 + n / 10) as char]);
        }
    }
}

/// A whole number that is written down, with its sign, is read as the same number.
pub proof fn law_whole_numbers_are_read_back(n: int)
    requires
        i64::MIN <= n <= i64::MAX,
    ensures
        whole_number(signed_decimal(n)) == Some(n),
{
    let size: nat = if n < 0 {
        (-n) as nat
    } else {
        n as nat
    };
    law_numbers_are_read_back(size);
    let text = signed_decimal(n);
    if n < 0 {
        assert(text[0] == '-');
        assert(text.skip(1) =~= decimal(size));
    } else {
        assert(is_digit(decimal(size)[0]));
    }
}

/// What is no number is read as none.
pub proof fn law_other_texts_are_no_numbers(text: Seq<char>, i: int)
    requires
        text.len() == 0 || (0 <= i < text.len() && !('0' <= text[i] <= '9') && (i > 0 || (text[0]
            != '-' && text[0] != '+'))),
    ensures
        whole_number(text) is None,
{
    if text.len() > 0 {
        let signed = text[0] == '-' || text[0] == '+';
        if signed {
            assert(text.skip(1)[i - 1] == text[i]);
            assert(!is_digit(text.skip(1)[i - 1]));
        } else {
            assert(!is_digit(text[i]));
        }
    }
}

proof fn lemma_digit_run(digits: Seq<char>, rest: Seq<char>)
    requires
        all_digits(digits),
        rest.len() == 0 || !is_digit(rest[0]),
    ensures
        digit_run(digits + rest) == digits,
    decreases digits.len(),
{
    if digits.len() == 0 {
        assert(digits + rest =~= rest);
        assert(digit_run(rest) =~= digits);
    } else {
        assert(is_digit(digits[0]));
        let tail = digits.drop_first();
        assert forall|i: int| 0 <= i < tail.len() implies is_digit(#[trigger] tail[i]) by {
            assert(tail[i] == digits[i + 1]);
        }
        lemma_digit_run(tail, rest);
        assert((digits + rest).drop_first() =~= tail + rest);
        assert(seq![digits[0]] + tail =~= digits);
    }
}

/// The number in front of a text is the one that its first digits make, up to the first sign that
/// is none.
pub proof fn law_the_front_number_is_read(n: nat, rest: Seq<char>)
    requires
        n <= i64::MAX,
        rest.len() == 0 || !('0' <= rest[0] <= '9'),
    ensures
        front_number(decimal(n) + rest) == Some(n as int),
        front_number(seq!['-'] + decimal(n) + rest) == Some(-(n as int)),
{
    law_numbers_are_read_back(n);
    let digits = decimal(n);
    let text = digits + rest;
    assert(is_digit(digits[0]));
    assert(text[0] == digits[0]);
    assert(trim_start_spec(text) == text);
    assert(without_leading(text, '-') == text);
    lemma_digit_run(digits, rest);
    let minus = seq!['-'] + digits + rest;
    assert(minus[0] == '-');
    assert(trim_start_spec(minus) == minus);
    assert(minus.drop_first() =~= text);
    assert(without_leading(minus, '-') == without_leading(text, '-'));
}

/// A number in hexadecimal has as many digits as asked for, of which the last stands for the
/// remainder by sixteen and those before it for the rest.
pub proof fn law_hexadecimal_digits(n: nat, width: nat, i: int)
    requires
        0 <= i < width,
    ensures
        hex_spec(n, width).len() == width,
        ('0' <= hex_spec(n, width)[i] <= '9') || ('a' <= hex_spec(n, width)[i] <= 'f'),
        hex_spec(n, width).drop_last() == hex_spec(n / 16, (width - 1) as nat),
        n % 16 < 10 ==> hex_spec(n, width).last() as int == '0' as int + n % 16,
        n % 16 >= 10 ==> hex_spec(n, width).last() as int == 'a' as int + n % 16 - 10,
    decreases width,
{
    let rest = hex_spec(n / 16, (width - 1) as nat);
    assert(hex_spec(n, width) == rest.push(hex_char((n % 16) as int)));
    assert(hex_spec(n, width).drop_last() =~= rest);
    if width == 1 {
        assert(rest.len() == 0);
    } else {
        let j = if i < width - 1 {
            i
        } else {
            0
        };
        law_hexadecimal_digits(n / 16, (width - 1) as nat, j);
        assert(rest.len() == width - 1);
        if i < width - 1 {
            assert(hex_spec(n, width)[i] == rest[i]);
        }
    }
}

/// The pieces of a text, joined by what it was cut at, are the text again, and none of them holds
/// it.
pub proof fn law_cutting_and_joining(text: Seq<char>, c: char, k: int, i: int)
    ensures
        split_spec(text, c).len() > 0,
        join_spec(split_spec(text, c), seq![c]) == text,
        0 <= k < split_spec(text, c).len() && 0 <= i < split_spec(text, c)[k].len() ==> split_spec(
            text,
            c,
        )[k][i] != c,
    decreases text.len(),
{
    let n = until_char(text, c);
    lemma_until_char(text, c);
    if n < text.len() {
        let first = text.take(n);
        let back = text.skip(n + 1);
        let rest = split_spec(back, c);
        let all = split_spec(text, c);
        law_cutting_and_joining(back, c, k - 1, i);
        assert(all =~= seq![first] + rest);
        lemma_join_front(first, rest, seq![c]);
        assert(first + seq![c] + back =~= text);
        if 0 < k < all.len() {
            assert(all[k] == rest[k - 1]);
        }
        if k == 0 && 0 <= i < first.len() {
            assert(first[i] == text[i]);
        }
    } else {
        assert(split_spec(text, c) == seq![text]);
    }
}

proof fn lemma_join_front(first: Seq<char>, rest: Seq<Seq<char>>, separator: Seq<char>)
    requires
        rest.len() > 0,
    ensures
        join_spec(seq![first] + rest, separator) == first + separator + join_spec(rest, separator),
    decreases rest.len(),
{
    let all = seq![first] + rest;
    if rest.len() == 1 {
        assert(all.drop_last() =~= seq![first]);
        assert(join_spec(seq![first], separator) == first);
        assert(all.last() == rest[0]);
    } else {
        lemma_join_front(first, rest.drop_last(), separator);
        assert(all.drop_last() =~= seq![first] + rest.drop_last());
        assert(all.last() == rest.last());
        assert(first + separator + join_spec(rest.drop_last(), separator) + separator + rest.last()
            =~= first + separator + (join_spec(rest.drop_last(), separator) + separator
            + rest.last()));
    }
}

/// A line ends at the first line end behind it; a return before that belongs to the end.
pub proof fn law_lines_end_at_line_ends(line: Seq<char>, rest: Seq<char>)
    requires
        forall|i: int| 0 <= i < line.len() ==> #[trigger] line[i] != '\n',
    ensures
        lines_spec(line + seq!['\n'] + rest) == seq![
            if line.len() > 0 && line.last() == '\r' {
                line.drop_last()
            } else {
                line
            },
        ] + lines_spec(rest),
        line.len() > 0 ==> lines_spec(line) == seq![line],
        lines_spec(Seq::<char>::empty()).len() == 0,
{
    let text = line + seq!['\n'] + rest;
    assert(text[line.len() as int] == '\n');
    assert forall|i: int| 0 <= i < line.len() implies text[i] != '\n' by {
        assert(text[i] == line[i]);
    }
    lemma_until_char_unique(text, '\n', line.len() as int);
    assert(text.take(line.len() as int) =~= line);
    assert(text.skip(line.len() as int + 1) =~= rest);
    lemma_until_char(line, '\n');
    if until_char(line, '\n') < line.len() {
        assert(line[until_char(line, '\n')] == '\n');
    }
}

/// A text that begins with a word, ended by white space, gives this word and then the words of
/// the rest; white space in front gives none.
pub proof fn law_words_end_at_white_space(word: Seq<char>, space: char, rest: Seq<char>)
    requires
        word.len() > 0,
        forall|i: int| 0 <= i < word.len() ==> !is_space(#[trigger] word[i]),
        is_space(space),
    ensures
        words_spec(word + seq![space] + rest) == seq![word] + words_spec(rest),
        words_spec(word) == seq![word],
        words_spec(seq![space] + rest) == words_spec(rest),
        words_spec(Seq::<char>::empty()).len() == 0,
{
    let text = word + seq![space] + rest;
    let n = word.len() as int;
    assert(text[n] == space);
    assert forall|i: int| 0 <= i < n implies !is_space(text[i]) by {
        assert(text[i] == word[i]);
    }
    lemma_word_len_unique(text, n);
    assert(text[0] == word[0]);
    assert(text.take(n) =~= word);
    assert(text.skip(n) =~= seq![space] + rest);
    let behind = seq![space] + rest;
    assert(behind[0] == space);
    assert(behind.drop_first() =~= rest);
    assert(words_spec(behind) == words_spec(rest));
    assert(words_spec(text) == seq![text.take(n)] + words_spec(text.skip(n)));
    lemma_word_len_unique(word, n);
    assert(word.take(n) =~= word);
    assert(word.skip(n) =~= Seq::<char>::empty());
    assert(words_spec(Seq::<char>::empty()) =~= Seq::<Seq<char>>::empty());
    assert(words_spec(word) == seq![word.take(n)] + words_spec(word.skip(n)));
    assert(words_spec(word) =~= seq![word]);
}

/// What is found is the first place where the pattern occurs.
pub proof fn law_the_first_place_is_found(text: Seq<char>, pattern: Seq<char>)
    ensures
        match find_spec(text, pattern) {
            Some(at) => occurs_at(text, pattern, at) && forall|i: int|
                0 <= i < at ==> !(#[trigger] occurs_at(text, pattern, i)),
            None => !contains_text(text, pattern),
        },
{
    lemma_find(text, pattern);
}

/// A text is cut once at the first place of the separator: what stands before it, the separator
/// and what stands behind it make up the text; and it is cut wherever the separator occurs.
pub proof fn law_cutting_once(text: Seq<char>, separator: Seq<char>)
    ensures
        match split_once_spec(text, separator) {
            Some((front, back)) => front + separator + back == text,
            None => !contains_text(text, separator),
        },
{
    law_the_first_place_is_found(text, separator);
    match find_spec(text, separator) {
        Some(at) => {
            let inner = text.subrange(at, at + separator.len());
            assert(text.take(at) + inner + text.skip(at + separator.len()) =~= text);
        },
        None => {},
    }
}

/// What stands behind the last sign holds none of it, and all of the text where there is none.
pub proof fn law_behind_the_last_sign(front: Seq<char>, c: char, back: Seq<char>)
    requires
        forall|i: int| 0 <= i < back.len() ==> #[trigger] back[i] != c,
    ensures
        after_last(front.push(c) + back, c) == back,
        after_last(back, c) == back,
    decreases back.len(),
{
    let text = front.push(c) + back;
    if back.len() == 0 {
        assert(text.last() == c);
        assert(after_last(text, c) =~= back);
        assert(after_last(back, c) =~= back);
    } else {
        let less = back.drop_last();
        assert forall|i: int| 0 <= i < less.len() implies #[trigger] less[i] != c by {
            assert(less[i] == back[i]);
        }
        law_behind_the_last_sign(front, c, less);
        assert(back[back.len() - 1] != c);
        assert(text.drop_last() =~= front.push(c) + less);
        assert(less.push(back.last()) =~= back);
    }
}

/// Every place of a pattern gives way to the replacement, from the front on; a text without the
/// pattern stays as it is.
pub proof fn law_replacing(text: Seq<char>, pattern: Seq<char>, with: Seq<char>)
    requires
        pattern.len() > 0,
    ensures
        replace_spec(pattern + text, pattern, with) == with + replace_spec(text, pattern, with),
        !contains_text(text, pattern) ==> replace_spec(text, pattern, with) == text,
    decreases text.len(),
{
    let whole = pattern + text;
    assert(whole.subrange(0, pattern.len() as int) =~= pattern);
    assert(occurs_at(whole, pattern, 0));
    assert(whole.skip(pattern.len() as int) =~= text);
    if !contains_text(text, pattern) && text.len() > 0 {
        let rest = text.drop_first();
        assert(!occurs_at(text, pattern, 0));
        assert forall|i: int| !occurs_at(rest, pattern, i) by {
            if occurs_at(rest, pattern, i) {
                assert(text.subrange(i + 1, i + 1 + pattern.len()) =~= rest.subrange(
                    i,
                    i + pattern.len(),
                ));
                assert(occurs_at(text, pattern, i + 1));
            }
        }
        law_replacing(rest, pattern, with);
        assert(seq![text[0]] + rest =~= text);
    }
}

/// The first characters of a text: all of them where there are no more than asked for.
pub proof fn law_first_characters(text: Seq<char>, count: int)
    requires
        count >= 0,
    ensures
        text.len() <= count ==> first_chars(text, count) == text,
        text.len() > count ==> first_chars(text, count).len() == count && first_chars(text, count)
            + text.skip(count) == text,
{
    if text.len() > count {
        assert(text.take(count) + text.skip(count) =~= text);
    }
}

/// Texts are ordered sign by sign: the empty one comes first, and equal beginnings decide nothing.
pub proof fn law_texts_are_ordered(a: Seq<char>, b: Seq<char>, front: Seq<char>)
    ensures
        text_le(Seq::<char>::empty(), a),
        a.len() > 0 ==> !text_le(a, Seq::<char>::empty()),
        text_le(front + a, front + b) == text_le(a, b),
        a.len() > 0 && b.len() > 0 && a[0] < b[0] ==> text_le(a, b) && !text_le(b, a),
    decreases front.len(),
{
    if front.len() > 0 {
        law_texts_are_ordered(a, b, front.drop_first());
        assert((front + a).drop_first() =~= front.drop_first() + a);
        assert((front + b).drop_first() =~= front.drop_first() + b);
        assert((front + a)[0] == (front + b)[0]);
    } else {
        assert(front + a =~= a);
        assert(front + b =~= b);
    }
}

/// The name of a header is made of letters, digits and these signs, and is not empty; its value
/// holds no control sign but the tab.
pub proof fn law_what_headers_may_hold(text: Seq<char>, i: int)
    requires
        0 <= i < text.len(),
    ensures
        is_header_name(text) ==> text[i] != ' ' && text[i] != ':' && text[i] != '\n' && text[i]
            != '\r' && (text[i] as int) < 127,
        is_header_value(text) ==> text[i] != '\n' && text[i] != '\r' && text[i] != '\0',
        !is_header_name(Seq::<char>::empty()),
        is_header_value(Seq::<char>::empty()),
        is_token('-') && is_token('_') && is_token('a') && is_token('Z') && is_token('0'),
        !is_token(' ') && !is_token(':') && !is_token('(') && !is_token('"') && !is_token('/'),
{
}

/// Headers are made of all entries or of none: the first entry that is none is named; and where
/// all are, every name, in small letters, has the last value that was given for it.
pub proof fn law_headers_are_made_of_all_entries(
    entries: Seq<(String, String)>,
    entry: (String, String),
    name: Seq<char>,
)
    ensures
        first_problem(Seq::<(String, String)>::empty()) is None,
        first_problem(entries) is Some ==> first_problem(entries.push(entry)) == first_problem(
            entries,
        ),
        first_problem(entries) is None && !is_header_name(entry.0@) ==> first_problem(
            entries.push(entry),
        ) == Some(
            "invalid header name "@ + quoted(entry.0@) + ": "@ + "invalid HTTP header name"@,
        ),
        first_problem(entries) is None && is_header_name(entry.0@) && !is_header_value(entry.1@)
            ==> first_problem(entries.push(entry)) == Some(
            "invalid header value for "@ + quoted(entry.0@) + ": "@
                + "failed to parse header value"@,
        ),
        first_problem(entries) is None && is_header_name(entry.0@) && is_header_value(entry.1@)
            ==> first_problem(entries.push(entry)) is None,
        entry_fields(entries.push(entry)).contains_key(lower_spec(entry.0@)),
        entry_fields(entries.push(entry))[lower_spec(entry.0@)] == entry.1@,
        name != lower_spec(entry.0@) ==> entry_fields(entries.push(entry)).contains_key(name)
            == entry_fields(entries).contains_key(name),
        name != lower_spec(entry.0@) && entry_fields(entries).contains_key(name) ==> entry_fields(
            entries.push(entry),
        )[name] == entry_fields(entries)[name],
{
    assert(entries.push(entry).drop_last() =~= entries);
    assert(first_problem(entries.push(entry)) == (match first_problem(entries) {
        Some(problem) => Some(problem),
        None => entry_problem(entry.0@, entry.1@),
    }));
}

/// A byte in an address stays where it is a letter, a digit or one of four signs, and is written
/// as a percent sign and two capital hexadecimal digits otherwise; bytes are written one after
/// the other.
pub proof fn law_addresses_are_escaped(bytes: Seq<u8>, byte: u8)
    ensures
        escaped_bytes(bytes.push(byte)) == escaped_bytes(bytes) + escaped(byte),
        escaped_bytes(Seq::<u8>::empty()).len() == 0,
        0x61 <= byte <= 0x7a || 0x41 <= byte <= 0x5a || 0x30 <= byte <= 0x39 || byte == 0x2d || byte
            == 0x2e || byte == 0x5f || byte == 0x7e ==> escaped(byte) == seq![byte as char],
        !(0x61 <= byte <= 0x7a || 0x41 <= byte <= 0x5a || 0x30 <= byte <= 0x39 || byte == 0x2d
            || byte == 0x2e || byte == 0x5f || byte == 0x7e) ==> escaped(byte).len() == 3
            && escaped(
            byte,
        )[0] == '%',
        escaped(0x20) == seq!['%', '2', '0'],
        escaped(0x0a) == seq!['%', '0', 'A'],
        escaped(0xe5) == seq!['%', 'E', '5'],
        escaped(0x26) == seq!['%', '2', '6'],
{
    assert(bytes.push(byte).drop_last() =~= bytes);
    assert(escaped(0x20) =~= seq!['%', '2', '0']);
    assert(escaped(0x0a) =~= seq!['%', '0', 'A']);
    assert(escaped(0xe5) =~= seq!['%', 'E', '5']);
    assert(escaped(0x26) =~= seq!['%', '2', '6']);
}

/// A fresh identifier has its dashes, its version and its variant where they belong.
pub proof fn law_the_form_of_an_identifier(text: Seq<char>)
    requires
        is_fresh_form(text),
    ensures
        text.len() == 36,
        text[8] == '-' && text[13] == '-' && text[18] == '-' && text[23] == '-',
        text[14] == '4',
        text[19] == '8' || text[19] == '9' || text[19] == 'a' || text[19] == 'b',
        !(text[0] == '-'),
{
}

/// What stands before the query holds no question mark and begins the text.
pub proof fn law_the_query_is_cut_at_the_mark(front: Seq<char>, query: Seq<char>)
    requires
        forall|i: int| 0 <= i < front.len() ==> #[trigger] front[i] != '?',
    ensures
        before_query(front.push('?') + query) == front,
        before_query(front) == front,
    decreases front.len(),
{
    let text = front.push('?') + query;
    if front.len() == 0 {
        assert(text[0] == '?');
        assert(before_query(text) =~= front);
        assert(before_query(front) =~= front);
    } else {
        let rest = front.drop_first();
        assert(front[0] != '?');
        assert forall|i: int| 0 <= i < rest.len() implies #[trigger] rest[i] != '?' by {
            assert(rest[i] == front[i + 1]);
        }
        law_the_query_is_cut_at_the_mark(rest, query);
        assert(text[0] == front[0]);
        assert(text.drop_first() =~= rest.push('?') + query);
        assert(seq![front[0]] + rest =~= front);
    }
}

/// An address keeps no blanks or control signs at its ends.
pub proof fn law_addresses_are_trimmed(text: Seq<char>)
    ensures
        trimmed(text).len() <= text.len(),
        trimmed(text).len() > 0 ==> trimmed(text)[0] > ' ' && trimmed(text).last() > ' ',
        text.len() > 0 && text[0] > ' ' && text.last() > ' ' ==> trimmed(text) == text,
    decreases text.len(),
{
    if text.len() > 0 {
        if text[0] <= ' ' {
            law_addresses_are_trimmed(text.drop_first());
        } else if text.last() <= ' ' {
            law_addresses_are_trimmed(text.drop_last());
        }
    }
}

/// A text is redacted in two steps: every address in it loses its query, or is put out whole where
/// it cannot be read; then every credential that is still named gives way to its name and a mark.
pub proof fn law_how_texts_are_redacted(
    text: Seq<char>,
    replaced: Seq<char>,
    division: (Seq<Seq<char>>, Seq<Seq<char>>),
    raw: Seq<char>,
)
    requires
        url_replacement(text, replaced, division),
    ensures
        url_without_query(raw) is None ==> redacted_url(raw) == "[REDACTED_URL]"@,
        url_without_query(raw) matches Some(address) ==> redacted_url(raw) == address,
        replaced == interleaved(
            division.0,
            division.1.map_values(|found: Seq<char>| redacted_url(found)),
        ),
        text == interleaved(division.0, division.1),
        redacted_text(text) == regex_replaced(
            "(?i)(cookie|token|mstoken|a_bogus|verifyfp|sign|signature|expire)=([^&\\s,;]+)"@,
            urls_cut(text),
            "$1=[REDACTED]"@,
        ),
{
}

/// A span stops at the longest there is.
pub proof fn law_spans_stop_at_the_longest(nanos: int)
    ensures
        nanos <= 18_446_744_073_709_551_615_999_999_999 ==> clamp_span(nanos) == nanos,
        nanos > 18_446_744_073_709_551_615_999_999_999 ==> clamp_span(nanos)
            == 18_446_744_073_709_551_615_999_999_999,
{
}

} // verus!
