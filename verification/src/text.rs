//! Text as sequences of characters: searching, trimming, splitting and rendering numbers.
use vstd::prelude::*;
use vstd::string::*;

verus! {

/// `String::push` appends one character.
pub assume_specification[ String::push ](text: &mut String, c: char)
    ensures
        final(text)@ == old(text)@.push(c),
;

/// Whether `pattern` stands in `text` at position `at`.
pub open spec fn occurs_at(text: Seq<char>, pattern: Seq<char>, at: int) -> bool {
    0 <= at && at + pattern.len() <= text.len() && text.subrange(at, at + pattern.len()) =~= pattern
}

/// Whether `pattern` stands anywhere in `text`.
pub open spec fn contains_text(text: Seq<char>, pattern: Seq<char>) -> bool {
    exists|at: int| occurs_at(text, pattern, at)
}

/// The characters of `text`.
pub fn chars_of(text: &str) -> (chars: Vec<char>)
    ensures
        chars@ == text@,
{
    let mut chars: Vec<char> = Vec::new();
    for c in it: text.chars()
        invariant
            chars@ == it.seq().take(it.index() as int),
            it.seq() == text@,
    {
        chars.push(c);
        assert(it.seq().take(it.index() + 1) =~= it.seq().take(it.index() as int).push(c));
    }
    assert(text@.take(text@.len() as int) =~= text@);
    chars
}

/// The text made of `chars`.
pub fn string_of(chars: &[char]) -> (text: String)
    ensures
        text@ == chars@,
{
    let mut text: String = String::new();
    let mut i: usize = 0;
    while i < chars.len()
        invariant
            i <= chars.len(),
            text@ == chars@.take(i as int),
        decreases chars.len() - i,
    {
        text.push(chars[i]);
        assert(chars@.take(i + 1) =~= chars@.take(i as int).push(chars@[i as int]));
        i = i + 1;
    }
    assert(chars@.take(chars@.len() as int) =~= chars@);
    text
}

/// The views of a list of texts.
pub open spec fn text_views(texts: Seq<String>) -> Seq<Seq<char>> {
    texts.map_values(|t: String| t@)
}

/// Whether two texts are the same.
pub fn str_eq(a: &str, b: &str) -> (same: bool)
    ensures
        same == (a@ == b@),
{
    let left: Vec<char> = chars_of(a);
    let right: Vec<char> = chars_of(b);
    if left.len() != right.len() {
        return false;
    }
    let mut i: usize = 0;
    while i < left.len()
        invariant
            i <= left.len(),
            left.len() == right.len(),
            left@ == a@,
            right@ == b@,
            forall|k: int| 0 <= k < i ==> left@[k] == right@[k],
        decreases left.len() - i,
    {
        if left[i] != right[i] {
            assert(a@[i as int] != b@[i as int]);
            return false;
        }
        i = i + 1;
    }
    assert(left@ =~= right@);
    true
}

/// An owned copy of `text`.
pub fn own(text: &str) -> (copy: String)
    ensures
        copy@ == text@,
{
    String::from_str(text)
}

/// Whether `pattern` stands in `text` at position `at`.
pub fn matches_at(text: &[char], pattern: &[char], at: usize) -> (yes: bool)
    requires
        at <= text.len(),
    ensures
        yes == occurs_at(text@, pattern@, at as int),
{
    if text.len() - at < pattern.len() {
        return false;
    }
    let mut i: usize = 0;
    while i < pattern.len()
        invariant
            i <= pattern.len(),
            at + pattern.len() <= text.len(),
            forall|k: int| 0 <= k < i ==> text@[at + k] == pattern@[k],
        decreases pattern.len() - i,
    {
        if text[at + i] != pattern[i] {
            proof {
                let piece = text@.subrange(at as int, at + pattern@.len());
                assert(piece[i as int] == text@[at + i]);
            }
            return false;
        }
        i = i + 1;
    }
    assert(text@.subrange(at as int, at + pattern@.len()) =~= pattern@);
    true
}

/// Whether `pattern` stands anywhere in `text`.
pub fn contains(text: &str, pattern: &str) -> (yes: bool)
    ensures
        yes == contains_text(text@, pattern@),
{
    let hay: Vec<char> = chars_of(text);
    let needle: Vec<char> = chars_of(pattern);
    let mut at: usize = 0;
    while at < hay.len()
        invariant
            at <= hay.len(),
            hay@ == text@,
            needle@ == pattern@,
            forall|k: int| 0 <= k < at ==> !occurs_at(text@, pattern@, k),
        decreases hay.len() - at,
    {
        if matches_at(&hay, &needle, at) {
            return true;
        }
        at = at + 1;
    }
    let last: bool = matches_at(&hay, &needle, at);
    assert(last == occurs_at(text@, pattern@, at as int));
    assert forall|k: int| occurs_at(text@, pattern@, k) implies k == at by {
        assert(k <= text@.len());
    }
    last
}

/// Whether `text` begins with `prefix`.
pub fn starts_with(text: &str, prefix: &str) -> (yes: bool)
    ensures
        yes == occurs_at(text@, prefix@, 0),
{
    let hay: Vec<char> = chars_of(text);
    let needle: Vec<char> = chars_of(prefix);
    matches_at(&hay, &needle, 0)
}

/// The characters that Unicode calls white space.
pub open spec fn is_space(c: char) -> bool {
    ||| '\u{9}' <= c <= '\u{d}'
    ||| c == ' '
    ||| c == '\u{85}'
    ||| c == '\u{a0}'
    ||| c == '\u{1680}'
    ||| '\u{2000}' <= c <= '\u{200a}'
    ||| c == '\u{2028}'
    ||| c == '\u{2029}'
    ||| c == '\u{202f}'
    ||| c == '\u{205f}'
    ||| c == '\u{3000}'
}

/// Whether `c` is white space.
pub fn is_whitespace(c: char) -> (yes: bool)
    ensures
        yes == is_space(c),
{
    ('\u{9}' <= c && c <= '\u{d}') || c == ' ' || c == '\u{85}' || c == '\u{a0}' || c == '\u{1680}'
        || ('\u{2000}' <= c && c <= '\u{200a}') || c == '\u{2028}' || c == '\u{2029}'
        || c == '\u{202f}' || c == '\u{205f}' || c == '\u{3000}'
}

/// `text` without its leading white space.
pub open spec fn trim_start_spec(text: Seq<char>) -> Seq<char>
    decreases text.len(),
{
    if text.len() > 0 && is_space(text[0]) {
        trim_start_spec(text.drop_first())
    } else {
        text
    }
}

/// `text` without its trailing white space.
pub open spec fn trim_end_spec(text: Seq<char>) -> Seq<char>
    decreases text.len(),
{
    if text.len() > 0 && is_space(text.last()) {
        trim_end_spec(text.drop_last())
    } else {
        text
    }
}

/// `text` without the white space at either end.
pub open spec fn trim_spec(text: Seq<char>) -> Seq<char> {
    trim_end_spec(trim_start_spec(text))
}

/// Where the part of `chars` without the white space at either end begins and ends.
pub fn trim_bounds(chars: &[char]) -> (bounds: (usize, usize))
    ensures
        bounds.0 <= bounds.1 <= chars.len(),
        chars@.subrange(bounds.0 as int, bounds.1 as int) == trim_spec(chars@),
{
    let mut from: usize = 0;
    assert(chars@.skip(0) =~= chars@);
    while from < chars.len() && is_whitespace(chars[from])
        invariant
            from <= chars.len(),
            trim_start_spec(chars@) == trim_start_spec(chars@.skip(from as int)),
        decreases chars.len() - from,
    {
        assert(chars@.skip(from as int).drop_first() =~= chars@.skip(from + 1));
        from = from + 1;
    }
    assert(trim_start_spec(chars@.skip(from as int)) == chars@.skip(from as int));
    let mut to: usize = chars.len();
    assert(chars@.subrange(from as int, to as int) =~= chars@.skip(from as int));
    while from < to && is_whitespace(chars[to - 1])
        invariant
            from <= to <= chars.len(),
            trim_end_spec(chars@.skip(from as int)) == trim_end_spec(
                chars@.subrange(from as int, to as int),
            ),
        decreases to - from,
    {
        assert(chars@.subrange(from as int, to as int).drop_last() =~= chars@.subrange(
            from as int,
            to - 1,
        ));
        to = to - 1;
    }
    (from, to)
}

/// The part of `text` without the white space at either end.
pub fn trim_str<'a>(text: &'a str) -> (trimmed: &'a str)
    ensures
        trimmed@ == trim_spec(text@),
{
    let chars: Vec<char> = chars_of(text);
    let (from, to): (usize, usize) = trim_bounds(&chars);
    text.substring_char(from, to)
}

/// The characters of `chars` from position `from` up to position `to`.
pub fn slice_of(chars: &[char], from: usize, to: usize) -> (piece: Vec<char>)
    requires
        from <= to <= chars.len(),
    ensures
        piece@ == chars@.subrange(from as int, to as int),
{
    let mut piece: Vec<char> = Vec::new();
    let mut i: usize = from;
    while i < to
        invariant
            from <= i <= to <= chars.len(),
            piece@ == chars@.subrange(from as int, i as int),
        decreases to - i,
    {
        piece.push(chars[i]);
        assert(chars@.subrange(from as int, i + 1) =~= chars@.subrange(from as int, i as int).push(
            chars@[i as int],
        ));
        i = i + 1;
    }
    piece
}

/// An owned copy of `text` without the white space at either end.
pub fn trim(text: &str) -> (trimmed: String)
    ensures
        trimmed@ == trim_spec(text@),
{
    own(trim_str(text))
}

/// An ASCII capital as its small letter, any other character as it is.
pub open spec fn lower_char(c: char) -> char {
    if 'A' <= c <= 'Z' {
        (c as u32 + 32) as char
    } else {
        c
    }
}

/// `text` with its ASCII capitals as small letters.
pub open spec fn lower_spec(text: Seq<char>) -> Seq<char> {
    text.map_values(|c: char| lower_char(c))
}

/// `text` with its ASCII capitals as small letters.
pub fn to_ascii_lowercase(text: &str) -> (lower: String)
    ensures
        lower@ == lower_spec(text@),
{
    let chars: Vec<char> = chars_of(text);
    let mut lower: String = String::new();
    let mut i: usize = 0;
    while i < chars.len()
        invariant
            i <= chars.len(),
            chars@ == text@,
            lower@ == lower_spec(text@.take(i as int)),
        decreases chars.len() - i,
    {
        let c: char = chars[i];
        let small: char = if 'A' <= c && c <= 'Z' {
            ((c as u8) + 32) as char
        } else {
            c
        };
        lower.push(small);
        assert(lower_spec(text@.take(i + 1)) =~= lower_spec(text@.take(i as int)).push(
            lower_char(c),
        ));
        i = i + 1;
    }
    assert(text@.take(i as int) =~= text@);
    lower
}

/// The decimal digit `d`.
pub open spec fn digit_char(d: int) -> char {
    (48 + d) as char
}

/// `n` in decimal, without leading zeros.
pub open spec fn decimal(n: nat) -> Seq<char>
    decreases n,
{
    if n < 10 {
        seq![digit_char(n as int)]
    } else {
        decimal(n / 10).push(digit_char((n % 10) as int))
    }
}

/// `n` in decimal, with a minus sign where it is negative.
pub open spec fn signed_decimal(n: int) -> Seq<char> {
    if n < 0 {
        seq!['-'] + decimal((-n) as nat)
    } else {
        decimal(n as nat)
    }
}

/// `n` in decimal.
pub fn decimal_text(n: u128) -> (text: String)
    ensures
        text@ == decimal(n as nat),
    decreases n,
{
    let digit: u8 = (n % 10) as u8;
    if n < 10 {
        let mut text: String = String::new();
        text.push((48u8 + digit) as char);
        assert(text@ =~= decimal(n as nat));
        text
    } else {
        let mut text: String = decimal_text(n / 10);
        text.push((48u8 + digit) as char);
        text
    }
}

/// `n` in decimal, with a minus sign where it is negative.
pub fn signed_decimal_text(n: i64) -> (text: String)
    ensures
        text@ == signed_decimal(n as int),
{
    if n < 0 {
        let mut text: String = String::new();
        text.push('-');
        let magnitude: u128 = (-(n as i128)) as u128;
        let digits: String = decimal_text(magnitude);
        text.append(digits.as_str());
        assert(text@ =~= signed_decimal(n as int));
        text
    } else {
        decimal_text(n as u128)
    }
}

/// The hexadecimal digit `d`, with small letters.
pub open spec fn hex_char(d: int) -> char {
    if d < 10 {
        (48 + d) as char
    } else {
        (87 + d) as char
    }
}

/// The lowest `width` hexadecimal digits of `n`.
pub open spec fn hex_spec(n: nat, width: nat) -> Seq<char>
    decreases width,
{
    if width == 0 {
        Seq::empty()
    } else {
        hex_spec(n / 16, (width - 1) as nat).push(hex_char((n % 16) as int))
    }
}

/// The lowest `width` hexadecimal digits of `n`.
pub fn hex_text(n: u128, width: usize) -> (text: String)
    ensures
        text@ == hex_spec(n as nat, width as nat),
    decreases width,
{
    if width == 0 {
        String::new()
    } else {
        let mut text: String = hex_text(n / 16, width - 1);
        let digit: u8 = (n % 16) as u8;
        if digit < 10 {
            text.push((48u8 + digit) as char);
        } else {
            text.push((87u8 + digit) as char);
        }
        text
    }
}

/// The number of characters of `text` before its first `stop`, or all of them.
pub open spec fn until_char(text: Seq<char>, stop: char) -> int
    decreases text.len(),
{
    if text.len() == 0 || text[0] == stop {
        0
    } else {
        1 + until_char(text.drop_first(), stop)
    }
}

/// `line` without the carriage return that it may end in.
pub open spec fn without_return(line: Seq<char>) -> Seq<char> {
    if line.len() > 0 && line.last() == '\r' {
        line.drop_last()
    } else {
        line
    }
}

/// The lines of `text`: each ends at a line feed, or at a carriage return and a line feed; a
/// line feed at the very end begins no further line.
pub open spec fn lines_spec(text: Seq<char>) -> Seq<Seq<char>>
    decreases text.len(),
{
    let n = until_char(text, '\n');
    if text.len() == 0 {
        Seq::empty()
    } else if 0 <= n < text.len() {
        seq![without_return(text.take(n))] + lines_spec(text.skip(n + 1))
    } else {
        seq![text]
    }
}

/// `until_char` stays inside the text, and stops only at `stop`.
pub proof fn lemma_until_char(text: Seq<char>, stop: char)
    ensures
        0 <= until_char(text, stop) <= text.len(),
        forall|k: int| 0 <= k < until_char(text, stop) ==> text[k] != stop,
        until_char(text, stop) < text.len() ==> text[until_char(text, stop)] == stop,
    decreases text.len(),
{
    if text.len() > 0 && text[0] != stop {
        lemma_until_char(text.drop_first(), stop);
        assert forall|k: int| 0 <= k < until_char(text, stop) implies text[k] != stop by {
            if k > 0 {
                assert(text.drop_first()[k - 1] == text[k]);
            }
        }
    }
}

/// `until_char` is the only position with that property.
pub proof fn lemma_until_char_unique(text: Seq<char>, stop: char, n: int)
    requires
        0 <= n <= text.len(),
        forall|k: int| 0 <= k < n ==> text[k] != stop,
        n < text.len() ==> text[n] == stop,
    ensures
        until_char(text, stop) == n,
{
    lemma_until_char(text, stop);
    let m = until_char(text, stop);
    if m < n {
        assert(text[m] != stop);
    } else if n < m {
        assert(text[n] != stop);
    }
}

/// The lines of `text`.
pub fn lines(text: &str) -> (found: Vec<String>)
    ensures
        text_views(found@) == lines_spec(text@),
{
    let chars: Vec<char> = chars_of(text);
    let mut found: Vec<String> = Vec::new();
    let mut from: usize = 0;
    assert(text@.skip(0) =~= text@);
    assert(text_views(found@) + lines_spec(text@) =~= lines_spec(text@));
    while from < chars.len()
        invariant
            from <= chars.len(),
            chars@ == text@,
            text_views(found@) + lines_spec(text@.skip(from as int)) == lines_spec(text@),
        decreases chars.len() - from,
    {
        let ghost rest = text@.skip(from as int);
        let mut to: usize = from;
        while to < chars.len() && chars[to] != '\n'
            invariant
                from <= to <= chars.len(),
                chars@ == text@,
                forall|k: int| from <= k < to ==> chars@[k] != '\n',
            decreases chars.len() - to,
        {
            to = to + 1;
        }
        proof {
            assert forall|k: int| 0 <= k < to - from implies rest[k] != '\n' by {
                assert(rest[k] == chars@[from + k]);
            }
            lemma_until_char_unique(rest, '\n', to - from);
        }
        if to < chars.len() {
            let end: usize = if from < to && chars[to - 1] == '\r' {
                to - 1
            } else {
                to
            };
            let piece: Vec<char> = slice_of(&chars, from, end);
            let line: String = string_of(&piece);
            let ghost before = found@;
            found.push(line);
            proof {
                assert(rest.take(to - from) =~= text@.subrange(from as int, to as int));
                assert(without_return(rest.take(to - from)) =~= line@);
                assert(rest.skip(to - from + 1) =~= text@.skip(to + 1));
                assert(text_views(found@) =~= text_views(before).push(line@));
                assert(text_views(found@) + lines_spec(text@.skip(to + 1)) =~= text_views(before)
                    + lines_spec(rest));
            }
            from = to + 1;
        } else {
            let piece: Vec<char> = slice_of(&chars, from, to);
            let line: String = string_of(&piece);
            let ghost before = found@;
            found.push(line);
            proof {
                assert(rest =~= line@);
                assert(text_views(found@) =~= text_views(before).push(line@));
                assert(lines_spec(text@.skip(to as int)) =~= Seq::<Seq<char>>::empty());
                assert(text_views(found@) + lines_spec(text@.skip(to as int)) =~= text_views(before)
                    + lines_spec(rest));
            }
            from = to;
        }
    }
    assert(text_views(found@) + lines_spec(text@.skip(from as int)) =~= text_views(found@));
    found
}

/// The number of characters at the front of `text` that are not white space.
pub open spec fn word_len(text: Seq<char>) -> int
    decreases text.len(),
{
    if text.len() == 0 || is_space(text[0]) {
        0
    } else {
        1 + word_len(text.drop_first())
    }
}

/// `word_len` counts exactly the characters before the first white space.
pub proof fn lemma_word_len(text: Seq<char>)
    ensures
        0 <= word_len(text) <= text.len(),
        forall|k: int| 0 <= k < word_len(text) ==> !is_space(text[k]),
        word_len(text) < text.len() ==> is_space(text[word_len(text)]),
    decreases text.len(),
{
    if text.len() > 0 && !is_space(text[0]) {
        lemma_word_len(text.drop_first());
        assert forall|k: int| 0 <= k < word_len(text) implies !is_space(text[k]) by {
            if k > 0 {
                assert(text.drop_first()[k - 1] == text[k]);
            }
        }
    }
}

/// `word_len` is the only count with that property.
pub proof fn lemma_word_len_unique(text: Seq<char>, n: int)
    requires
        0 <= n <= text.len(),
        forall|k: int| 0 <= k < n ==> !is_space(text[k]),
        n < text.len() ==> is_space(text[n]),
    ensures
        word_len(text) == n,
{
    lemma_word_len(text);
    let m = word_len(text);
    if m < n {
        assert(!is_space(text[m]));
    } else if n < m {
        assert(!is_space(text[n]));
    }
}

/// The runs of characters between white space, in order.
pub open spec fn words_spec(text: Seq<char>) -> Seq<Seq<char>>
    decreases text.len(),
{
    let n = word_len(text);
    if text.len() == 0 {
        Seq::empty()
    } else if is_space(text[0]) {
        words_spec(text.drop_first())
    } else if 0 < n <= text.len() {
        seq![text.take(n)] + words_spec(text.skip(n))
    } else {
        Seq::empty()
    }
}

/// The runs of characters between white space, in order.
pub fn words(text: &str) -> (found: Vec<String>)
    ensures
        text_views(found@) == words_spec(text@),
{
    let chars: Vec<char> = chars_of(text);
    let mut found: Vec<String> = Vec::new();
    let mut from: usize = 0;
    assert(text@.skip(0) =~= text@);
    assert(text_views(found@) + words_spec(text@) =~= words_spec(text@));
    while from < chars.len()
        invariant
            from <= chars.len(),
            chars@ == text@,
            text_views(found@) + words_spec(text@.skip(from as int)) == words_spec(text@),
        decreases chars.len() - from,
    {
        let ghost rest = text@.skip(from as int);
        if is_whitespace(chars[from]) {
            assert(rest.drop_first() =~= text@.skip(from + 1));
            from = from + 1;
        } else {
            let mut to: usize = from;
            while to < chars.len() && !is_whitespace(chars[to])
                invariant
                    from <= to <= chars.len(),
                    chars@ == text@,
                    forall|k: int| from <= k < to ==> !is_space(chars@[k]),
                decreases chars.len() - to,
            {
                to = to + 1;
            }
            proof {
                assert forall|k: int| 0 <= k < to - from implies !is_space(rest[k]) by {
                    assert(rest[k] == chars@[from + k]);
                }
                if to == from {
                    assert(!is_space(chars@[from as int]));
                }
                lemma_word_len_unique(rest, to - from);
                lemma_word_len(rest);
                assert(to > from);
            }
            let piece: Vec<char> = slice_of(&chars, from, to);
            let word: String = string_of(&piece);
            let ghost before = found@;
            found.push(word);
            proof {
                assert(rest.take(to - from) =~= word@);
                assert(rest.skip(to - from) =~= text@.skip(to as int));
                assert(text_views(found@) =~= text_views(before).push(word@));
                assert(text_views(found@) + words_spec(text@.skip(to as int)) =~= text_views(before)
                    + words_spec(rest));
            }
            from = to;
        }
    }
    assert(text_views(found@) + words_spec(text@.skip(from as int)) =~= text_views(found@));
    found
}

/// `parts` one after the other, with `separator` between two of them.
pub open spec fn join_spec(parts: Seq<Seq<char>>, separator: Seq<char>) -> Seq<char>
    decreases parts.len(),
{
    if parts.len() == 0 {
        Seq::empty()
    } else if parts.len() == 1 {
        parts[0]
    } else {
        join_spec(parts.drop_last(), separator) + separator + parts.last()
    }
}

/// `parts` one after the other, with `separator` between two of them.
pub fn join(parts: &[String], separator: &str) -> (text: String)
    ensures
        text@ == join_spec(text_views(parts@), separator@),
{
    let mut text: String = String::new();
    let mut i: usize = 0;
    while i < parts.len()
        invariant
            i <= parts.len(),
            text@ == join_spec(text_views(parts@.take(i as int)), separator@),
        decreases parts.len() - i,
    {
        let ghost done = text_views(parts@.take(i as int));
        if i > 0 {
            text.append(separator);
        }
        text.append(parts[i].as_str());
        proof {
            let more = text_views(parts@.take(i + 1));
            assert(more.drop_last() =~= done);
            assert(more.last() == parts@[i as int]@);
            assert(i == 0 ==> text@ =~= parts@[i as int]@);
        }
        i = i + 1;
    }
    assert(parts@.take(i as int) =~= parts@);
    text
}

/// The first `count` characters of `text`, or all of them where there are fewer.
pub open spec fn first_chars(text: Seq<char>, count: int) -> Seq<char> {
    if text.len() <= count {
        text
    } else {
        text.take(count)
    }
}

/// The first `count` characters of `text`, or all of them where there are fewer.
pub fn take_chars(text: &str, count: usize) -> (front: String)
    ensures
        front@ == first_chars(text@, count as int),
{
    let chars: Vec<char> = chars_of(text);
    if chars.len() <= count {
        own(text)
    } else {
        let piece: Vec<char> = slice_of(&chars, 0, count);
        assert(piece@ =~= text@.take(count as int));
        string_of(&piece)
    }
}

/// `text` with every `pattern`, taken from the left and without overlap, replaced by `with`.
pub open spec fn replace_spec(text: Seq<char>, pattern: Seq<char>, with: Seq<char>) -> Seq<char>
    decreases text.len(),
{
    if text.len() == 0 || pattern.len() == 0 {
        text
    } else if occurs_at(text, pattern, 0) {
        with + replace_spec(text.skip(pattern.len() as int), pattern, with)
    } else {
        seq![text[0]] + replace_spec(text.drop_first(), pattern, with)
    }
}

/// `text` with every `pattern`, taken from the left and without overlap, replaced by `with`.
pub fn replace(text: &str, pattern: &str, with: &str) -> (replaced: String)
    requires
        pattern@.len() > 0,
    ensures
        replaced@ == replace_spec(text@, pattern@, with@),
{
    let hay: Vec<char> = chars_of(text);
    let needle: Vec<char> = chars_of(pattern);
    let mut replaced: String = String::new();
    let mut at: usize = 0;
    assert(text@.skip(0) =~= text@);
    assert(replaced@ + replace_spec(text@, pattern@, with@) =~= replace_spec(
        text@,
        pattern@,
        with@,
    ));
    while at < hay.len()
        invariant
            at <= hay.len(),
            hay@ == text@,
            needle@ == pattern@,
            pattern@.len() > 0,
            replaced@ + replace_spec(text@.skip(at as int), pattern@, with@) == replace_spec(
                text@,
                pattern@,
                with@,
            ),
        decreases hay.len() - at,
    {
        let ghost rest = text@.skip(at as int);
        let ghost before = replaced@;
        let found: bool = matches_at(&hay, &needle, at);
        proof {
            if at + needle.len() <= hay.len() {
                assert(rest.subrange(0, pattern@.len() as int) =~= text@.subrange(
                    at as int,
                    at + pattern@.len(),
                ));
            }
            assert(found == occurs_at(rest, pattern@, 0));
        }
        if found {
            replaced.append(with);
            proof {
                assert(rest.skip(pattern@.len() as int) =~= text@.skip(at + pattern@.len()));
                assert(replaced@ + replace_spec(text@.skip(at + pattern@.len()), pattern@, with@)
                    =~= before + replace_spec(rest, pattern@, with@));
            }
            at = at + needle.len();
        } else {
            replaced.push(hay[at]);
            proof {
                assert(rest.drop_first() =~= text@.skip(at + 1));
                assert(replaced@ + replace_spec(text@.skip(at + 1), pattern@, with@) =~= before
                    + replace_spec(rest, pattern@, with@));
            }
            at = at + 1;
        }
    }
    assert(replaced@ + replace_spec(text@.skip(at as int), pattern@, with@) =~= replaced@);
    replaced
}

/// Whether `text` ends in `suffix`.
pub open spec fn ends_with_spec(text: Seq<char>, suffix: Seq<char>) -> bool {
    occurs_at(text, suffix, text.len() - suffix.len())
}

/// Whether `text` ends in `suffix`.
pub fn ends_with(text: &str, suffix: &str) -> (yes: bool)
    ensures
        yes == ends_with_spec(text@, suffix@),
{
    let hay: Vec<char> = chars_of(text);
    let needle: Vec<char> = chars_of(suffix);
    if hay.len() < needle.len() {
        return false;
    }
    matches_at(&hay, &needle, hay.len() - needle.len())
}

/// Whether two texts are the same but for the case of ASCII letters.
pub fn eq_ignore_ascii_case(a: &str, b: &str) -> (same: bool)
    ensures
        same == (lower_spec(a@) == lower_spec(b@)),
{
    let left: String = to_ascii_lowercase(a);
    let right: String = to_ascii_lowercase(b);
    str_eq(left.as_str(), right.as_str())
}

/// Whether `a` comes before `b` or equals it in the order of code points.
pub open spec fn text_le(a: Seq<char>, b: Seq<char>) -> bool
    decreases a.len(),
{
    if a.len() == 0 {
        true
    } else if b.len() == 0 {
        false
    } else if a[0] != b[0] {
        a[0] < b[0]
    } else {
        text_le(a.drop_first(), b.drop_first())
    }
}

/// The order of texts is total.
pub proof fn lemma_text_le_total(a: Seq<char>, b: Seq<char>)
    ensures
        text_le(a, b) || text_le(b, a),
        text_le(a, b) && text_le(b, a) ==> a =~= b,
    decreases a.len(),
{
    if a.len() > 0 && b.len() > 0 && a[0] == b[0] {
        lemma_text_le_total(a.drop_first(), b.drop_first());
        if text_le(a, b) && text_le(b, a) {
            assert(a =~= seq![a[0]] + a.drop_first());
            assert(b =~= seq![b[0]] + b.drop_first());
        }
    }
}

/// The order of texts is transitive.
pub proof fn lemma_text_le_transitive(a: Seq<char>, b: Seq<char>, c: Seq<char>)
    requires
        text_le(a, b),
        text_le(b, c),
    ensures
        text_le(a, c),
    decreases a.len(),
{
    if a.len() > 0 && b.len() > 0 && c.len() > 0 && a[0] == b[0] && b[0] == c[0] {
        lemma_text_le_transitive(a.drop_first(), b.drop_first(), c.drop_first());
    }
}

/// Whether `a` comes before `b` or equals it in the order of code points.
pub fn text_at_or_before(a: &str, b: &str) -> (yes: bool)
    ensures
        yes == text_le(a@, b@),
{
    let left: Vec<char> = chars_of(a);
    let right: Vec<char> = chars_of(b);
    let mut i: usize = 0;
    assert(a@.skip(0) =~= a@);
    assert(b@.skip(0) =~= b@);
    while i < left.len()
        invariant
            i <= left.len(),
            i <= right.len(),
            left@ == a@,
            right@ == b@,
            text_le(a@, b@) == text_le(a@.skip(i as int), b@.skip(i as int)),
        decreases left.len() - i,
    {
        if i >= right.len() {
            return false;
        }
        if left[i] != right[i] {
            return left[i] < right[i];
        }
        assert(a@.skip(i as int).drop_first() =~= a@.skip(i + 1));
        assert(b@.skip(i as int).drop_first() =~= b@.skip(i + 1));
        i = i + 1;
    }
    true
}

/// The view of an optional text.
pub open spec fn opt_view(text: Option<String>) -> Option<Seq<char>> {
    match text {
        Some(t) => Some(t@),
        None => None,
    }
}

/// Whether two optional texts are the same.
pub fn opt_eq(a: &Option<String>, b: &Option<String>) -> (same: bool)
    ensures
        same == (opt_view(*a) == opt_view(*b)),
{
    match (a, b) {
        (Some(x), Some(y)) => str_eq(x.as_str(), y.as_str()),
        (None, None) => true,
        _ => false,
    }
}

/// An owned copy of an optional text.
pub fn opt_own(text: &Option<String>) -> (copy: Option<String>)
    ensures
        copy == *text,
        opt_view(copy) == opt_view(*text),
{
    match text {
        Some(t) => Some(t.clone()),
        None => None,
    }
}

/// The order of optional texts: none comes first.
pub open spec fn opt_le(a: Option<Seq<char>>, b: Option<Seq<char>>) -> bool {
    match (a, b) {
        (None, _) => true,
        (Some(_), None) => false,
        (Some(x), Some(y)) => text_le(x, y),
    }
}

/// Whether `a` comes before `b` or equals it, where no text comes first.
pub fn opt_at_or_before(a: &Option<String>, b: &Option<String>) -> (yes: bool)
    ensures
        yes == opt_le(opt_view(*a), opt_view(*b)),
{
    match (a, b) {
        (None, _) => true,
        (Some(_), None) => false,
        (Some(x), Some(y)) => text_at_or_before(x.as_str(), y.as_str()),
    }
}

/// What `String::from_utf8_lossy` gives for bytes.
pub uninterp spec fn lossy_text(bytes: Seq<u8>) -> Seq<char>;

/// Calls `String::from_utf8_lossy`. The contract claims only that the text depends on the bytes
/// alone.
#[verifier::external_body]
pub(crate) fn decode_lossy(bytes: &[u8]) -> (text: String)
    ensures
        text@ == lossy_text(bytes@),
{
    String::from_utf8_lossy(bytes).into_owned()
}

} // verus!
