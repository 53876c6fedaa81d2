//! Text as sequences of characters: comparison, trimming, splitting, joining
//! and decimal numbers.

use vstd::prelude::*;
use vstd::string::*;
use vstd::utf8::*;

verus! {

broadcast use encode_utf8_decode_utf8;

/// [`String::push`]: appends one character to the end of the string.
pub assume_specification[ String::push ](s: &mut String, c: char)
    ensures
        final(s)@ == old(s)@.push(c),
;

/// The contents of a list of strings.
pub open spec fn texts(list: Seq<String>) -> Seq<Seq<char>> {
    list.map_values(|s: String| s@)
}

/// The text that is written for a number in base ten, without leading zeros.
pub open spec fn decimal(n: nat) -> Seq<char>
    decreases n,
{
    if n < 10 {
        seq![digit(n)]
    } else {
        decimal(n / 10).push(digit(n % 10))
    }
}

/// The character of a digit below ten.
pub open spec fn digit(n: nat) -> char {
    ('0' as u32 + n) as char
}

/// Whether a character is one of the ten ASCII digits.
pub open spec fn is_digit(c: char) -> bool {
    '0' <= c <= '9'
}

/// The number that a run of digits stands for.
pub open spec fn digits_value(s: Seq<char>) -> nat
    decreases s.len(),
{
    if s.len() == 0 {
        0
    } else {
        digits_value(s.drop_last()) * 10 + (s.last() as u32 - '0' as u32) as nat
    }
}

/// What reading a text as an unsigned machine word gives: an optional plus sign,
/// then one or more digits, nothing else, and a value that fits.
pub open spec fn parsed_size(s: Seq<char>) -> Option<usize> {
    if s.len() > 0 && s[0] == '+' {
        digits_size(s.skip(1))
    } else {
        digits_size(s)
    }
}

/// The value of one or more digits, where it fits a machine word.
pub open spec fn digits_size(digits: Seq<char>) -> Option<usize> {
    if digits.len() > 0 && (forall|i: int| 0 <= i < digits.len() ==> is_digit(#[trigger] digits[i]))
        && digits_value(digits) <= usize::MAX {
        Some(digits_value(digits) as usize)
    } else {
        None
    }
}

/// The characters with the Unicode property `White_Space`.
pub open spec fn is_white(c: char) -> bool {
    ||| '\u{9}' <= c <= '\u{d}'
    ||| c == ' '
    ||| c == '\u{85}'
    ||| c == '\u{a0}'
    ||| c == '\u{1680}'
    ||| '\u{2000}' <= c <= '\u{200a}'
    ||| c == '\u{2028}'
    ||| c == '\u{2029}'
    ||| c == '\u{202f}'
    ||| c == '\u{205f}'
    ||| c == '\u{3000}'
}

/// A text without the white space that it starts with.
pub open spec fn trimmed_start(s: Seq<char>) -> Seq<char>
    decreases s.len(),
{
    if s.len() > 0 && is_white(s[0]) {
        trimmed_start(s.drop_first())
    } else {
        s
    }
}

/// A text without the white space that it ends with.
pub open spec fn trimmed_end(s: Seq<char>) -> Seq<char>
    decreases s.len(),
{
    if s.len() > 0 && is_white(s.last()) {
        trimmed_end(s.drop_last())
    } else {
        s
    }
}

/// A text without the white space at both ends.
pub open spec fn trimmed(s: Seq<char>) -> Seq<char> {
    trimmed_end(trimmed_start(s))
}

/// Whether `s` starts with `prefix`.
pub open spec fn has_prefix(s: Seq<char>, prefix: Seq<char>) -> bool {
    prefix.len() <= s.len() && s.take(prefix.len() as int) == prefix
}

/// Whether `s` ends with `suffix`.
pub open spec fn has_suffix(s: Seq<char>, suffix: Seq<char>) -> bool {
    suffix.len() <= s.len() && s.skip(s.len() - suffix.len()) == suffix
}

/// A text without the repetitions of `prefix` that it starts with.
pub open spec fn without_prefixes(s: Seq<char>, prefix: Seq<char>) -> Seq<char>
    decreases s.len(),
{
    if prefix.len() > 0 && has_prefix(s, prefix) {
        without_prefixes(s.skip(prefix.len() as int), prefix)
    } else {
        s
    }
}

/// A text with each single quote doubled, as a quoted SQL literal holds it.
pub open spec fn escaped(s: Seq<char>) -> Seq<char>
    decreases s.len(),
{
    if s.len() == 0 {
        seq![]
    } else if s.last() == '\'' {
        escaped(s.drop_last()).push('\'').push('\'')
    } else {
        escaped(s.drop_last()).push(s.last())
    }
}

/// The parts of a list, one after the other with `separator` between them.
pub open spec fn joined(parts: Seq<Seq<char>>, separator: Seq<char>) -> Seq<char>
    decreases parts.len(),
{
    if parts.len() == 0 {
        seq![]
    } else if parts.len() == 1 {
        parts[0]
    } else {
        joined(parts.drop_last(), separator) + separator + parts.last()
    }
}

/// The place of the first `c` in `s`, or the length of `s` where there is none.
pub open spec fn first_of(s: Seq<char>, c: char) -> int
    decreases s.len(),
{
    if s.len() == 0 || s[0] == c {
        0
    } else {
        1 + first_of(s.drop_first(), c)
    }
}

/// A line without the carriage return that it may end with.
pub open spec fn without_return(s: Seq<char>) -> Seq<char> {
    if s.len() > 0 && s.last() == '\r' {
        s.drop_last()
    } else {
        s
    }
}

/// The lines of a text. A line ends with a line feed, before which one carriage
/// return is dropped; the last line may go without.
pub open spec fn lines_of(s: Seq<char>) -> Seq<Seq<char>>
    decreases s.len(),
{
    let end = first_of(s, '\n');
    if s.len() == 0 {
        seq![]
    } else if 0 <= end < s.len() {
        seq![without_return(s.take(end))] + lines_of(s.skip(end + 1))
    } else {
        seq![s]
    }
}

/// Where [`first_of`] lies, and what comes before it.
pub proof fn lemma_first_of(s: Seq<char>, c: char)
    ensures
        0 <= first_of(s, c) <= s.len(),
        first_of(s, c) < s.len() ==> s[first_of(s, c)] == c,
        forall|i: int| 0 <= i < first_of(s, c) ==> s[i] != c,
    decreases s.len(),
{
    if s.len() > 0 && s[0] != c {
        let rest = s.drop_first();
        lemma_first_of(rest, c);
        assert forall|i: int| 0 <= i < first_of(s, c) implies s[i] != c by {
            if i > 0 {
                assert(s[i] == rest[i - 1]);
            }
        }
    }
}

/// A place that holds `c` with none before it is the first.
pub proof fn lemma_first_of_is(s: Seq<char>, c: char, at: int)
    requires
        0 <= at <= s.len(),
        at < s.len() ==> s[at] == c,
        forall|i: int| 0 <= i < at ==> s[i] != c,
    ensures
        first_of(s, c) == at,
{
    lemma_first_of(s, c);
}

/// Two texts with the same UTF-8 bytes are the same.
pub proof fn lemma_same_bytes(a: Seq<char>, b: Seq<char>)
    requires
        encode_utf8(a) == encode_utf8(b),
    ensures
        a == b,
{
    assert(decode_utf8(encode_utf8(a)) == a);
    assert(decode_utf8(encode_utf8(b)) == b);
}

/// Whether two texts are the same.
pub fn same_text(a: &str, b: &str) -> (same: bool)
    ensures
        same == (a@ == b@),
{
    let left = a.as_bytes();
    let right = b.as_bytes();
    if left.len() != right.len() {
        return false;
    }
    let mut i: usize = 0;
    while i < left.len()
        invariant
            i <= left@.len(),
            left@.len() == right@.len(),
            left@ == encode_utf8(a@),
            right@ == encode_utf8(b@),
            forall|k: int| 0 <= k < i ==> left@[k] == right@[k],
        decreases left@.len() - i,
    {
        if left[i] != right[i] {
            return false;
        }
        i = i + 1;
    }
    proof {
        assert(left@ =~= right@);
        lemma_same_bytes(a@, b@);
    }
    true
}

/// The characters of a text.
pub fn to_chars(s: &str) -> (chars: Vec<char>)
    ensures
        chars@ == s@,
{
    let mut chars: Vec<char> = Vec::new();
    for c in it: s.chars()
        invariant
            it.seq() == s@,
            chars@ == s@.take(it.index()),
    {
        chars.push(c);
    }
    assert(s@.take(s@.len() as int) == s@);
    chars
}

/// The text of the characters from `from` up to `to`.
pub fn text_of(chars: &Vec<char>, from: usize, to: usize) -> (text: String)
    requires
        from <= to <= chars@.len(),
    ensures
        text@ == chars@.subrange(from as int, to as int),
{
    let mut text = String::new();
    let mut i: usize = from;
    while i < to
        invariant
            from <= i <= to <= chars@.len(),
            text@ == chars@.subrange(from as int, i as int),
        decreases to - i,
    {
        text.push(chars[i]);
        assert(chars@.subrange(from as int, i as int).push(chars@[i as int])
            =~= chars@.subrange(from as int, i + 1));
        i = i + 1;
    }
    text
}

/// Whether `s` starts with `prefix`.
pub fn starts_with(s: &str, prefix: &str) -> (yes: bool)
    ensures
        yes == has_prefix(s@, prefix@),
{
    let chars = to_chars(s);
    let wanted = to_chars(prefix);
    assert(s@.skip(0) =~= s@);
    chars_at(&chars, 0, &wanted)
}

/// Whether the characters of `wanted` stand in `chars` from `from` on.
pub fn chars_at(chars: &Vec<char>, from: usize, wanted: &Vec<char>) -> (yes: bool)
    requires
        from <= chars@.len(),
    ensures
        yes == has_prefix(chars@.skip(from as int), wanted@),
{
    if wanted.len() > chars.len() - from {
        return false;
    }
    let length = chars.len();
    let ghost rest = chars@.skip(from as int);
    let mut i: usize = 0;
    while i < wanted.len()
        invariant
            length == chars@.len(),
            i <= wanted@.len() <= length - from,
            rest == chars@.skip(from as int),
            forall|k: int| 0 <= k < i ==> rest[k] == wanted@[k],
        decreases wanted@.len() - i,
    {
        if chars[from + i] != wanted[i] {
            assert(rest[i as int] != wanted@[i as int]);
            assert(rest.take(wanted@.len() as int)[i as int] != wanted@[i as int]);
            return false;
        }
        i = i + 1;
    }
    assert(rest.take(wanted@.len() as int) =~= wanted@);
    true
}

/// Whether `s` ends with `suffix`.
pub fn ends_with(s: &str, suffix: &str) -> (yes: bool)
    ensures
        yes == has_suffix(s@, suffix@),
{
    let chars = to_chars(s);
    let wanted = to_chars(suffix);
    if wanted.len() > chars.len() {
        return false;
    }
    let from = chars.len() - wanted.len();
    proof {
        let rest = chars@.skip(from as int);
        assert(rest.take(rest.len() as int) =~= rest);
    }
    chars_at(&chars, from, &wanted)
}

/// The place of the first `c` from `from` on, or the length where there is none.
pub fn find_char(chars: &Vec<char>, from: usize, c: char) -> (at: usize)
    requires
        from <= chars@.len(),
    ensures
        from <= at <= chars@.len(),
        at - from == first_of(chars@.skip(from as int), c),
{
    let mut at: usize = from;
    while at < chars.len() && chars[at] != c
        invariant
            from <= at <= chars@.len(),
            forall|i: int| from <= i < at ==> chars@[i] != c,
        decreases chars@.len() - at,
    {
        at = at + 1;
    }
    proof {
        lemma_first_of_is(chars@.skip(from as int), c, at - from);
    }
    at
}

/// Whether `c` occurs in `s`.
pub fn contains_char(s: &str, c: char) -> (yes: bool)
    ensures
        yes == s@.contains(c),
{
    let chars = to_chars(s);
    let at = find_char(&chars, 0, c);
    proof {
        assert(chars@.skip(0) =~= chars@);
        lemma_first_of(s@, c);
        if at < chars@.len() {
            assert(s@[at as int] == c);
        }
    }
    at < chars.len()
}

/// Whether a character is white space.
pub fn is_white_char(c: char) -> (yes: bool)
    ensures
        yes == is_white(c),
{
    ('\u{9}' <= c && c <= '\u{d}') || c == ' ' || c == '\u{85}' || c == '\u{a0}' || c == '\u{1680}'
        || ('\u{2000}' <= c && c <= '\u{200a}') || c == '\u{2028}' || c == '\u{2029}' || c
        == '\u{202f}' || c == '\u{205f}' || c == '\u{3000}'
}

/// A text without the white space at both ends.
pub fn trim(s: &str) -> (text: String)
    ensures
        text@ == trimmed(s@),
{
    let chars = to_chars(s);
    let mut from: usize = 0;
    assert(s@.skip(0) =~= s@);
    while from < chars.len() && is_white_char(chars[from])
        invariant
            from <= chars@.len(),
            chars@ == s@,
            trimmed_start(s@.skip(from as int)) == trimmed_start(s@),
        decreases chars@.len() - from,
    {
        assert(s@.skip(from as int).drop_first() =~= s@.skip(from + 1));
        from = from + 1;
    }
    let ghost start = s@.skip(from as int);
    assert(trimmed_start(s@) == start);
    let mut to: usize = chars.len();
    assert(start.take(start.len() as int) =~= start);
    while to > from && is_white_char(chars[to - 1])
        invariant
            from <= to <= chars@.len(),
            chars@ == s@,
            start == s@.skip(from as int),
            trimmed_end(start.take(to - from)) == trimmed_end(start),
        decreases to,
    {
        assert(start.take(to - from).drop_last() =~= start.take(to - from - 1));
        assert(start.take(to - from).last() == chars@[to - 1]);
        to = to - 1;
    }
    proof {
        let kept = start.take(to - from);
        if kept.len() > 0 {
            assert(kept.last() == chars@[to - 1]);
        }
        assert(kept =~= chars@.subrange(from as int, to as int));
    }
    text_of(&chars, from, to)
}

/// A text without the repetitions of `prefix` that it starts with.
pub fn strip_prefixes(s: &str, prefix: &str) -> (text: String)
    ensures
        text@ == without_prefixes(s@, prefix@),
{
    let chars = to_chars(s);
    let wanted = to_chars(prefix);
    let length = chars.len();
    let mut from: usize = 0;
    assert(s@.skip(0) =~= s@);
    if wanted.len() > 0 {
        while chars_at(&chars, from, &wanted)
            invariant
                length == chars@.len(),
                from <= length,
                chars@ == s@,
                wanted@ == prefix@,
                wanted@.len() > 0,
                without_prefixes(s@.skip(from as int), prefix@) == without_prefixes(s@, prefix@),
            decreases chars@.len() - from,
        {
            assert(s@.skip(from as int).skip(wanted@.len() as int) =~= s@.skip(
                from + wanted@.len(),
            ));
            from = from + wanted.len();
        }
    }
    assert(s@.skip(from as int) =~= s@.subrange(from as int, s@.len() as int));
    text_of(&chars, from, chars.len())
}

/// A text with each single quote doubled, so that it can stand in a quoted SQL
/// literal.
pub fn escape(s: &str) -> (text: String)
    ensures
        text@ == escaped(s@),
{
    let chars = to_chars(s);
    let mut text = String::new();
    let mut i: usize = 0;
    while i < chars.len()
        invariant
            i <= chars@.len(),
            chars@ == s@,
            text@ == escaped(s@.take(i as int)),
        decreases chars@.len() - i,
    {
        assert(s@.take(i + 1).drop_last() =~= s@.take(i as int));
        if chars[i] == '\'' {
            text.push('\'');
            text.push('\'');
        } else {
            text.push(chars[i]);
        }
        i = i + 1;
    }
    assert(s@.take(i as int) =~= s@);
    text
}

/// The parts of a list, one after the other with `separator` between them.
pub fn join(parts: &Vec<String>, separator: &str) -> (text: String)
    ensures
        text@ == joined(texts(parts@), separator@),
{
    let mut text = String::new();
    let mut i: usize = 0;
    assert(texts(parts@).take(0) =~= seq![]);
    while i < parts.len()
        invariant
            i <= parts@.len(),
            text@ == joined(texts(parts@).take(i as int), separator@),
        decreases parts@.len() - i,
    {
        let ghost before = texts(parts@).take(i as int);
        let ghost after = texts(parts@).take(i + 1);
        assert(after.drop_last() =~= before);
        assert(after.last() == parts@[i as int]@);
        if i > 0 {
            text.append(separator);
        }
        text.append(parts[i].as_str());
        if i == 0 {
            assert(text@ =~= after[0]);
        }
        i = i + 1;
    }
    assert(texts(parts@).take(i as int) =~= texts(parts@));
    text
}

/// The parts of a list, one after the other.
pub open spec fn together(parts: Seq<Seq<char>>) -> Seq<char>
    decreases parts.len(),
{
    if parts.len() == 0 {
        seq![]
    } else {
        together(parts.drop_last()) + parts.last()
    }
}

/// The parts of a list, one after the other.
pub fn put_together(parts: &Vec<String>) -> (text: String)
    ensures
        text@ == together(texts(parts@)),
{
    let mut text = String::new();
    let ghost all = texts(parts@);
    let mut i: usize = 0;
    assert(all.take(0) =~= seq![]);
    assert(text@ =~= together(all.take(0)));
    while i < parts.len()
        invariant
            i <= parts@.len(),
            all == texts(parts@),
            text@ == together(all.take(i as int)),
        decreases parts@.len() - i,
    {
        text.append(parts[i].as_str());
        assert(all.take(i + 1).drop_last() =~= all.take(i as int));
        assert(all.take(i + 1).last() == parts@[i as int]@);
        i = i + 1;
    }
    assert(all.take(i as int) =~= all);
    text
}

/// The lines of a text.
pub fn lines(s: &str) -> (list: Vec<String>)
    ensures
        texts(list@) == lines_of(s@),
{
    let chars = to_chars(s);
    let mut list: Vec<String> = Vec::new();
    let mut from: usize = 0;
    assert(s@.skip(0) =~= s@);
    assert(texts(list@) + lines_of(s@) =~= lines_of(s@));
    while from < chars.len()
        invariant
            from <= chars@.len(),
            chars@ == s@,
            texts(list@) + lines_of(s@.skip(from as int)) == lines_of(s@),
        decreases chars@.len() - from,
    {
        let ghost rest = s@.skip(from as int);
        let ghost before = texts(list@);
        let end = find_char(&chars, from, '\n');
        if end < chars.len() {
            let ghost line = rest.take(end - from);
            let mut to: usize = end;
            if to > from && chars[to - 1] == '\r' {
                assert(line.last() == chars@[to - 1]);
                to = to - 1;
            } else if to > from {
                assert(line.last() == chars@[to - 1]);
            }
            let text = text_of(&chars, from, to);
            assert(text@ =~= without_return(line));
            list.push(text);
            assert(rest.skip(end - from + 1) =~= s@.skip(end + 1));
            from = end + 1;
            assert(texts(list@) =~= before.push(without_return(line)));
            assert(texts(list@) + lines_of(s@.skip(from as int)) =~= before + lines_of(rest));
        } else {
            let text = text_of(&chars, from, chars.len());
            assert(text@ =~= rest);
            list.push(text);
            from = chars.len();
            assert(texts(list@) =~= before.push(rest));
            assert(texts(list@) + lines_of(s@.skip(from as int)) =~= before + lines_of(rest));
        }
    }
    assert(texts(list@) + lines_of(s@.skip(from as int)) =~= texts(list@));
    list
}

/// A number in base ten.
pub fn number(n: usize) -> (text: String)
    ensures
        text@ == decimal(n as nat),
    decreases n,
{
    let mut text = if n < 10 {
        String::new()
    } else {
        number(n / 10)
    };
    text.push(digit_char(n % 10));
    assert(text@ =~= decimal(n as nat));
    text
}

fn digit_char(n: usize) -> (c: char)
    requires
        n < 10,
    ensures
        c == digit(n as nat),
{
    match n {
        0 => '0',
        1 => '1',
        2 => '2',
        3 => '3',
        4 => '4',
        5 => '5',
        6 => '6',
        7 => '7',
        8 => '8',
        _ => '9',
    }
}

/// Leading digits only make a number larger.
proof fn lemma_digits_value_grows(s: Seq<char>, shorter: int)
    requires
        0 <= shorter <= s.len(),
        forall|i: int| 0 <= i < s.len() ==> is_digit(#[trigger] s[i]),
    ensures
        digits_value(s.take(shorter)) <= digits_value(s),
    decreases s.len() - shorter,
{
    if shorter < s.len() {
        let next = s.take(shorter + 1);
        assert(next.drop_last() =~= s.take(shorter));
        lemma_digits_value_grows(s, shorter + 1);
        assert(digits_value(next) >= digits_value(s.take(shorter)));
    } else {
        assert(s.take(shorter) =~= s);
    }
}

/// Reads an unsigned machine word in base ten.
pub fn parse_size(s: &str) -> (value: Option<usize>)
    ensures
        value == parsed_size(s@),
{
    let chars = to_chars(s);
    let from: usize = if chars.len() > 0 && chars[0] == '+' {
        1
    } else {
        0
    };
    let ghost digits = s@.skip(from as int);
    assert(s@.skip(0) =~= s@);
    if from == chars.len() {
        return None;
    }
    let mut value: usize = 0;
    let mut i: usize = from;
    assert(digits.take(0) =~= seq![]);
    while i < chars.len()
        invariant
            from <= i <= chars@.len(),
            from <= 1,
            chars@ == s@,
            digits == s@.skip(from as int),
            from < chars@.len(),
            parsed_size(s@) == digits_size(digits),
            forall|k: int| 0 <= k < i - from ==> is_digit(#[trigger] digits[k]),
            value == digits_value(digits.take(i - from)),
        decreases chars@.len() - i,
    {
        let c = chars[i];
        assert(digits[i - from] == c);
        if !('0' <= c && c <= '9') {
            assert(!is_digit(digits[i - from]));
            return None;
        }
        let d: usize = (c as u32 - '0' as u32) as usize;
        let ghost next = digits.take(i - from + 1);
        proof {
            assert(next.drop_last() =~= digits.take(i - from));
            assert(next.last() == c);
            if forall|k: int| 0 <= k < digits.len() ==> is_digit(#[trigger] digits[k]) {
                lemma_digits_value_grows(digits, i - from + 1);
            }
        }
        if value > (usize::MAX - d) / 10 {
            assert(value * 10 + d > usize::MAX);
            return None;
        }
        assert(value * 10 + d <= usize::MAX);
        value = value * 10 + d;
        i = i + 1;
    }
    assert(digits.take(i - from) =~= digits);
    Some(value)
}

/// Doubling the quotes keeps what a text ends with.
proof fn lemma_escaped_last(s: Seq<char>)
    ensures
        s.len() > 0 <==> escaped(s).len() > 0,
        s.len() > 0 ==> escaped(s).last() == s.last(),
{
}

/// Different texts stay different when their quotes are doubled.
pub proof fn law_escaped_differ(a: Seq<char>, b: Seq<char>)
    requires
        escaped(a) == escaped(b),
    ensures
        a == b,
    decreases a.len() + b.len(),
{
    lemma_escaped_last(a);
    lemma_escaped_last(b);
    if a.len() > 0 && b.len() > 0 {
        let x = escaped(a.drop_last());
        let y = escaped(b.drop_last());
        if a.last() == '\'' {
            assert(escaped(a).drop_last().drop_last() =~= x);
            assert(escaped(b).drop_last().drop_last() =~= y);
        } else {
            assert(escaped(a).drop_last() =~= x);
            assert(escaped(b).drop_last() =~= y);
        }
        law_escaped_differ(a.drop_last(), b.drop_last());
        assert(a =~= a.drop_last().push(a.last()));
        assert(b =~= b.drop_last().push(b.last()));
    } else {
        assert(a =~= b);
    }
}

} // verus!
