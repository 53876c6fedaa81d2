//! What single signs, numbers, moments and JSON strings stand for.

use vstd::prelude::*;

use crate::json::{hex_digit, json_escape, json_escaped, json_quoted};
use crate::pattern::{earlier, rfc2822_moment, within};
use crate::text::{decimal, digit, digits_value, is_digit, is_white, parsed_size};

verus! {

/// White space is what Unicode takes for it, and nothing else.
pub proof fn law_white_space(c: char)
    ensures
        is_white(c) <==> "\t\n\u{b}\u{c}\r \u{85}\u{a0}\u{1680}\u{2000}\u{2001}\u{2002}\u{2003}\u{2004}\u{2005}\u{2006}\u{2007}\u{2008}\u{2009}\u{200a}\u{2028}\u{2029}\u{202f}\u{205f}\u{3000}"@.contains(
            c,
        ),
{
    reveal_strlit(
        "\t\n\u{b}\u{c}\r \u{85}\u{a0}\u{1680}\u{2000}\u{2001}\u{2002}\u{2003}\u{2004}\u{2005}\u{2006}\u{2007}\u{2008}\u{2009}\u{200a}\u{2028}\u{2029}\u{202f}\u{205f}\u{3000}",
    );
    let all = "\t\n\u{b}\u{c}\r \u{85}\u{a0}\u{1680}\u{2000}\u{2001}\u{2002}\u{2003}\u{2004}\u{2005}\u{2006}\u{2007}\u{2008}\u{2009}\u{200a}\u{2028}\u{2029}\u{202f}\u{205f}\u{3000}"@;
    assert(all.len() == 25);
    if is_white(c) {
        let n = c as int;
        let at: int = if n <= 13 {
            n - 9
        } else if n == 32 {
            5
        } else if n == 0x85 {
            6
        } else if n == 0xa0 {
            7
        } else if n == 0x1680 {
            8
        } else if n <= 0x200a {
            n - 0x2000 + 9
        } else if n == 0x2028 {
            20
        } else if n == 0x2029 {
            21
        } else if n == 0x202f {
            22
        } else if n == 0x205f {
            23
        } else {
            24
        };
        assert(all[at] == c);
    }
    if all.contains(c) {
        let at = choose|at: int| 0 <= at < all.len() && all[at] == c;
        assert(is_white(all[at]));
    }
}

/// A number is written digit by digit, the last one last.
pub proof fn law_digits(n: nat)
    ensures
        n < 10 ==> decimal(n) == seq!["0123456789"@[n as int]],
        n >= 10 ==> decimal(n) == decimal(n / 10).push("0123456789"@[(n % 10) as int]),
        forall|c: char| #[trigger] is_digit(c) <==> "0123456789"@.contains(c),
{
    reveal_strlit("0123456789");
    let all = "0123456789"@;
    assert(digit(n % 10) == all[(n % 10) as int]);
    if n < 10 {
        assert(n % 10 == n);
        assert(decimal(n) =~= seq![all[n as int]]);
    }
    assert forall|c: char| #[trigger] is_digit(c) <==> all.contains(c) by {
        if is_digit(c) {
            assert(all[c as int - '0' as int] == c);
        }
        if all.contains(c) {
            let at = choose|at: int| 0 <= at < all.len() && all[at] == c;
            assert(is_digit(all[at]));
        }
    }
}

/// A text is read as a number if and only if it holds digits alone, behind a plus sign or not,
/// and the number fits; what was written is read back.
pub proof fn law_numbers_are_read(digits: Seq<char>, n: usize)
    requires
        forall|i: int| 0 <= i < digits.len() ==> "0123456789"@.contains(#[trigger] digits[i]),
    ensures
        parsed_size(decimal(n as nat)) == Some(n),
        parsed_size(seq!['+'] + digits) == parsed_size(digits),
        parsed_size(digits) is Some <==> digits.len() > 0 && digits_value(digits) <= usize::MAX,
        forall|text: Seq<char>, i: int|
            0 <= i < text.len() && !("0123456789"@.contains(#[trigger] text[i])) && !(i == 0
                && text[i] == '+') ==> parsed_size(text) is None,
{
    law_digits(0);
    crate::text_laws::law_decimal(n as nat);
    reveal_strlit("0123456789");
    let signed = seq!['+'] + digits;
    assert(signed.skip(1) =~= digits);
    assert(!is_digit('+'));
    if digits.len() > 0 {
        assert(is_digit(digits[0]));
    }
    assert(is_digit(decimal(n as nat)[0]));
    assert forall|text: Seq<char>, i: int|
        0 <= i < text.len() && !("0123456789"@.contains(#[trigger] text[i])) && !(i == 0 && text[i]
            == '+') implies parsed_size(text) is None by {
        assert(!is_digit(text[i]));
        if text[0] == '+' {
            assert(text.skip(1)[i - 1] == text[i]);
        }
    }
}

/// Of two moments the one of the earlier second comes first, within one second the one of the
/// earlier nanosecond, and none before itself.
pub proof fn law_moments(a: (i64, u32), b: (i64, u32))
    ensures
        a.0 < b.0 ==> earlier(a, b) && !earlier(b, a),
        a.0 == b.0 && a.1 < b.1 ==> earlier(a, b) && !earlier(b, a),
        !earlier(a, a),
        a != b ==> earlier(a, b) || earlier(b, a),
{
}

/// Without bounds everything lies within them; with a bound only dates do, from the lower one
/// on and up to the upper one, both included.
pub proof fn law_bounds(date: Seq<char>, since: (i64, u32), until: (i64, u32))
    ensures
        within(rfc2822_moment(date), None, None),
        rfc2822_moment(date) is None ==> !within(rfc2822_moment(date), Some(since), None)
            && !within(rfc2822_moment(date), None, Some(until)) && !within(
            rfc2822_moment(date),
            Some(since),
            Some(until),
        ),
        within(Some(since), Some(since), None) && within(Some(until), None, Some(until)),
        rfc2822_moment(date) matches Some(m) ==> (within(Some(m), Some(since), Some(until))
            <==> within(Some(m), Some(since), None) && within(Some(m), None, Some(until))) && (
        within(Some(m), Some(since), None) <==> since == m || since.0 < m.0 || (since.0 == m.0
            && since.1 < m.1)) && (within(Some(m), None, Some(until)) <==> until == m || m.0
            < until.0 || (m.0 == until.0 && m.1 < until.1)),
{
}

/// The number that a hexadecimal digit in lower case stands for.
pub open spec fn digit_value(c: char) -> int {
    if '0' <= c <= '9' {
        c as int - '0' as int
    } else {
        c as int - 'a' as int + 10
    }
}

/// What the inside of a JSON string stands for; nothing where a quote or a control character
/// stands in it as it is, or where an escape is none.
pub open spec fn json_read(text: Seq<char>) -> Option<Seq<char>>
    decreases text.len(),
{
    if text.len() == 0 {
        Some(seq![])
    } else {
        let (first, length): (Option<char>, int) = if text[0] != '\\' {
            (
                if text[0] == '"' || (text[0] as int) < 32 {
                    None
                } else {
                    Some(text[0])
                },
                1,
            )
        } else if text.len() < 2 {
            (None, 1)
        } else if text[1] == '"' || text[1] == '\\' {
            (Some(text[1]), 2)
        } else if text[1] == 'b' {
            (Some('\u{8}'), 2)
        } else if text[1] == 't' {
            (Some('\t'), 2)
        } else if text[1] == 'n' {
            (Some('\n'), 2)
        } else if text[1] == 'f' {
            (Some('\u{c}'), 2)
        } else if text[1] == 'r' {
            (Some('\r'), 2)
        } else if text[1] == 'u' && text.len() >= 6 {
            (
                Some(
                    (4096 * digit_value(text[2]) + 256 * digit_value(text[3]) + 16 * digit_value(
                        text[4],
                    ) + digit_value(text[5])) as char,
                ),
                6,
            )
        } else {
            (None, 1)
        };
        match (first, json_read(text.skip(length))) {
            (Some(c), Some(rest)) => Some(seq![c] + rest),
            _ => None,
        }
    }
}

proof fn lemma_hex_digit(n: int)
    requires
        0 <= n < 16,
    ensures
        digit_value(hex_digit(n)) == n,
{
    reveal_strlit("0123456789abcdef");
    let all = "0123456789abcdef"@;
    assert(all[0] == '0' && all[1] == '1' && all[2] == '2' && all[3] == '3' && all[4] == '4'
        && all[5] == '5' && all[6] == '6' && all[7] == '7');
    assert(all[8] == '8' && all[9] == '9' && all[10] == 'a' && all[11] == 'b' && all[12] == 'c'
        && all[13] == 'd' && all[14] == 'e' && all[15] == 'f');
}

proof fn lemma_escaped_first(c: char, rest: Seq<char>)
    ensures
        json_escaped(seq![c] + rest) == json_escape(c) + json_escaped(rest),
    decreases rest.len(),
{
    let text = seq![c] + rest;
    if rest.len() == 0 {
        assert(text.drop_last() =~= seq![]);
        assert(rest =~= seq![]);
        reveal_with_fuel(json_escaped, 2);
        assert(json_escaped(text) =~= json_escape(c) + json_escaped(rest));
    } else {
        lemma_escaped_first(c, rest.drop_last());
        assert(text.drop_last() =~= seq![c] + rest.drop_last());
        assert(json_escaped(text) =~= json_escape(c) + json_escaped(rest));
    }
}

proof fn lemma_read_one(c: char, rest: Seq<char>)
    requires
        json_read(rest) is Some,
    ensures
        json_read(json_escape(c) + rest) == Some(seq![c] + json_read(rest)->Some_0),
{
    let head = json_escape(c);
    let inside = head + rest;
    assert(inside.skip(head.len() as int) =~= rest);
    assert(inside[0] == head[0]);
    let n = c as int;
    if c == '"' || c == '\\' || c == '\u{8}' || c == '\t' || c == '\n' || c == '\u{c}' || c
        == '\r' {
        assert(head.len() == 2);
        assert(inside[1] == head[1]);
    } else if n < 32 {
        assert(head.len() == 6);
        assert(inside[1] == head[1]);
        assert(inside[2] == head[2]);
        assert(inside[3] == head[3]);
        assert(inside[4] == head[4]);
        assert(inside[5] == head[5]);
        lemma_hex_digit(n / 16);
        lemma_hex_digit(n % 16);
        assert(4096 * digit_value(inside[2]) + 256 * digit_value(inside[3]) + 16 * digit_value(
            inside[4],
        ) + digit_value(inside[5]) == n);
        assert(n as char == c);
    } else {
        assert(head.len() == 1);
    }
}

/// What is written as a JSON string stands between quotes, and is read back from there as it
/// was.
pub proof fn law_json_read_back(text: Seq<char>)
    ensures
        json_quoted(text).len() >= 2,
        json_quoted(text)[0] == '"',
        json_quoted(text).last() == '"',
        json_read(json_quoted(text).subrange(1, json_quoted(text).len() - 1)) == Some(text),
    decreases text.len(),
{
    let inside = json_quoted(text).subrange(1, json_quoted(text).len() - 1);
    assert(inside =~= json_escaped(text));
    if text.len() == 0 {
        assert(inside =~= seq![]);
        assert(text =~= seq![]);
    } else {
        let c = text[0];
        let rest = text.skip(1);
        law_json_read_back(rest);
        assert(json_quoted(rest).subrange(1, json_quoted(rest).len() - 1) =~= json_escaped(rest));
        assert(text =~= seq![c] + rest);
        lemma_escaped_first(c, rest);
        lemma_read_one(c, json_escaped(rest));
    }
}

} // verus!
