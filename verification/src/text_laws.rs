//! What holds of texts that are taken apart and put together.

use vstd::prelude::*;
use vstd::utf8::*;

use crate::lists::concatenated;
use crate::order::{run_less, text_less, text_run};
use crate::pattern::{
    full_text_words, is_word_character, piece_end, search_words, separates,
};
use crate::text::{
    decimal, digit, digits_value, escaped, first_of, is_digit, is_white, joined, lemma_first_of,
    lines_of, together, trimmed, trimmed_end, trimmed_start, without_return,
};

verus! {

/// What a quoted SQL literal holds, read from behind its opening quote: a quote that is doubled
/// stands for one, and one that is not ends the literal. Gives the value and what stands behind
/// the literal; nothing where it does not end.
pub open spec fn read_literal(text: Seq<char>) -> Option<(Seq<char>, Seq<char>)>
    decreases text.len(),
{
    if text.len() == 0 {
        None
    } else if text[0] != '\'' {
        match read_literal(text.skip(1)) {
            Some((value, rest)) => Some((seq![text[0]] + value, rest)),
            None => None,
        }
    } else if text.len() > 1 && text[1] == '\'' {
        match read_literal(text.skip(2)) {
            Some((value, rest)) => Some((seq!['\''] + value, rest)),
            None => None,
        }
    } else {
        Some((seq![], text.skip(1)))
    }
}

proof fn lemma_escaped_first(value: Seq<char>)
    requires
        value.len() > 0,
    ensures
        escaped(value) == (if value[0] == '\'' {
            seq!['\'', '\'']
        } else {
            seq![value[0]]
        }) + escaped(value.skip(1)),
    decreases value.len(),
{
    let first = if value[0] == '\'' {
        seq!['\'', '\'']
    } else {
        seq![value[0]]
    };
    if value.len() == 1 {
        assert(value.drop_last() =~= seq![]);
        assert(value.skip(1) =~= seq![]);
        reveal_with_fuel(escaped, 2);
        assert(escaped(value) =~= first + escaped(value.skip(1)));
    } else {
        let fewer = value.drop_last();
        lemma_escaped_first(fewer);
        assert(value.skip(1).drop_last() =~= fewer.skip(1));
        assert(value.skip(1).last() == value.last());
        assert(escaped(value) =~= first + escaped(value.skip(1)));
    }
}

/// A value with its quotes doubled is read back from the literal that holds it, whatever stands
/// behind the literal: no value ends the literal early, and none runs on.
pub proof fn law_literal_read_back(value: Seq<char>, rest: Seq<char>)
    requires
        rest.len() > 0 ==> rest[0] != '\'',
    ensures
        read_literal(escaped(value) + "'"@ + rest) == Some((value, rest)),
    decreases value.len(),
{
    reveal_strlit("'");
    let text = escaped(value) + "'"@ + rest;
    if value.len() == 0 {
        assert(text =~= "'"@ + rest);
        assert(text.skip(1) =~= rest);
        assert(value =~= seq![]);
    } else {
        lemma_escaped_first(value);
        let more = escaped(value.skip(1)) + "'"@ + rest;
        law_literal_read_back(value.skip(1), rest);
        if value[0] == '\'' {
            assert(text[0] == '\'' && text[1] == '\'');
            assert(text.skip(2) =~= more);
            assert(seq!['\''] + value.skip(1) =~= value);
        } else {
            assert(text[0] == value[0]);
            assert(text.skip(1) =~= more);
            assert(seq![value[0]] + value.skip(1) =~= value);
        }
    }
}

/// A number is written in digits that stand for it, without leading zeros.
pub proof fn law_decimal(n: nat)
    ensures
        digits_value(decimal(n)) == n,
        decimal(n).len() > 0,
        forall|i: int| 0 <= i < decimal(n).len() ==> is_digit(#[trigger] decimal(n)[i]),
        decimal(n).len() > 1 ==> decimal(n)[0] != '0',
    decreases n,
{
    if n < 10 {
        let s = decimal(n);
        reveal_with_fuel(digits_value, 2);
        assert(s.drop_last() =~= seq![]);
        assert(s.last() == digit(n));
    } else {
        law_decimal(n / 10);
        let before = decimal(n / 10);
        let s = decimal(n);
        assert(s.drop_last() =~= before);
        assert(s.last() == digit(n % 10));
        assert(s[0] == before[0]);
        if before.len() == 1 {
            assert(before[0] != '0') by {
                reveal_with_fuel(digits_value, 2);
                assert(before.drop_last() =~= seq![]);
            }
        }
    }
}

/// Texts are joined part by part: one part is itself, and between two lists stands the
/// separator once.
pub proof fn law_joined(x: Seq<Seq<char>>, y: Seq<Seq<char>>, part: Seq<char>, separator: Seq<char>)
    ensures
        joined(seq![part], separator) == part,
        joined(seq![], separator).len() == 0,
        x.len() > 0 && y.len() > 0 ==> joined(x + y, separator) == joined(x, separator)
            + separator + joined(y, separator),
    decreases y.len(),
{
    if x.len() > 0 && y.len() > 0 {
        let both = x + y;
        assert(both.drop_last() =~= x + y.drop_last());
        assert(both.last() == y.last());
        if y.len() == 1 {
            assert(x + y.drop_last() =~= x);
            assert(joined(both, separator) =~= joined(x, separator) + separator + joined(
                y,
                separator,
            ));
        } else {
            law_joined(x, y.drop_last(), part, separator);
            assert(joined(both, separator) =~= joined(x, separator) + separator + joined(
                y,
                separator,
            ));
        }
    }
}

/// Texts are put together part by part, with nothing in between.
pub proof fn law_together(x: Seq<Seq<char>>, y: Seq<Seq<char>>, part: Seq<char>)
    ensures
        together(seq![part]) == part,
        together(seq![]).len() == 0,
        together(x + y) == together(x) + together(y),
    decreases y.len(),
{
    reveal_with_fuel(together, 2);
    assert(seq![part].drop_last() =~= seq![]);
    assert(together(seq![part]) =~= part);
    if y.len() == 0 {
        assert(x + y =~= x);
        assert(together(x) + together(y) =~= together(x));
    } else {
        assert((x + y).drop_last() =~= x + y.drop_last());
        law_together(x, y.drop_last(), part);
        assert(together(x + y) =~= together(x) + together(y));
    }
}

/// Whether a text is white space only.
pub open spec fn all_white(text: Seq<char>) -> bool {
    forall|i: int| 0 <= i < text.len() ==> is_white(#[trigger] text[i])
}

proof fn lemma_trimmed_start(text: Seq<char>) -> (before: Seq<char>)
    ensures
        all_white(before),
        text == before + trimmed_start(text),
        trimmed_start(text).len() > 0 ==> !is_white(trimmed_start(text)[0]),
    decreases text.len(),
{
    if text.len() > 0 && is_white(text[0]) {
        let more = lemma_trimmed_start(text.drop_first());
        let before = seq![text[0]] + more;
        assert(text =~= seq![text[0]] + text.drop_first());
        assert(text =~= before + trimmed_start(text));
        assert forall|i: int| 0 <= i < before.len() implies is_white(#[trigger] before[i]) by {
            if i > 0 {
                assert(before[i] == more[i - 1]);
            }
        }
        before
    } else {
        assert(text =~= seq![] + text);
        seq![]
    }
}

proof fn lemma_trimmed_end(text: Seq<char>) -> (behind: Seq<char>)
    ensures
        all_white(behind),
        text == trimmed_end(text) + behind,
        trimmed_end(text).len() > 0 ==> !is_white(trimmed_end(text).last()),
    decreases text.len(),
{
    if text.len() > 0 && is_white(text.last()) {
        let more = lemma_trimmed_end(text.drop_last());
        let behind = more.push(text.last());
        assert(text =~= text.drop_last().push(text.last()));
        assert(text =~= trimmed_end(text) + behind);
        assert forall|i: int| 0 <= i < behind.len() implies is_white(#[trigger] behind[i]) by {
            if i < more.len() {
                assert(behind[i] == more[i]);
            }
        }
        behind
    } else {
        assert(text =~= text + seq![]);
        seq![]
    }
}

/// A text without the white space at its ends: what is left out is white space, and what is
/// left neither starts nor ends with any.
pub proof fn law_trimmed(text: Seq<char>)
    ensures
        exists|before: Seq<char>, behind: Seq<char>|
            all_white(before) && all_white(behind) && text == #[trigger] (before + trimmed(text)
                + behind),
        trimmed(text).len() > 0 ==> !is_white(trimmed(text)[0]) && !is_white(trimmed(text).last()),
        trimmed(text).len() == 0 <==> all_white(text),
{
    let start = trimmed_start(text);
    let before = lemma_trimmed_start(text);
    let behind = lemma_trimmed_end(start);
    let middle = trimmed(text);
    assert(text =~= before + middle + behind);
    if middle.len() > 0 {
        assert(start[0] == middle[0]);
        assert(text[before.len() as int] == middle[0]);
    } else {
        assert forall|i: int| 0 <= i < text.len() implies is_white(#[trigger] text[i]) by {
            if i < before.len() {
                assert(text[i] == before[i]);
            } else {
                assert(text[i] == behind[i - before.len()]);
            }
        }
    }
}

proof fn lemma_lines(text: Seq<char>)
    ensures
        forall|k: int, i: int|
            0 <= k < lines_of(text).len() && 0 <= i < lines_of(text)[k].len() ==> (
            #[trigger] lines_of(text)[k][i]) != '\n',
        text.len() > 0 ==> lines_of(text).len() > 0,
        !text.contains('\r') && text.len() > 0 && text.last() != '\n' ==> joined(
            lines_of(text),
            "\n"@,
        ) == text,
        !text.contains('\r') && text.len() > 0 && text.last() == '\n' ==> joined(
            lines_of(text),
            "\n"@,
        ) + "\n"@ == text,
    decreases text.len(),
{
    reveal_strlit("\n");
    let end = first_of(text, '\n');
    lemma_first_of(text, '\n');
    if text.len() == 0 {
        assert(lines_of(text) =~= seq![]);
    } else if end < text.len() {
        let line = without_return(text.take(end));
        let rest = text.skip(end + 1);
        let all = lines_of(text);
        let more = lines_of(rest);
        assert(all == seq![line] + more);
        lemma_lines(rest);
        assert forall|k: int, i: int| 0 <= k < all.len() && 0 <= i < all[k].len() implies (
        #[trigger] all[k][i]) != '\n' by {
            if k > 0 {
                assert(all[k] == more[k - 1]);
                assert(more[k - 1][i] != '\n');
            } else {
                assert(line[i] == text[i]);
            }
        }
        if !text.contains('\r') {
            assert(line =~= text.take(end)) by {
                if end > 0 {
                    assert(text.contains(text[end - 1]));
                }
            }
            assert(!rest.contains('\r')) by {
                if rest.contains('\r') {
                    let p = choose|p: int| 0 <= p < rest.len() && rest[p] == '\r';
                    assert(text[end + 1 + p] == '\r');
                }
            }
            if rest.len() == 0 {
                assert(more =~= seq![]);
                assert(all =~= seq![line]);
                assert(joined(all, "\n"@) + "\n"@ =~= text);
                assert(text.last() == '\n');
            } else {
                law_joined(seq![line], more, line, "\n"@);
                assert(rest.last() == text.last());
                if text.last() == '\n' {
                    assert(joined(all, "\n"@) + "\n"@ =~= line + "\n"@ + (joined(more, "\n"@)
                        + "\n"@));
                    assert(text =~= line + "\n"@ + rest);
                } else {
                    assert(text =~= line + "\n"@ + rest);
                }
            }
        }
    } else {
        assert(lines_of(text) =~= seq![text]);
        assert(text.last() == text[text.len() - 1]);
    }
}

/// A text without carriage returns is its lines with line feeds between them, and one at the
/// end where it ends with one; no line holds a line feed.
pub proof fn law_lines(text: Seq<char>)
    ensures
        forall|k: int, i: int|
            0 <= k < lines_of(text).len() && 0 <= i < lines_of(text)[k].len() ==> (
            #[trigger] lines_of(text)[k][i]) != '\n',
        !text.contains('\r') && text.len() > 0 ==> text == joined(lines_of(text), "\n"@) + (
        if text.last() == '\n' {
            "\n"@
        } else {
            ""@
        }),
{
    reveal_strlit("");
    lemma_lines(text);
    let all = joined(lines_of(text), "\n"@);
    assert(all + ""@ =~= all);
}

/// Whether one list of bytes comes before another: at the first place where they differ its
/// byte is the smaller, or it is the start of the other.
pub open spec fn bytes_before(a: Seq<u8>, b: Seq<u8>) -> bool {
    ||| exists|n: int|
        0 <= n < a.len() && n < b.len() && (forall|i: int| 0 <= i < n ==> a[i] == b[i])
            && #[trigger] a[n] < b[n]
    ||| a.len() < b.len() && forall|i: int| 0 <= i < a.len() ==> a[i] == b[i]
}

proof fn lemma_run_less(a: Seq<int>, b: Seq<int>)
    ensures
        run_less(a, b) <==> (exists|n: int|
            0 <= n < a.len() && n < b.len() && (forall|i: int| 0 <= i < n ==> a[i] == b[i])
                && #[trigger] a[n] < b[n]) || (a.len() < b.len() && forall|i: int|
            0 <= i < a.len() ==> a[i] == b[i]),
    decreases a.len(),
{
    if a.len() > 0 && b.len() > 0 {
        let x = a.skip(1);
        let y = b.skip(1);
        if a[0] == b[0] {
            lemma_run_less(x, y);
            assert forall|i: int| 0 <= i < x.len() implies x[i] == a[i + 1] by {}
            assert forall|i: int| 0 <= i < y.len() implies y[i] == b[i + 1] by {}
            if exists|n: int|
                0 <= n < x.len() && n < y.len() && (forall|i: int| 0 <= i < n ==> x[i] == y[i])
                    && #[trigger] x[n] < y[n] {
                let n = choose|n: int|
                    0 <= n < x.len() && n < y.len() && (forall|i: int|
                        0 <= i < n ==> x[i] == y[i]) && #[trigger] x[n] < y[n];
                assert(a[n + 1] < b[n + 1]);
                assert forall|i: int| 0 <= i < n + 1 implies a[i] == b[i] by {
                    if i > 0 {
                        assert(x[i - 1] == y[i - 1]);
                    }
                }
            }
            if exists|n: int|
                0 <= n < a.len() && n < b.len() && (forall|i: int| 0 <= i < n ==> a[i] == b[i])
                    && #[trigger] a[n] < b[n] {
                let n = choose|n: int|
                    0 <= n < a.len() && n < b.len() && (forall|i: int|
                        0 <= i < n ==> a[i] == b[i]) && #[trigger] a[n] < b[n];
                assert(x[n - 1] < y[n - 1]);
                assert forall|i: int| 0 <= i < n - 1 implies x[i] == y[i] by {
                    assert(a[i + 1] == b[i + 1]);
                }
            }
            if x.len() < y.len() && forall|i: int| 0 <= i < x.len() ==> x[i] == y[i] {
                assert forall|i: int| 0 <= i < a.len() implies a[i] == b[i] by {
                    if i > 0 {
                        assert(x[i - 1] == y[i - 1]);
                    }
                }
            }
            if a.len() < b.len() && forall|i: int| 0 <= i < a.len() ==> a[i] == b[i] {
                assert forall|i: int| 0 <= i < x.len() implies x[i] == y[i] by {
                    assert(a[i + 1] == b[i + 1]);
                }
            }
        }
    }
}

/// Texts are ordered by their bytes.
pub proof fn law_text_order(a: Seq<char>, b: Seq<char>)
    ensures
        text_less(a, b) <==> bytes_before(encode_utf8(a), encode_utf8(b)),
{
    let x = text_run(a);
    let y = text_run(b);
    let p = encode_utf8(a);
    let q = encode_utf8(b);
    lemma_run_less(x, y);
    assert forall|i: int| 0 <= i < x.len() implies x[i] == p[i] as int by {}
    assert forall|i: int| 0 <= i < y.len() implies y[i] == q[i] as int by {}
    if text_less(a, b) {
        if exists|n: int|
            0 <= n < x.len() && n < y.len() && (forall|i: int| 0 <= i < n ==> x[i] == y[i])
                && #[trigger] x[n] < y[n] {
            let n = choose|n: int|
                0 <= n < x.len() && n < y.len() && (forall|i: int| 0 <= i < n ==> x[i] == y[i])
                    && #[trigger] x[n] < y[n];
            assert(p[n] < q[n]);
            assert forall|i: int| 0 <= i < n implies p[i] == q[i] by {
                assert(x[i] == y[i]);
            }
        } else {
            assert forall|i: int| 0 <= i < p.len() implies p[i] == q[i] by {
                assert(x[i] == y[i]);
            }
        }
    }
    if bytes_before(p, q) {
        if exists|n: int|
            0 <= n < p.len() && n < q.len() && (forall|i: int| 0 <= i < n ==> p[i] == q[i])
                && #[trigger] p[n] < q[n] {
            let n = choose|n: int|
                0 <= n < p.len() && n < q.len() && (forall|i: int| 0 <= i < n ==> p[i] == q[i])
                    && #[trigger] p[n] < q[n];
            assert(x[n] < y[n]);
        }
    }
}

/// The letters and numbers of a text, in their order.
pub open spec fn word_characters(text: Seq<char>) -> Seq<char> {
    text.filter(|c: char| is_word_character(c))
}

proof fn lemma_filter_two(x: Seq<char>, y: Seq<char>)
    ensures
        word_characters(x + y) == word_characters(x) + word_characters(y),
    decreases y.len(),
{
    reveal(Seq::filter);
    if y.len() == 0 {
        assert(x + y =~= x);
        assert(word_characters(x) + word_characters(y) =~= word_characters(x));
    } else {
        assert((x + y).drop_last() =~= x + y.drop_last());
        lemma_filter_two(x, y.drop_last());
        assert(word_characters(x + y) =~= word_characters(x) + word_characters(y));
    }
}

proof fn lemma_no_word(text: Seq<char>)
    requires
        forall|i: int| 0 <= i < text.len() ==> !is_word_character(#[trigger] text[i]),
    ensures
        word_characters(text) == Seq::<char>::empty(),
    decreases text.len(),
{
    reveal(Seq::filter);
    if text.len() > 0 {
        lemma_no_word(text.drop_last());
        assert(!is_word_character(text[text.len() - 1]));
    }
}

proof fn lemma_piece(text: Seq<char>)
    ensures
        0 <= piece_end(text) <= text.len(),
        forall|i: int| 0 <= i < piece_end(text) ==> !separates(#[trigger] text[i]),
        piece_end(text) == 0 && text.len() > 0 ==> separates(text[0]),
    decreases text.len(),
{
    if text.len() > 0 && !separates(text[0]) {
        let rest = text.skip(1);
        lemma_piece(rest);
        assert forall|i: int| 0 <= i < piece_end(text) implies !separates(#[trigger] text[i]) by {
            if i > 0 {
                assert(rest[i - 1] == text[i]);
            }
        }
    }
}

/// Whether no character of a text is other than a letter, a number or a space.
spec fn plain(text: Seq<char>) -> bool {
    forall|i: int| 0 <= i < text.len() ==> is_word_character(#[trigger] text[i]) || text[i] == ' '
}

proof fn lemma_words(text: Seq<char>)
    requires
        !is_word_character(' '),
    ensures
        word_characters(joined(search_words(text), " "@)) == word_characters(text),
        plain(joined(search_words(text), " "@)),
    decreases text.len(),
{
    reveal_strlit(" ");
    let end = piece_end(text);
    lemma_piece(text);
    let words = search_words(text);
    if text.len() == 0 {
        assert(joined(words, " "@) =~= text);
    } else if 0 < end {
        let word = text.take(end);
        let rest = search_words(text.skip(end));
        assert(words == seq![word] + rest);
        lemma_words(text.skip(end));
        lemma_filter_two(word, text.skip(end));
        assert(text =~= word + text.skip(end));
        assert(plain(word)) by {
            assert forall|i: int| 0 <= i < word.len() implies is_word_character(
                #[trigger] word[i],
            ) || word[i] == ' ' by {
                assert(!separates(text[i]));
            }
        }
        if rest.len() == 0 {
            assert(words =~= seq![word]);
            let none: Seq<char> = seq![];
            assert(joined(rest, " "@) =~= none);
            reveal(Seq::filter);
            assert(word_characters(none) =~= none);
            assert(word_characters(word) + none =~= word_characters(word));
        } else {
            law_joined(seq![word], rest, word, " "@);
            let more = joined(rest, " "@);
            lemma_filter_two(word + " "@, more);
            lemma_filter_two(word, " "@);
            lemma_no_word(" "@);
            assert(word_characters(word) + Seq::<char>::empty() =~= word_characters(word));
            let all = joined(words, " "@);
            assert(all == word + " "@ + more);
            assert forall|i: int| 0 <= i < all.len() implies is_word_character(#[trigger] all[i])
                || all[i] == ' ' by {
                if i < word.len() {
                    assert(all[i] == word[i]);
                } else if i > word.len() {
                    assert(all[i] == more[i - word.len() - 1]);
                }
            }
        }
    } else {
        lemma_words(text.skip(1));
        assert(text =~= seq![text[0]] + text.skip(1));
        lemma_filter_two(seq![text[0]], text.skip(1));
        lemma_no_word(seq![text[0]]);
        assert(Seq::<char>::empty() + word_characters(text.skip(1)) =~= word_characters(
            text.skip(1),
        ));
    }
}

/// What full-text search is given of a pattern holds the letters and numbers of the pattern,
/// all of them and in their order, and besides them only spaces.
pub proof fn law_search_words(pattern: Seq<char>)
    requires
        !is_word_character(' '),
    ensures
        word_characters(full_text_words(pattern)) == word_characters(pattern),
        forall|i: int|
            0 <= i < full_text_words(pattern).len() ==> is_word_character(
                #[trigger] full_text_words(pattern)[i],
            ) || full_text_words(pattern)[i] == ' ',
{
    lemma_words(pattern);
}

proof fn lemma_first_piece(start: Seq<char>, rest: Seq<char>)
    requires
        forall|i: int| 0 <= i < start.len() ==> !separates(#[trigger] start[i]),
        rest.len() == 0 || separates(rest[0]),
    ensures
        piece_end(start + rest) == start.len(),
    decreases start.len(),
{
    let text = start + rest;
    if start.len() == 0 {
        assert(text =~= rest);
    } else {
        assert(!separates(start[0]));
        assert(text[0] == start[0]);
        let fewer = start.skip(1);
        assert(text.skip(1) =~= fewer + rest);
        assert forall|i: int| 0 <= i < fewer.len() implies !separates(#[trigger] fewer[i]) by {
            assert(fewer[i] == start[i + 1]);
        }
        lemma_first_piece(fewer, rest);
    }
}

/// Words that something other than a letter, a number or a space stands between stay apart:
/// full-text search is given them with a space in between. A text of letters, numbers and
/// spaces it is given as it is.
pub proof fn law_words_stay_apart(start: Seq<char>, c: char, rest: Seq<char>)
    requires
        start.len() > 0,
        forall|i: int|
            0 <= i < start.len() ==> is_word_character(#[trigger] start[i]) || start[i] == ' ',
        !is_word_character(c),
        c != ' ',
    ensures
        full_text_words(start) == start,
        full_text_words(rest).len() > 0 ==> full_text_words(start + seq![c] + rest) == start + " "@
            + full_text_words(rest),
{
    let text = start + seq![c] + rest;
    let behind = seq![c] + rest;
    let none: Seq<char> = seq![];
    assert forall|i: int| 0 <= i < start.len() implies !separates(#[trigger] start[i]) by {}
    lemma_first_piece(start, none);
    assert(start + none =~= start);
    assert(start.take(start.len() as int) =~= start);
    assert(start.skip(start.len() as int) =~= none);
    assert(search_words(none) =~= seq![]);
    assert(search_words(start) =~= seq![start]);
    lemma_first_piece(start, behind);
    assert(text =~= start + behind);
    assert(text.take(start.len() as int) =~= start);
    assert(text.skip(start.len() as int) =~= behind);
    assert(piece_end(behind) == 0);
    assert(behind.skip(1) =~= rest);
    assert(search_words(behind) == search_words(rest));
    assert(search_words(text) == seq![start] + search_words(rest));
    if full_text_words(rest).len() > 0 {
        law_joined(seq![start], search_words(rest), start, " "@);
    }
}

/// Lists one after the other: what stands in the first, then what stands in those behind it.
pub proof fn law_one_after_the_other<T>(parts: Seq<Seq<T>>, part: Seq<T>)
    ensures
        concatenated(Seq::<Seq<T>>::empty()).len() == 0,
        concatenated(parts.push(part)) == concatenated(parts) + part,
        concatenated(seq![part] + parts) == part + concatenated(parts),
{
    assert(parts.push(part).drop_last() =~= parts);
    crate::lists::lemma_concatenated_two(seq![part], parts);
    reveal_with_fuel(concatenated, 2);
    assert(seq![part].drop_last() =~= seq![]);
    assert(concatenated(seq![part]) =~= part);
}

} // verus!
