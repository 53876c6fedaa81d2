//! The order of dates that stand beside each other.
//!
//! Dates are ordered by the moments they stand for. A text that is no date stands for no
//! moment: among the dates beside it, it is placed by its text.

use vstd::prelude::*;

use crate::order::{
    key_less, lemma_run_less_total, lemma_run_less_transitive, lemma_text_run_injective, run_less,
    text_less, text_run, text_side, Keyed, Side,
};
use crate::pattern::{earlier, is_earlier, rfc2822_moment};

verus! {

/// Whether a text is a date.
pub open spec fn is_date(text: Seq<char>) -> bool {
    rfc2822_moment(text) is Some
}

/// Whether one date comes before another: by the moments they stand for, and within one
/// moment by the text.
pub open spec fn date_before(a: Seq<char>, b: Seq<char>) -> bool {
    match (rfc2822_moment(a), rfc2822_moment(b)) {
        (Some(x), Some(y)) => earlier(x, y) || (x == y && text_less(a, b)),
        _ => false,
    }
}

/// Whether a text that is no date stands before the date `date`: its text comes before
/// that of this date, or of an earlier one of `beside`.
pub open spec fn text_before(text: Seq<char>, date: Seq<char>, beside: Set<Seq<char>>) -> bool {
    exists|d: Seq<char>| #[trigger] comes_after(d, text, beside) && !date_before(date, d)
}

/// Whether one text goes before another among those that stand `beside` each other: dates
/// by their moments, other texts by the text, and a text that is no date among the dates
/// by its text as far as the order of the dates admits.
pub open spec fn goes_before(a: Seq<char>, b: Seq<char>, beside: Set<Seq<char>>) -> bool {
    if is_date(a) && is_date(b) {
        date_before(a, b)
    } else if is_date(b) {
        text_before(a, b, beside)
    } else if is_date(a) {
        !text_before(b, a, beside)
    } else {
        text_less(a, b)
    }
}

/// Whether `date` is a date of `beside` whose text comes after `text`.
pub open spec fn comes_after(date: Seq<char>, text: Seq<char>, beside: Set<Seq<char>>) -> bool {
    beside.contains(date) && is_date(date) && text_less(text, date)
}

/// Whether `date` is the first of the dates of `beside` whose text comes after `text`.
pub open spec fn is_anchor(date: Seq<char>, text: Seq<char>, beside: Set<Seq<char>>) -> bool {
    &&& comes_after(date, text, beside)
    &&& forall|d: Seq<char>| #[trigger] comes_after(d, text, beside) ==> !date_before(d, date)
}

/// The first of the dates of `beside` whose text comes after `text`, if any does.
pub open spec fn anchor(text: Seq<char>, beside: Set<Seq<char>>) -> Option<Seq<char>> {
    if exists|d: Seq<char>| is_anchor(d, text, beside) {
        Some(choose|d: Seq<char>| is_anchor(d, text, beside))
    } else {
        None
    }
}

/// The run that orders a moment that may be absent; absence comes last.
pub open spec fn moment_run(moment: Option<(i64, u32)>) -> Seq<int> {
    match moment {
        Some(m) => seq![0, m.0 as int, m.1 as int],
        None => seq![1],
    }
}

/// The key of four parts that places a text: the moment and the text of a date, whether
/// the text is that date or stands before it, and the text itself.
pub open spec fn placed_key(
    moment: Option<(i64, u32)>,
    date: Seq<char>,
    own: bool,
    text: Seq<char>,
) -> Seq<Seq<int>> {
    seq![
        moment_run(moment),
        text_run(date),
        seq![if own {
            1int
        } else {
            0int
        }],
        text_run(text),
    ]
}

/// The key that orders a text among those that stand `beside` it. A date has its place by
/// its moment; another text stands directly before the first date whose text comes after.
pub open spec fn date_key(text: Seq<char>, beside: Set<Seq<char>>) -> Seq<Seq<int>> {
    match rfc2822_moment(text) {
        Some(moment) => placed_key(Some(moment), text, true, text),
        None => match anchor(text, beside) {
            Some(date) => placed_key(rfc2822_moment(date), date, false, text),
            None => placed_key(None, seq![], false, text),
        },
    }
}

/// Of two different dates exactly one comes before the other.
pub proof fn lemma_date_total(a: Seq<char>, b: Seq<char>)
    requires
        is_date(a),
        is_date(b),
    ensures
        a == b ==> !date_before(a, b),
        a != b ==> date_before(a, b) != date_before(b, a),
{
    lemma_run_less_total(text_run(a), text_run(b));
    if text_run(a) == text_run(b) {
        lemma_text_run_injective(a, b);
    }
}

/// The order of dates is transitive.
pub proof fn lemma_date_transitive(a: Seq<char>, b: Seq<char>, c: Seq<char>)
    requires
        date_before(a, b),
        date_before(b, c),
    ensures
        date_before(a, c),
{
    if text_less(a, b) && text_less(b, c) {
        lemma_run_less_transitive(text_run(a), text_run(b), text_run(c));
    }
}

/// Of finitely many dates one is the first.
proof fn lemma_first_date(dates: Set<Seq<char>>) -> (first: Seq<char>)
    requires
        dates.finite(),
        dates.len() > 0,
        forall|d: Seq<char>| #[trigger] dates.contains(d) ==> is_date(d),
    ensures
        dates.contains(first),
        forall|d: Seq<char>| #[trigger] dates.contains(d) ==> !date_before(d, first),
    decreases dates.len(),
{
    let some = dates.choose();
    let rest = dates.remove(some);
    lemma_date_total(some, some);
    if rest.len() == 0 {
        assert forall|d: Seq<char>| #[trigger] dates.contains(d) implies !date_before(d, some) by {
            if d != some {
                assert(rest.contains(d));
                assert(rest =~= Set::empty()) by {
                    rest.lemma_len0_is_empty();
                }
            }
        }
        some
    } else {
        let first = lemma_first_date(rest);
        lemma_date_total(some, first);
        if date_before(some, first) {
            assert forall|d: Seq<char>| #[trigger] dates.contains(d) implies !date_before(
                d,
                some,
            ) by {
                if d != some {
                    assert(rest.contains(d));
                    if date_before(d, some) {
                        lemma_date_transitive(d, some, first);
                    }
                }
            }
            some
        } else {
            assert forall|d: Seq<char>| #[trigger] dates.contains(d) implies !date_before(
                d,
                first,
            ) by {
                if d != some {
                    assert(rest.contains(d));
                }
            }
            first
        }
    }
}

/// There is one anchor only.
pub proof fn lemma_anchor_unique(date: Seq<char>, text: Seq<char>, beside: Set<Seq<char>>)
    requires
        is_anchor(date, text, beside),
    ensures
        anchor(text, beside) == Some(date),
{
    let other = choose|d: Seq<char>| is_anchor(d, text, beside);
    assert(is_anchor(other, text, beside));
    lemma_date_total(date, other);
    assert(comes_after(date, text, beside) && comes_after(other, text, beside));
}

/// Where the text of some date comes after, there is an anchor.
pub proof fn lemma_anchor_exists(text: Seq<char>, beside: Set<Seq<char>>, some: Seq<char>)
    requires
        beside.finite(),
        comes_after(some, text, beside),
    ensures
        anchor(text, beside) is Some,
        is_anchor(anchor(text, beside)->0, text, beside),
{
    let dates = beside.filter(|d: Seq<char>| comes_after(d, text, beside));
    assert(dates.contains(some));
    assert(dates.len() > 0) by {
        if dates.len() == 0 {
            dates.lemma_len0_is_empty();
        }
    }
    let first = lemma_first_date(dates);
    assert forall|d: Seq<char>| #[trigger] comes_after(d, text, beside) implies !date_before(
        d,
        first,
    ) by {
        assert(dates.contains(d));
    }
    assert(is_anchor(first, text, beside));
}

/// Runs of moments are ordered as the moments are.
proof fn lemma_moment_run(a: Option<(i64, u32)>, b: Option<(i64, u32)>)
    ensures
        run_less(moment_run(a), moment_run(b)) == (match (a, b) {
            (Some(x), Some(y)) => earlier(x, y),
            (Some(_), None) => true,
            _ => false,
        }),
        (moment_run(a) == moment_run(b)) == (a == b),
{
    reveal_with_fuel(run_less, 4);
    let x = moment_run(a);
    let y = moment_run(b);
    match (a, b) {
        (Some(m), Some(n)) => {
            assert(x[0] == 0 && x[1] == m.0 && x[2] == m.1);
            assert(y[0] == 0 && y[1] == n.0 && y[2] == n.1);
            assert(x.skip(1)[0] == m.0 && y.skip(1)[0] == n.0);
            assert(x.skip(1).skip(1)[0] == m.1 && y.skip(1).skip(1)[0] == n.1);
        },
        (Some(m), None) => {
            assert(x[0] == 0 && y[0] == 1);
        },
        (None, Some(n)) => {
            assert(x[0] == 1 && y[0] == 0);
        },
        (None, None) => {
            assert(x[0] == 1 && y[0] == 1);
        },
    }
}

proof fn lemma_flag_run(a: int, b: int)
    ensures
        run_less(seq![a], seq![b]) == (a < b),
        (seq![a] == seq![b]) == (a == b),
{
    reveal_with_fuel(run_less, 2);
    assert(seq![a][0] == a && seq![b][0] == b);
}

proof fn lemma_four_parts(x: Seq<Seq<int>>, y: Seq<Seq<int>>)
    requires
        x.len() == 4,
        y.len() == 4,
    ensures
        key_less(x, y) == (if x[0] != y[0] {
            run_less(x[0], y[0])
        } else if x[1] != y[1] {
            run_less(x[1], y[1])
        } else if x[2] != y[2] {
            run_less(x[2], y[2])
        } else {
            run_less(x[3], y[3])
        }),
        (x == y) == (x[0] == y[0] && x[1] == y[1] && x[2] == y[2] && x[3] == y[3]),
{
    reveal_with_fuel(key_less, 5);
    assert(x.skip(1)[0] == x[1] && y.skip(1)[0] == y[1]);
    assert(x.skip(1).skip(1)[0] == x[2] && y.skip(1).skip(1)[0] == y[2]);
    assert(x.skip(1).skip(1).skip(1)[0] == x[3] && y.skip(1).skip(1).skip(1)[0] == y[3]);
    lemma_run_less_total(x[3], y[3]);
    if x[0] == y[0] && x[1] == y[1] && x[2] == y[2] && x[3] == y[3] {
        assert(x =~= y);
    }
}

/// How placed texts are ordered by their keys.
proof fn lemma_placed(
    a: (Option<(i64, u32)>, Seq<char>, bool, Seq<char>),
    b: (Option<(i64, u32)>, Seq<char>, bool, Seq<char>),
)
    ensures
        key_less(placed_key(a.0, a.1, a.2, a.3), placed_key(b.0, b.1, b.2, b.3)) == (if a.0
            != b.0 {
            match (a.0, b.0) {
                (Some(x), Some(y)) => earlier(x, y),
                (Some(_), None) => true,
                _ => false,
            }
        } else if a.1 != b.1 {
            text_less(a.1, b.1)
        } else if a.2 != b.2 {
            b.2
        } else {
            text_less(a.3, b.3)
        }),
        placed_key(a.0, a.1, a.2, a.3) == placed_key(b.0, b.1, b.2, b.3) <==> a == b,
{
    let x = placed_key(a.0, a.1, a.2, a.3);
    let y = placed_key(b.0, b.1, b.2, b.3);
    lemma_four_parts(x, y);
    lemma_moment_run(a.0, b.0);
    if text_run(a.1) == text_run(b.1) {
        lemma_text_run_injective(a.1, b.1);
    }
    if text_run(a.3) == text_run(b.3) {
        lemma_text_run_injective(a.3, b.3);
    }
    let p = if a.2 {
        1int
    } else {
        0int
    };
    let q = if b.2 {
        1int
    } else {
        0int
    };
    lemma_flag_run(p, q);
    assert(x[2] == seq![p] && y[2] == seq![q]);
}

/// Where a text comes before another, its anchor is no later.
proof fn lemma_anchors_ascend(x: Seq<char>, y: Seq<char>, beside: Set<Seq<char>>)
    requires
        beside.finite(),
        text_less(x, y),
    ensures
        anchor(y, beside) matches Some(d) ==> is_date(d) && anchor(x, beside) is Some && is_date(
            anchor(x, beside)->0,
        ) && !date_before(d, anchor(x, beside)->0),
{
    if let Some(d) = anchor(y, beside) {
        assert(is_anchor(d, y, beside));
        lemma_run_less_transitive(text_run(x), text_run(y), text_run(d));
        assert(comes_after(d, x, beside));
        lemma_anchor_exists(x, beside, d);
    }
}

proof fn lemma_texts_placed(x: Seq<char>, y: Seq<char>, beside: Set<Seq<char>>)
    requires
        beside.finite(),
        !is_date(x),
        !is_date(y),
        text_less(x, y),
    ensures
        key_less(date_key(x, beside), date_key(y, beside)),
{
    lemma_anchors_ascend(x, y, beside);
    let a = match anchor(x, beside) {
        Some(d) => (rfc2822_moment(d), d, false, x),
        None => (None, seq![], false, x),
    };
    let b = match anchor(y, beside) {
        Some(d) => (rfc2822_moment(d), d, false, y),
        None => (None, seq![], false, y),
    };
    lemma_placed(a, b);
    if let Some(d) = anchor(x, beside) {
        assert(is_anchor(d, x, beside));
        if let Some(e) = anchor(y, beside) {
            lemma_date_total(d, e);
        }
    }
}

proof fn lemma_text_and_date(x: Seq<char>, d: Seq<char>, beside: Set<Seq<char>>)
    requires
        beside.finite(),
        !is_date(x),
        is_date(d),
    ensures
        key_less(date_key(x, beside), date_key(d, beside)) == text_before(x, d, beside),
        key_less(date_key(d, beside), date_key(x, beside)) == !text_before(x, d, beside),
{
    let b = (rfc2822_moment(d), d, true, d);
    match anchor(x, beside) {
        Some(e) => {
            assert(is_anchor(e, x, beside));
            let a = (rfc2822_moment(e), e, false, x);
            lemma_placed(a, b);
            lemma_placed(b, a);
            lemma_date_total(d, e);
            lemma_run_less_total(text_run(d), text_run(e));
            if text_before(x, d, beside) {
                let f = choose|f: Seq<char>| #[trigger]
                    comes_after(f, x, beside) && !date_before(d, f);
                if date_before(d, e) {
                    lemma_date_total(e, f);
                    if e != f {
                        lemma_date_transitive(d, e, f);
                    }
                }
            } else {
                assert(comes_after(e, x, beside));
            }
        },
        None => {
            let a = (None, Seq::<char>::empty(), false, x);
            lemma_placed(a, b);
            lemma_placed(b, a);
            if text_before(x, d, beside) {
                let f = choose|f: Seq<char>| #[trigger]
                    comes_after(f, x, beside) && !date_before(d, f);
                lemma_anchor_exists(x, beside, f);
            }
        },
    }
}

/// Keys are ordered as the texts go, and no two texts have one key.
pub proof fn lemma_date_key(a: Seq<char>, b: Seq<char>, beside: Set<Seq<char>>)
    requires
        beside.finite(),
    ensures
        a != b ==> key_less(date_key(a, beside), date_key(b, beside)) == goes_before(a, b, beside),
        (date_key(a, beside) == date_key(b, beside)) == (a == b),
{
    let x = date_key(a, beside);
    let y = date_key(b, beside);
    assert(x[3] == text_run(a) && y[3] == text_run(b));
    if text_run(a) == text_run(b) {
        lemma_text_run_injective(a, b);
    }
    if a != b {
        if is_date(a) && is_date(b) {
            lemma_placed((rfc2822_moment(a), a, true, a), (rfc2822_moment(b), b, true, b));
        } else if is_date(b) {
            lemma_text_and_date(a, b, beside);
        } else if is_date(a) {
            lemma_text_and_date(b, a, beside);
        } else {
            lemma_run_less_total(text_run(a), text_run(b));
            if text_less(a, b) {
                lemma_texts_placed(a, b, beside);
            } else {
                lemma_texts_placed(b, a, beside);
                crate::order::lemma_key_less_total(x, y);
            }
        }
    }
}

/// A text that is no date and a date beside it go by their texts wherever the order of the
/// dates admits it: where no date whose text comes after is followed by one whose text
/// does not.
pub proof fn law_texts_decide(text: Seq<char>, date: Seq<char>, beside: Set<Seq<char>>)
    requires
        !is_date(text),
        is_date(date),
        beside.contains(date),
        forall|d: Seq<char>, e: Seq<char>| #[trigger]
            beside.contains(d) && #[trigger] beside.contains(e) && date_before(d, e) && text_less(
                text,
                d,
            ) ==> text_less(text, e),
    ensures
        goes_before(text, date, beside) == text_less(text, date),
        goes_before(date, text, beside) == text_less(date, text),
{
    lemma_run_less_total(text_run(text), text_run(date));
    if text_run(text) == text_run(date) {
        lemma_text_run_injective(text, date);
    }
    lemma_date_total(date, date);
    if text_less(text, date) {
        assert(comes_after(date, text, beside));
    }
    if text_before(text, date, beside) {
        let d = choose|d: Seq<char>| #[trigger]
            comes_after(d, text, beside) && !date_before(date, d);
        lemma_date_total(d, date);
        assert(beside.contains(d) && beside.contains(date));
    }
}

/// A text with its place: the date before which it stands, or which it is.
pub struct DateKey<'a> {
    pub date: Option<((i64, u32), &'a str)>,
    pub own: bool,
    pub text: &'a str,
}

impl<'a> DateKey<'a> {
    /// The parts of the key.
    pub open spec fn parts(&self) -> (Option<(i64, u32)>, Seq<char>, bool, Seq<char>) {
        match self.date {
            Some(date) => (Some(date.0), date.1@, self.own, self.text@),
            None => (None, seq![], self.own, self.text@),
        }
    }
}

impl<'a> Keyed for DateKey<'a> {
    open spec fn key(&self) -> Seq<Seq<int>> {
        let parts = self.parts();
        placed_key(parts.0, parts.1, parts.2, parts.3)
    }

    fn side_of(&self, other: &Self) -> (side: Side) {
        proof {
            lemma_placed(self.parts(), other.parts());
            lemma_run_less_total(text_run(self.parts().1), text_run(other.parts().1));
        }
        match (self.date, other.date) {
            (Some(a), Some(b)) => {
                if is_earlier(a.0, b.0) {
                    return Side::Before;
                }
                if is_earlier(b.0, a.0) {
                    return Side::After;
                }
                match text_side(a.1, b.1) {
                    Side::Before => {
                        return Side::Before;
                    },
                    Side::After => {
                        return Side::After;
                    },
                    Side::Same => {},
                }
            },
            (Some(_), None) => {
                return Side::Before;
            },
            (None, Some(_)) => {
                return Side::After;
            },
            (None, None) => {},
        }
        if self.own != other.own {
            return if other.own {
                Side::Before
            } else {
                Side::After
            };
        }
        text_side(self.text, other.text)
    }
}

} // verus!
