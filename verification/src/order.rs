//! Order: texts by their bytes, keys of several parts, and the arrangement of a
//! list by its keys that leaves equal keys where they were.

use vstd::prelude::*;
use vstd::string::*;
use vstd::utf8::*;

use crate::text::lemma_same_bytes;

verus! {

/// Where one key stands with regard to another.
#[derive(Clone, Copy, PartialEq, Eq, Structural, Debug)]
pub enum Side {
    Before,
    Same,
    After,
}

/// Whether one run of numbers comes before another: the first place where they
/// differ decides, and a run comes before its continuations.
pub open spec fn run_less(a: Seq<int>, b: Seq<int>) -> bool
    decreases a.len(),
{
    if b.len() == 0 {
        false
    } else if a.len() == 0 {
        true
    } else if a[0] != b[0] {
        a[0] < b[0]
    } else {
        run_less(a.skip(1), b.skip(1))
    }
}

/// Whether one key comes before another: the first part that differs decides.
pub open spec fn key_less(a: Seq<Seq<int>>, b: Seq<Seq<int>>) -> bool
    decreases a.len(),
{
    if b.len() == 0 {
        false
    } else if a.len() == 0 {
        true
    } else if a[0] != b[0] {
        run_less(a[0], b[0])
    } else {
        key_less(a.skip(1), b.skip(1))
    }
}

/// Where the key `a` stands with regard to the key `b`.
pub open spec fn key_side(a: Seq<Seq<int>>, b: Seq<Seq<int>>) -> Side {
    if key_less(a, b) {
        Side::Before
    } else if a == b {
        Side::Same
    } else {
        Side::After
    }
}

/// The bytes of a text, as the run that orders it.
pub open spec fn text_run(s: Seq<char>) -> Seq<int> {
    encode_utf8(s).map_values(|b: u8| b as int)
}

/// Whether one text comes before another in the order of their bytes.
pub open spec fn text_less(a: Seq<char>, b: Seq<char>) -> bool {
    run_less(text_run(a), text_run(b))
}

/// Exactly one of two different runs comes before the other.
pub proof fn lemma_run_less_total(a: Seq<int>, b: Seq<int>)
    ensures
        a == b ==> !run_less(a, b),
        a != b ==> run_less(a, b) != run_less(b, a),
    decreases a.len(),
{
    if a.len() > 0 && b.len() > 0 && a[0] == b[0] {
        lemma_run_less_total(a.skip(1), b.skip(1));
        if a != b {
            if a.skip(1) == b.skip(1) {
                assert(a =~= seq![a[0]] + a.skip(1));
                assert(b =~= seq![b[0]] + b.skip(1));
            }
        }
    } else if a.len() == 0 && b.len() == 0 {
        assert(a =~= b);
    }
}

/// The order of runs is transitive.
pub proof fn lemma_run_less_transitive(a: Seq<int>, b: Seq<int>, c: Seq<int>)
    requires
        run_less(a, b),
        run_less(b, c),
    ensures
        run_less(a, c),
    decreases a.len(),
{
    if a.len() > 0 && b.len() > 0 && c.len() > 0 && a[0] == b[0] && b[0] == c[0] {
        lemma_run_less_transitive(a.skip(1), b.skip(1), c.skip(1));
    }
}

/// Exactly one of two different keys comes before the other.
pub proof fn lemma_key_less_total(a: Seq<Seq<int>>, b: Seq<Seq<int>>)
    ensures
        a == b ==> !key_less(a, b),
        a != b ==> key_less(a, b) != key_less(b, a),
    decreases a.len(),
{
    if a.len() > 0 && b.len() > 0 {
        lemma_run_less_total(a[0], b[0]);
        if a[0] == b[0] {
            lemma_key_less_total(a.skip(1), b.skip(1));
            if a != b && a.skip(1) == b.skip(1) {
                assert(a =~= seq![a[0]] + a.skip(1));
                assert(b =~= seq![b[0]] + b.skip(1));
            }
        }
    } else if a.len() == 0 && b.len() == 0 {
        assert(a =~= b);
    }
}

/// The order of keys is transitive.
pub proof fn lemma_key_less_transitive(a: Seq<Seq<int>>, b: Seq<Seq<int>>, c: Seq<Seq<int>>)
    requires
        key_less(a, b),
        key_less(b, c),
    ensures
        key_less(a, c),
    decreases a.len(),
{
    if a.len() > 0 && b.len() > 0 && c.len() > 0 {
        if a[0] == b[0] && b[0] == c[0] {
            lemma_key_less_transitive(a.skip(1), b.skip(1), c.skip(1));
        } else if a[0] != b[0] && b[0] != c[0] {
            lemma_run_less_transitive(a[0], b[0], c[0]);
            lemma_run_less_total(a[0], c[0]);
        }
    }
}

/// Two texts with the same run are the same.
pub proof fn lemma_text_run_injective(a: Seq<char>, b: Seq<char>)
    requires
        text_run(a) == text_run(b),
    ensures
        a == b,
{
    let x = encode_utf8(a);
    let y = encode_utf8(b);
    assert(x.len() == text_run(a).len());
    assert forall|i: int| 0 <= i < x.len() implies x[i] == y[i] by {
        assert(text_run(a)[i] == x[i] as int);
        assert(text_run(b)[i] == y[i] as int);
    }
    assert(x =~= y);
    lemma_same_bytes(a, b);
}

/// Whether the item at `i` is placed before the item at `j`: by its key, and
/// between equal keys by its place in the list.
pub open spec fn precedes(keys: Seq<Seq<Seq<int>>>, i: int, j: int) -> bool {
    key_less(keys[i], keys[j]) || (keys[i] == keys[j] && i < j)
}

/// Whether `order` names each of the places from `low` up to `high` once, each
/// before those that it precedes.
pub open spec fn arranges(
    keys: Seq<Seq<Seq<int>>>,
    low: int,
    high: int,
    order: Seq<int>,
) -> bool {
    &&& order.len() == high - low
    &&& forall|a: int| 0 <= a < order.len() ==> low <= #[trigger] order[a] < high
    &&& forall|i: int| low <= i < high ==> #[trigger] order.contains(i)
    &&& forall|a: int, b: int|
        0 <= a < b < order.len() ==> precedes(keys, #[trigger] order[a], #[trigger] order[b])
}

/// The places of a list in the order of their keys, equal keys in the order of
/// the list.
pub open spec fn stable_order(keys: Seq<Seq<Seq<int>>>) -> Seq<int> {
    choose|order: Seq<int>| arranges(keys, 0, keys.len() as int, order)
}

/// Of two different places exactly one precedes the other.
pub proof fn lemma_precedes_total(keys: Seq<Seq<Seq<int>>>, i: int, j: int)
    ensures
        i == j ==> !precedes(keys, i, j),
        i != j ==> precedes(keys, i, j) != precedes(keys, j, i),
{
    lemma_key_less_total(keys[i], keys[j]);
    lemma_key_less_total(keys[j], keys[i]);
}

/// Precedence is transitive.
pub proof fn lemma_precedes_transitive(keys: Seq<Seq<Seq<int>>>, i: int, j: int, k: int)
    requires
        precedes(keys, i, j),
        precedes(keys, j, k),
    ensures
        precedes(keys, i, k),
{
    if key_less(keys[i], keys[j]) && key_less(keys[j], keys[k]) {
        lemma_key_less_transitive(keys[i], keys[j], keys[k]);
    }
}

/// No place occurs twice in an arrangement.
pub proof fn lemma_arranges_distinct(keys: Seq<Seq<Seq<int>>>, low: int, high: int, order: Seq<int>)
    requires
        arranges(keys, low, high, order),
    ensures
        order.no_duplicates(),
{
    assert forall|a: int, b: int| 0 <= a < b < order.len() implies order[a] != order[b] by {
        lemma_precedes_total(keys, order[a], order[b]);
    }
}

/// There is one arrangement only.
pub proof fn lemma_arranges_unique(
    keys: Seq<Seq<Seq<int>>>,
    low: int,
    high: int,
    x: Seq<int>,
    y: Seq<int>,
)
    requires
        arranges(keys, low, high, x),
        arranges(keys, low, high, y),
    ensures
        x == y,
{
    lemma_agree_up_to(keys, low, high, x, y, x.len() as int);
    assert(x.take(x.len() as int) =~= x);
    assert(y.take(x.len() as int) =~= y);
}

proof fn lemma_agree_up_to(
    keys: Seq<Seq<Seq<int>>>,
    low: int,
    high: int,
    x: Seq<int>,
    y: Seq<int>,
    n: int,
)
    requires
        arranges(keys, low, high, x),
        arranges(keys, low, high, y),
        0 <= n <= x.len(),
    ensures
        x.take(n) == y.take(n),
    decreases n,
{
    if n > 0 {
        lemma_agree_up_to(keys, low, high, x, y, n - 1);
        let k = n - 1;
        assert forall|i: int| 0 <= i < k implies x[i] == y[i] by {
            assert(x.take(k)[i] == y.take(k)[i]);
        }
        if x[k] != y[k] {
            assert(y.contains(x[k]));
            assert(x.contains(y[k]));
            let p = choose|p: int| 0 <= p < y.len() && y[p] == x[k];
            let q = choose|q: int| 0 <= q < x.len() && x[q] == y[k];
            lemma_arranges_distinct(keys, low, high, x);
            lemma_arranges_distinct(keys, low, high, y);
            if p < k {
                assert(x[p] == x[k]);
            }
            if q < k {
                assert(y[q] == y[k]);
            }
            assert(precedes(keys, y[k], y[p]));
            assert(precedes(keys, x[k], x[q]));
            lemma_precedes_total(keys, x[k], y[k]);
        }
        assert(x.take(n) =~= y.take(n));
    } else {
        assert(x.take(n) =~= y.take(n));
    }
}

/// Every list has an arrangement.
pub proof fn lemma_stable_order_exists(keys: Seq<Seq<Seq<int>>>)
    ensures
        arranges(keys, 0, keys.len() as int, stable_order(keys)),
{
    let order = lemma_arrangement_of(keys, keys.len() as int);
    assert(arranges(keys, 0, keys.len() as int, order));
}

proof fn lemma_arrangement_of(keys: Seq<Seq<Seq<int>>>, n: int) -> (order: Seq<int>)
    requires
        0 <= n <= keys.len(),
    ensures
        arranges(keys, 0, n, order),
    decreases n,
{
    if n == 0 {
        seq![]
    } else {
        let shorter = lemma_arrangement_of(keys, n - 1);
        let at = lemma_slot(keys, n - 1, shorter, 0);
        let order = shorter.insert(at, n - 1);
        assert forall|i: int| 0 <= i < n implies #[trigger] order.contains(i) by {
            if i == n - 1 {
                assert(order[at] == i);
            } else {
                assert(shorter.contains(i));
                let p = choose|p: int| 0 <= p < shorter.len() && shorter[p] == i;
                if p < at {
                    assert(order[p] == i);
                } else {
                    assert(order[p + 1] == i);
                }
            }
        }
        order
    }
}

/// The slot at which the place `new` goes into an arrangement of the places
/// before it.
proof fn lemma_slot(
    keys: Seq<Seq<Seq<int>>>,
    new: int,
    order: Seq<int>,
    from: int,
) -> (at: int)
    requires
        0 <= new < keys.len(),
        arranges(keys, 0, new, order),
        0 <= from <= order.len(),
        forall|a: int| 0 <= a < from ==> precedes(keys, #[trigger] order[a], new),
    ensures
        0 <= at <= order.len(),
        forall|a: int| 0 <= a < at ==> precedes(keys, #[trigger] order[a], new),
        forall|a: int| at <= a < order.len() ==> precedes(keys, new, #[trigger] order[a]),
    decreases order.len() - from,
{
    if from < order.len() && precedes(keys, order[from], new) {
        lemma_slot(keys, new, order, from + 1)
    } else {
        assert forall|a: int| from <= a < order.len() implies precedes(
            keys,
            new,
            #[trigger] order[a],
        ) by {
            lemma_precedes_total(keys, order[from], new);
            if a > from {
                lemma_precedes_transitive(keys, new, order[from], order[a]);
            }
        }
        from
    }
}

/// Whether each key comes before those that follow it.
pub open spec fn ascending(keys: Seq<Seq<Seq<int>>>) -> bool {
    forall|a: int, b: int|
        0 <= a < b < keys.len() ==> key_less(#[trigger] keys[a], #[trigger] keys[b])
}

/// Two ascending lists of the same keys are the same.
pub proof fn lemma_ascending_unique(x: Seq<Seq<Seq<int>>>, y: Seq<Seq<Seq<int>>>)
    requires
        ascending(x),
        ascending(y),
        forall|key: Seq<Seq<int>>| #[trigger] x.contains(key) <==> y.contains(key),
    ensures
        x == y,
{
    lemma_ascending_shorter(x, y);
    lemma_ascending_shorter(y, x);
    lemma_ascending_agree(x, y, x.len() as int);
    assert(x.take(x.len() as int) =~= x);
    assert(y.take(x.len() as int) =~= y);
}

proof fn lemma_ascending_shorter(x: Seq<Seq<Seq<int>>>, y: Seq<Seq<Seq<int>>>)
    requires
        ascending(x),
        forall|key: Seq<Seq<int>>| #[trigger] x.contains(key) <==> y.contains(key),
    ensures
        x.len() <= y.len(),
{
    assert(x.no_duplicates()) by {
        assert forall|a: int, b: int|
            0 <= a < x.len() && 0 <= b < x.len() && a != b implies x[a] != x[b] by {
            lemma_key_less_total(x[a], x[b]);
            if a < b {
                assert(key_less(x[a], x[b]));
            } else {
                assert(key_less(x[b], x[a]));
            }
        }
    }
    x.unique_seq_to_set();
    assert forall|key: Seq<Seq<int>>| #[trigger] x.to_set().contains(key) implies y.to_set().contains(
        key,
    ) by {
        assert(x.contains(key));
        assert(y.contains(key));
    }
    y.lemma_cardinality_of_set();
    vstd::set_lib::lemma_len_subset(x.to_set(), y.to_set());
}

proof fn lemma_ascending_agree(x: Seq<Seq<Seq<int>>>, y: Seq<Seq<Seq<int>>>, n: int)
    requires
        ascending(x),
        ascending(y),
        x.len() == y.len(),
        forall|key: Seq<Seq<int>>| #[trigger] x.contains(key) <==> y.contains(key),
        0 <= n <= x.len(),
    ensures
        x.take(n) == y.take(n),
    decreases n,
{
    if n > 0 {
        let k = n - 1;
        lemma_ascending_agree(x, y, k);
        assert forall|i: int| 0 <= i < k implies x[i] == y[i] by {
            assert(x.take(k)[i] == y.take(k)[i]);
        }
        if x[k] != y[k] {
            assert(x.contains(x[k]));
            assert(y.contains(y[k]));
            assert(y.contains(x[k]));
            assert(x.contains(y[k]));
            let p = choose|p: int| 0 <= p < y.len() && y[p] == x[k];
            let q = choose|q: int| 0 <= q < x.len() && x[q] == y[k];
            lemma_key_less_total(x[k], x[k]);
            lemma_key_less_total(y[k], y[k]);
            lemma_key_less_total(x[k], y[k]);
            if p < k {
                assert(key_less(x[p], x[k]));
            } else if p > k {
                assert(key_less(y[k], y[p]));
                if q < k {
                    assert(key_less(y[q], y[k]));
                } else {
                    assert(key_less(x[k], x[q]));
                }
            }
        }
        assert(x.take(n) =~= y.take(n));
    } else {
        assert(x.take(n) =~= y.take(n));
    }
}

/// What can be ordered by a key.
pub trait Keyed: Sized {
    spec fn key(&self) -> Seq<Seq<int>>;

    /// Where this stands with regard to `other`.
    fn side_of(&self, other: &Self) -> (side: Side)
        ensures
            side == key_side(self.key(), other.key()),
    ;
}

/// The keys of a list.
pub open spec fn keys_of<K: Keyed>(items: Seq<K>) -> Seq<Seq<Seq<int>>> {
    items.map_values(|item: K| item.key())
}

/// Places as numbers.
pub open spec fn places(order: Seq<usize>) -> Seq<int> {
    order.map_values(|i: usize| i as int)
}

/// Where the text `a` stands with regard to the text `b` in the order of their
/// bytes.
pub fn text_side(a: &str, b: &str) -> (side: Side)
    ensures
        side == (if text_less(a@, b@) {
            Side::Before
        } else if a@ == b@ {
            Side::Same
        } else {
            Side::After
        }),
{
    let left = a.as_bytes();
    let right = b.as_bytes();
    let ghost x = text_run(a@);
    let ghost y = text_run(b@);
    let mut i: usize = 0;
    proof {
        assert(x.skip(0) =~= x);
        assert(y.skip(0) =~= y);
    }
    while i < left.len() && i < right.len() && left[i] == right[i]
        invariant
            i <= left@.len(),
            i <= right@.len(),
            left@ == encode_utf8(a@),
            right@ == encode_utf8(b@),
            x == text_run(a@),
            y == text_run(b@),
            forall|k: int| 0 <= k < i ==> left@[k] == right@[k],
            run_less(x, y) == run_less(x.skip(i as int), y.skip(i as int)),
        decreases left@.len() - i,
    {
        assert(x.skip(i as int).skip(1) =~= x.skip(i + 1));
        assert(y.skip(i as int).skip(1) =~= y.skip(i + 1));
        i = i + 1;
    }
    if i == left.len() && i == right.len() {
        proof {
            assert(left@ =~= right@);
            lemma_same_bytes(a@, b@);
            lemma_run_less_total(x, y);
        }
        Side::Same
    } else if i == left.len() {
        Side::Before
    } else if i == right.len() {
        proof {
            if a@ == b@ {
                assert(left@.len() == right@.len());
            }
        }
        Side::After
    } else if left[i] < right[i] {
        Side::Before
    } else {
        proof {
            if a@ == b@ {
                assert(left@[i as int] == right@[i as int]);
            }
        }
        Side::After
    }
}

/// A text, as a key of one part.
pub struct TextKey<'a> {
    pub text: &'a str,
}

impl<'a> Keyed for TextKey<'a> {
    open spec fn key(&self) -> Seq<Seq<int>> {
        text_key(self.text@)
    }

    fn side_of(&self, other: &Self) -> (side: Side) {
        let side = text_side(self.text, other.text);
        proof {
            lemma_text_key(self.text@, other.text@);
        }
        side
    }
}

/// The key of one part that orders a text.
pub open spec fn text_key(s: Seq<char>) -> Seq<Seq<int>> {
    seq![text_run(s)]
}

/// Keys of one text are ordered as the texts are.
pub proof fn lemma_text_key(a: Seq<char>, b: Seq<char>)
    ensures
        key_less(text_key(a), text_key(b)) == text_less(a, b),
        (text_key(a) == text_key(b)) == (a == b),
{
    reveal_with_fuel(key_less, 2);
    let x = text_key(a);
    let y = text_key(b);
    assert(x[0] == text_run(a));
    assert(y[0] == text_run(b));
    lemma_run_less_total(x[0], y[0]);
    if x[0] == y[0] {
        lemma_text_run_injective(a, b);
        assert(x =~= y);
    }
}

/// The run that orders a text that may be absent; absence comes first.
pub open spec fn optional_run(text: Option<Seq<char>>) -> Seq<int> {
    match text {
        Some(t) => seq![1int] + text_run(t),
        None => seq![],
    }
}

/// Where the run `a` stands with regard to the run `b`.
pub open spec fn run_side(a: Seq<int>, b: Seq<int>) -> Side {
    if run_less(a, b) {
        Side::Before
    } else if a == b {
        Side::Same
    } else {
        Side::After
    }
}

/// One part of a key.
#[derive(Clone, Copy)]
pub enum Part<'a> {
    Text(&'a str),
    Maybe(Option<&'a str>),
    Number(u64),
}

impl<'a> Part<'a> {
    /// The run that orders the part.
    pub open spec fn run(&self) -> Seq<int> {
        match *self {
            Part::Text(text) => text_run(text@),
            Part::Maybe(Some(text)) => optional_run(Some(text@)),
            Part::Maybe(None) => optional_run(None),
            Part::Number(n) => seq![n as int],
        }
    }

    fn numbers(&self) -> (numbers: Vec<u64>)
        ensures
            numbers@.map_values(|n: u64| n as int) == self.run(),
    {
        let mut numbers: Vec<u64> = Vec::new();
        match *self {
            Part::Text(text) => {
                push_bytes(&mut numbers, text);
            },
            Part::Maybe(Some(text)) => {
                numbers.push(1);
                push_bytes(&mut numbers, text);
            },
            Part::Maybe(None) => {},
            Part::Number(n) => {
                numbers.push(n);
            },
        }
        assert(numbers@.map_values(|n: u64| n as int) =~= self.run());
        numbers
    }

    /// Where this part stands with regard to `other`.
    pub fn side_of_part(&self, other: &Part) -> (side: Side)
        ensures
            side == run_side(self.run(), other.run()),
    {
        match (*self, *other) {
            (Part::Text(a), Part::Text(b)) => {
                proof {
                    if text_run(a@) == text_run(b@) {
                        lemma_text_run_injective(a@, b@);
                    }
                }
                text_side(a, b)
            },
            (Part::Number(a), Part::Number(b)) => {
                proof {
                    let x = seq![a as int];
                    let y = seq![b as int];
                    assert(x[0] == a && y[0] == b);
                    reveal_with_fuel(run_less, 2);
                }
                if a < b {
                    Side::Before
                } else if a == b {
                    Side::Same
                } else {
                    Side::After
                }
            },
            _ => numbers_side(&self.numbers(), &other.numbers()),
        }
    }
}

fn push_bytes(numbers: &mut Vec<u64>, text: &str)
    ensures
        final(numbers)@ == old(numbers)@ + encode_utf8(text@).map_values(|b: u8| b as u64),
{
    let bytes = text.as_bytes();
    let ghost before = numbers@;
    let ghost all = bytes@.map_values(|b: u8| b as u64);
    let mut i: usize = 0;
    assert(numbers@ =~= before + all.take(0));
    while i < bytes.len()
        invariant
            i <= bytes@.len(),
            all == bytes@.map_values(|b: u8| b as u64),
            numbers@ == before + all.take(i as int),
        decreases bytes@.len() - i,
    {
        numbers.push(bytes[i] as u64);
        assert(before + all.take(i as int).push(all[i as int]) =~= before + all.take(i + 1));
        i = i + 1;
    }
    assert(all.take(i as int) =~= all);
}

fn numbers_side(a: &Vec<u64>, b: &Vec<u64>) -> (side: Side)
    ensures
        side == run_side(
            a@.map_values(|n: u64| n as int),
            b@.map_values(|n: u64| n as int),
        ),
{
    let ghost x = a@.map_values(|n: u64| n as int);
    let ghost y = b@.map_values(|n: u64| n as int);
    let mut i: usize = 0;
    proof {
        assert(x.skip(0) =~= x);
        assert(y.skip(0) =~= y);
    }
    while i < a.len() && i < b.len() && a[i] == b[i]
        invariant
            i <= a@.len(),
            i <= b@.len(),
            x == a@.map_values(|n: u64| n as int),
            y == b@.map_values(|n: u64| n as int),
            forall|k: int| 0 <= k < i ==> x[k] == y[k],
            run_less(x, y) == run_less(x.skip(i as int), y.skip(i as int)),
        decreases a@.len() - i,
    {
        assert(x.skip(i as int).skip(1) =~= x.skip(i + 1));
        assert(y.skip(i as int).skip(1) =~= y.skip(i + 1));
        i = i + 1;
    }
    if i == a.len() && i == b.len() {
        assert(x =~= y);
        Side::Same
    } else if i == a.len() {
        Side::Before
    } else if i == b.len() {
        Side::After
    } else if a[i] < b[i] {
        Side::Before
    } else {
        assert(x[i as int] != y[i as int]);
        Side::After
    }
}

/// A key of several parts.
pub struct PartsKey<'a> {
    pub parts: Vec<Part<'a>>,
}

/// The runs of the parts of a key.
pub open spec fn runs_of(parts: Seq<Part>) -> Seq<Seq<int>> {
    parts.map_values(|part: Part| part.run())
}

impl<'a> Keyed for PartsKey<'a> {
    open spec fn key(&self) -> Seq<Seq<int>> {
        runs_of(self.parts@)
    }

    fn side_of(&self, other: &Self) -> (side: Side) {
        let ghost x = self.key();
        let ghost y = other.key();
        let mut i: usize = 0;
        proof {
            assert(x.skip(0) =~= x);
            assert(y.skip(0) =~= y);
        }
        while i < self.parts.len() && i < other.parts.len()
            invariant
                i <= self.parts@.len(),
                i <= other.parts@.len(),
                x == runs_of(self.parts@),
                y == runs_of(other.parts@),
                forall|k: int| 0 <= k < i ==> x[k] == y[k],
                key_less(x, y) == key_less(x.skip(i as int), y.skip(i as int)),
            decreases self.parts@.len() - i,
        {
            let side = self.parts[i].side_of_part(&other.parts[i]);
            proof {
                assert(x.skip(i as int)[0] == self.parts@[i as int].run());
                assert(y.skip(i as int)[0] == other.parts@[i as int].run());
                assert(x.skip(i as int).skip(1) =~= x.skip(i + 1));
                assert(y.skip(i as int).skip(1) =~= y.skip(i + 1));
                lemma_run_less_total(x[i as int], y[i as int]);
            }
            match side {
                Side::Same => {},
                _ => {
                    assert(x[i as int] != y[i as int]);
                    return side;
                },
            }
            i = i + 1;
        }
        if i == self.parts.len() && i == other.parts.len() {
            proof {
                assert(x =~= y);
                lemma_key_less_total(x, y);
            }
            Side::Same
        } else if i == self.parts.len() {
            Side::Before
        } else {
            Side::After
        }
    }
}

/// The places of a list in the order of their keys, equal keys in the order of
/// the list.
pub fn arrange<K: Keyed>(items: &Vec<K>) -> (order: Vec<usize>)
    ensures
        places(order@) == stable_order(keys_of(items@)),
        arranges(keys_of(items@), 0, items@.len() as int, places(order@)),
{
    let order = arrange_range(items, 0, items.len());
    proof {
        let keys = keys_of(items@);
        lemma_stable_order_exists(keys);
        lemma_arranges_unique(
            keys,
            0,
            keys.len() as int,
            places(order@),
            stable_order(keys),
        );
    }
    order
}

fn arrange_range<K: Keyed>(items: &Vec<K>, low: usize, high: usize) -> (order: Vec<usize>)
    requires
        low <= high <= items@.len(),
    ensures
        arranges(keys_of(items@), low as int, high as int, places(order@)),
    decreases high - low,
{
    let mut order: Vec<usize> = Vec::new();
    if high - low == 0 {
        return order;
    }
    if high - low == 1 {
        order.push(low);
        assert(places(order@)[0] == low);
        return order;
    }
    let middle: usize = low + (high - low) / 2;
    let left = arrange_range(items, low, middle);
    let right = arrange_range(items, middle, high);
    merge(items, low, middle, high, &left, &right)
}

fn merge<K: Keyed>(
    items: &Vec<K>,
    low: usize,
    middle: usize,
    high: usize,
    left: &Vec<usize>,
    right: &Vec<usize>,
) -> (order: Vec<usize>)
    requires
        low <= middle <= high <= items@.len(),
        arranges(keys_of(items@), low as int, middle as int, places(left@)),
        arranges(keys_of(items@), middle as int, high as int, places(right@)),
    ensures
        arranges(keys_of(items@), low as int, high as int, places(order@)),
{
    let ghost keys = keys_of(items@);
    let ghost x = places(left@);
    let ghost y = places(right@);
    let mut order: Vec<usize> = Vec::new();
    let mut l: usize = 0;
    let mut r: usize = 0;
    while l < left.len() || r < right.len()
        invariant
            low <= middle <= high <= items@.len(),
            keys == keys_of(items@),
            x == places(left@),
            y == places(right@),
            arranges(keys, low as int, middle as int, x),
            arranges(keys, middle as int, high as int, y),
            l <= left@.len(),
            r <= right@.len(),
            order@.len() == l + r,
            forall|a: int| 0 <= a < order@.len() ==> low <= #[trigger] order@[a] < high,
            forall|a: int, b: int|
                0 <= a < b < order@.len() ==> precedes(
                    keys,
                    #[trigger] order@[a] as int,
                    #[trigger] order@[b] as int,
                ),
            forall|a: int, b: int|
                0 <= a < order@.len() && l <= b < x.len() ==> precedes(
                    keys,
                    #[trigger] order@[a] as int,
                    #[trigger] x[b],
                ),
            forall|a: int, b: int|
                0 <= a < order@.len() && r <= b < y.len() ==> precedes(
                    keys,
                    #[trigger] order@[a] as int,
                    #[trigger] y[b],
                ),
            forall|b: int| 0 <= b < l ==> places(order@).contains(#[trigger] x[b]),
            forall|b: int| 0 <= b < r ==> places(order@).contains(#[trigger] y[b]),
        decreases left@.len() - l + right@.len() - r,
    {
        let ghost before = order@;
        let take_left: bool = if l == left.len() {
            false
        } else if r == right.len() {
            true
        } else {
            let i: usize = left[l];
            let j: usize = right[r];
            assert(x[l as int] == i);
            assert(y[r as int] == j);
            match items[j].side_of(&items[i]) {
                Side::Before => false,
                _ => true,
            }
        };
        proof {
            if l < left@.len() && r < right@.len() {
                let i = x[l as int];
                let j = y[r as int];
                lemma_key_less_total(keys[i], keys[j]);
                lemma_key_less_total(keys[j], keys[i]);
                assert(take_left ==> precedes(keys, i, j));
                assert(!take_left ==> precedes(keys, j, i));
            }
        }
        if take_left {
            let i: usize = left[l];
            assert(x[l as int] == i);
            order.push(i);
            proof {
                assert forall|b: int| r <= b < y.len() implies precedes(
                    keys,
                    i as int,
                    #[trigger] y[b],
                ) by {
                    if b > r {
                        lemma_precedes_transitive(keys, i as int, y[r as int], y[b]);
                    }
                }
            }
            l = l + 1;
        } else {
            let j: usize = right[r];
            assert(y[r as int] == j);
            order.push(j);
            proof {
                assert forall|b: int| l <= b < x.len() implies precedes(
                    keys,
                    j as int,
                    #[trigger] x[b],
                ) by {
                    if b > l {
                        lemma_precedes_transitive(keys, j as int, x[l as int], x[b]);
                    }
                }
            }
            r = r + 1;
        }
        proof {
            let old_places = places(before);
            let new_places = places(order@);
            assert(new_places =~= old_places.push(order@.last() as int));
            assert(new_places[order@.len() - 1] == order@.last());
            assert forall|v: int| old_places.contains(v) implies new_places.contains(v) by {
                let p = choose|p: int| 0 <= p < old_places.len() && old_places[p] == v;
                assert(new_places[p] == v);
            }
        }
    }
    proof {
        let all = places(order@);
        assert forall|i: int| low <= i < high implies #[trigger] all.contains(i) by {
            if i < middle {
                assert(x.contains(i));
                let b = choose|b: int| 0 <= b < x.len() && x[b] == i;
                assert(all.contains(x[b]));
            } else {
                assert(y.contains(i));
                let b = choose|b: int| 0 <= b < y.len() && y[b] == i;
                assert(all.contains(y[b]));
            }
        }
        assert forall|a: int, b: int| 0 <= a < b < all.len() implies precedes(
            keys,
            #[trigger] all[a],
            #[trigger] all[b],
        ) by {
            assert(precedes(keys, order@[a] as int, order@[b] as int));
        }
    }
    order
}

} // verus!
