//! Lists: cutting into pieces of one size, and the first of each key.

use vstd::prelude::*;

use crate::order::{arrange, keys_of, places, text_key, Keyed, Side, TextKey};
use crate::text::texts;

verus! {

/// A list cut into pieces of `size`, the last of which may be shorter.
pub open spec fn pieces<T>(list: Seq<T>, size: nat) -> Seq<Seq<T>>
    decreases list.len(),
{
    if list.len() == 0 || size == 0 {
        seq![]
    } else if list.len() <= size {
        seq![list]
    } else {
        seq![list.take(size as int)] + pieces(list.skip(size as int), size)
    }
}

/// One after the other.
pub open spec fn concatenated<T>(parts: Seq<Seq<T>>) -> Seq<T>
    decreases parts.len(),
{
    if parts.len() == 0 {
        seq![]
    } else {
        concatenated(parts.drop_last()) + parts.last()
    }
}

/// The contents of a list of lists.
pub open spec fn lists<T>(parts: Seq<Vec<T>>) -> Seq<Seq<T>> {
    parts.map_values(|part: Vec<T>| part@)
}

/// Whether no earlier key is the same as the key at `i`.
pub open spec fn is_first(keys: Seq<Seq<Seq<int>>>, i: int) -> bool {
    forall|j: int| 0 <= j < i ==> #[trigger] keys[j] != keys[i]
}

/// The places below `n` where a key occurs for the first time.
pub open spec fn first_below(keys: Seq<Seq<Seq<int>>>, n: int) -> Seq<int>
    decreases n,
{
    if n <= 0 {
        seq![]
    } else if is_first(keys, n - 1) {
        first_below(keys, n - 1).push(n - 1)
    } else {
        first_below(keys, n - 1)
    }
}

/// The places where a key occurs for the first time.
pub open spec fn first_places(keys: Seq<Seq<Seq<int>>>) -> Seq<int> {
    first_below(keys, keys.len() as int)
}

/// What stands at `places` of a list.
pub open spec fn picked<T>(list: Seq<T>, places: Seq<int>) -> Seq<T> {
    places.map_values(|i: int| list[i])
}

/// Texts without those that occurred before.
pub open spec fn distinct(list: Seq<Seq<char>>) -> Seq<Seq<char>> {
    picked(list, first_places(list.map_values(|text: Seq<char>| text_key(text))))
}

pub proof fn lemma_concatenated_two<T>(a: Seq<Seq<T>>, b: Seq<Seq<T>>)
    ensures
        concatenated(a + b) == concatenated(a) + concatenated(b),
    decreases b.len(),
{
    if b.len() == 0 {
        assert(a + b =~= a);
        assert(concatenated(a) + concatenated(b) =~= concatenated(a));
    } else {
        assert((a + b).drop_last() =~= a + b.drop_last());
        lemma_concatenated_two(a, b.drop_last());
        assert(concatenated(a + b) =~= concatenated(a) + concatenated(b));
    }
}

/// The pieces of a list, one after the other, are the list.
pub proof fn law_pieces_cover<T>(list: Seq<T>, size: nat)
    requires
        size > 0,
    ensures
        concatenated(pieces(list, size)) == list,
        forall|k: int|
            0 <= k < pieces(list, size).len() ==> 0 < (#[trigger] pieces(list, size)[k]).len()
                <= size,
    decreases list.len(),
{
    if list.len() == 0 {
        assert(concatenated(pieces(list, size)) =~= list);
    } else if list.len() <= size {
        let all = pieces(list, size);
        reveal_with_fuel(concatenated, 2);
        assert(all.drop_last() =~= seq![]);
        assert(concatenated(all) =~= list);
    } else {
        let first = seq![list.take(size as int)];
        let rest = pieces(list.skip(size as int), size);
        law_pieces_cover(list.skip(size as int), size);
        lemma_concatenated_two(first, rest);
        assert(first.drop_last() =~= seq![]);
        reveal_with_fuel(concatenated, 2);
        assert(concatenated(first) =~= list.take(size as int));
        assert(concatenated(pieces(list, size)) =~= list);
        assert forall|k: int| 0 <= k < pieces(list, size).len() implies 0 < (
        #[trigger] pieces(list, size)[k]).len() <= size by {
            if k > 0 {
                assert(pieces(list, size)[k] == rest[k - 1]);
            }
        }
    }
}

/// Whether `parts` are a list cut into portions of one size, the last of which may be shorter,
/// and none of which is empty.
pub open spec fn are_portions<T>(parts: Seq<Seq<T>>, list: Seq<T>, size: nat) -> bool {
    &&& concatenated(parts) == list
    &&& forall|k: int|
        0 <= k < parts.len() ==> 0 < (#[trigger] parts[k]).len() <= size && (k + 1 < parts.len()
            ==> parts[k].len() == size)
}

/// The pieces of a list are all of the size, but the last, which may be shorter.
pub proof fn law_pieces_are_portions<T>(list: Seq<T>, size: nat)
    requires
        size > 0,
    ensures
        are_portions(pieces(list, size), list, size),
    decreases list.len(),
{
    law_pieces_cover(list, size);
    let parts = pieces(list, size);
    if list.len() > size {
        let rest = list.skip(size as int);
        law_pieces_are_portions(rest, size);
        assert forall|k: int| 0 <= k < parts.len() implies 0 < (#[trigger] parts[k]).len() <= size
            && (k + 1 < parts.len() ==> parts[k].len() == size) by {
            if k > 0 {
                assert(parts[k] == pieces(rest, size)[k - 1]);
            }
        }
    }
}

/// What is in a piece is in the list.
pub proof fn lemma_pieces_within<T>(list: Seq<T>, size: nat, k: int)
    requires
        0 <= k < pieces(list, size).len(),
    ensures
        forall|item: T| #[trigger] pieces(list, size)[k].contains(item) ==> list.contains(item),
    decreases list.len(),
{
    let all = pieces(list, size);
    if list.len() > size {
        let rest = pieces(list.skip(size as int), size);
        assert(all =~= seq![list.take(size as int)] + rest);
        if k > 0 {
            lemma_pieces_within(list.skip(size as int), size, k - 1);
            assert(all[k] == rest[k - 1]);
        }
        assert forall|item: T| #[trigger] all[k].contains(item) implies list.contains(item) by {
            if k == 0 {
                let p = choose|p: int| 0 <= p < all[0].len() && all[0][p] == item;
                assert(list[p] == item);
            } else {
                assert(list.skip(size as int).contains(item));
                let p = choose|p: int|
                    0 <= p < list.skip(size as int).len() && list.skip(size as int)[p] == item;
                assert(list[p + size] == item);
            }
        }
    }
}

proof fn lemma_last_piece<T>(list: Seq<T>, size: nat, at: nat)
    requires
        0 < list.len() - at <= size,
        at % size == 0,
        size > 0,
    ensures
        pieces(list, size) == pieces(list.take(at as int), size).push(list.skip(at as int)),
    decreases list.len(),
{
    if at == 0 {
        assert(list.skip(0) =~= list);
        assert(pieces(list, size) =~= pieces(list.take(0), size).push(list.skip(0)));
    } else {
        vstd::arithmetic::div_mod::lemma_mod_self_0(size as int);
        if at < size {
            vstd::arithmetic::div_mod::lemma_small_mod(at, size);
        }
        let rest = list.skip(size as int);
        vstd::arithmetic::div_mod::lemma_mod_sub_multiples_vanish(at as int, size as int);
        lemma_last_piece(rest, size, (at - size) as nat);
        assert(rest.skip(at - size) =~= list.skip(at as int));
        let before = list.take(at as int);
        assert(before.skip(size as int) =~= rest.take(at - size));
        assert(before.take(size as int) =~= list.take(size as int));
        if at == size {
            assert(before =~= list.take(size as int));
            assert(rest.take(0) =~= seq![]);
            assert(pieces(rest.take(0), size) =~= seq![]);
        }
        assert(pieces(list, size) =~= pieces(before, size).push(list.skip(at as int)));
    }
}

/// Cuts a list into pieces of `size`, the last of which may be shorter.
pub fn cut<T>(list: Vec<T>, size: usize) -> (parts: Vec<Vec<T>>)
    requires
        size > 0,
    ensures
        lists(parts@) == pieces(list@, size as nat),
{
    let ghost whole = list@;
    let mut list = list;
    let mut backwards: Vec<Vec<T>> = Vec::new();
    let over: usize = list.len() % size;
    proof {
        let length = whole.len() as int;
        let s = size as int;
        vstd::arithmetic::div_mod::lemma_mod_decreases(length as nat, s as nat);
        if length > 0 && length < s {
            vstd::arithmetic::div_mod::lemma_small_mod(length as nat, s as nat);
        }
    }
    let mut at: usize = list.len() - over;
    if at == list.len() && at > 0 {
        at = at - size;
    }
    proof {
        let length = whole.len() as int;
        let s = size as int;
        vstd::arithmetic::div_mod::lemma_mod_sub_multiples_vanish(length - length % s, s);
        vstd::arithmetic::div_mod::lemma_fundamental_div_mod(length, s);
        assert((length - length % s) % s == 0) by {
            vstd::arithmetic::div_mod::lemma_mod_multiples_basic(length / s, s);
            vstd::arithmetic::mul::lemma_mul_is_commutative(length / s, s);
        }
        assert(lists(backwards@).reverse() =~= seq![]);
        assert(pieces(whole, size as nat) + lists(backwards@).reverse() =~= pieces(
            whole,
            size as nat,
        ));
    }
    while list.len() > 0
        invariant
            size > 0,
            at % size == 0,
            list@.len() > 0 ==> 0 < list@.len() - at <= size,
            pieces(whole, size as nat) == pieces(list@, size as nat)
                + lists(backwards@).reverse(),
        decreases list@.len(),
    {
        let ghost before = list@;
        let ghost old_back = lists(backwards@);
        let part = list.split_off(at);
        proof {
            lemma_last_piece(before, size as nat, at as nat);
            assert(list@ =~= before.take(at as int));
            assert(part@ =~= before.skip(at as int));
            vstd::arithmetic::div_mod::lemma_mod_sub_multiples_vanish(at as int, size as int);
            if 0 < at && at < size {
                vstd::arithmetic::div_mod::lemma_small_mod(at as nat, size as nat);
            }
        }
        backwards.push(part);
        proof {
            assert(lists(backwards@) =~= old_back.push(part@));
            assert(pieces(list@, size as nat).push(part@) + old_back.reverse() =~= pieces(
                list@,
                size as nat,
            ) + lists(backwards@).reverse());
        }
        if at > 0 {
            at = at - size;
        }
    }
    let mut parts: Vec<Vec<T>> = Vec::new();
    assert(pieces(whole, size as nat) =~= lists(parts@) + lists(backwards@).reverse());
    while backwards.len() > 0
        invariant
            pieces(whole, size as nat) == lists(parts@) + lists(backwards@).reverse(),
        decreases backwards@.len(),
    {
        let ghost old_back = backwards@;
        let ghost old_parts = lists(parts@);
        match backwards.pop() {
            Some(part) => {
                let ghost taken = part@;
                parts.push(part);
                assert(lists(parts@) =~= old_parts.push(taken));
                assert(lists(parts@) + lists(backwards@).reverse() =~= old_parts + lists(
                    old_back,
                ).reverse());
            },
            None => {},
        }
    }
    assert(lists(parts@) + lists(backwards@).reverse() =~= lists(parts@));
    parts
}

/// For each place, whether its key occurs there for the first time.
fn first_marks<K: Keyed>(items: &Vec<K>) -> (marks: Vec<bool>)
    ensures
        marks@.len() == items@.len(),
        forall|i: int| 0 <= i < marks@.len() ==> marks@[i] == is_first(keys_of(items@), i),
{
    let order = arrange(items);
    let ghost keys = keys_of(items@);
    let ghost sorted = places(order@);
    let mut marks: Vec<bool> = Vec::new();
    let mut i: usize = 0;
    while i < items.len()
        invariant
            i <= items@.len(),
            marks@.len() == i,
        decreases items@.len() - i,
    {
        marks.push(true);
        i = i + 1;
    }
    let mut a: usize = 0;
    while a < order.len()
        invariant
            a <= order@.len(),
            marks@.len() == items@.len(),
            keys == keys_of(items@),
            sorted == places(order@),
            crate::order::arranges(keys, 0, items@.len() as int, sorted),
            forall|b: int|
                0 <= b < a ==> marks@[#[trigger] sorted[b]] == is_first(keys, sorted[b]),
        decreases order@.len() - a,
    {
        proof {
            assert(sorted[a as int] == order@[a as int] as int);
            crate::order::lemma_arranges_distinct(keys, 0, items@.len() as int, sorted);
            lemma_first_in_order(keys, sorted, a as int);
        }
        if a > 0 {
            assert(sorted[a - 1] == order@[a - 1] as int);
            let same = match items[order[a]].side_of(&items[order[a - 1]]) {
                Side::Same => true,
                _ => false,
            };
            proof {
                assert(keys[sorted[a as int]] == items@[sorted[a as int]].key());
                assert(keys[sorted[a - 1]] == items@[sorted[a - 1]].key());
            }
            marks.set(order[a], !same);
        } else {
            marks.set(order[a], true);
        }
        a = a + 1;
    }
    proof {
        assert forall|i: int| 0 <= i < marks@.len() implies marks@[i] == is_first(keys, i) by {
            assert(sorted.contains(i));
            let b = choose|b: int| 0 <= b < sorted.len() && sorted[b] == i;
            assert(marks@[sorted[b]] == is_first(keys, sorted[b]));
        }
    }
    marks
}

/// In an arrangement, a key is new where it differs from the key before it.
proof fn lemma_first_in_order(keys: Seq<Seq<Seq<int>>>, sorted: Seq<int>, a: int)
    requires
        crate::order::arranges(keys, 0, keys.len() as int, sorted),
        0 <= a < sorted.len(),
    ensures
        a == 0 ==> is_first(keys, sorted[a]),
        a > 0 ==> is_first(keys, sorted[a]) == (keys[sorted[a - 1]] != keys[sorted[a]]),
        a > 0 ==> (crate::order::key_side(keys[sorted[a]], keys[sorted[a - 1]]) == Side::Same) == (
        keys[sorted[a - 1]] == keys[sorted[a]]),
{
    let i = sorted[a];
    if a > 0 {
        crate::order::lemma_key_less_total(keys[sorted[a]], keys[sorted[a - 1]]);
    }
    if a > 0 && keys[sorted[a - 1]] == keys[i] {
        assert(crate::order::precedes(keys, sorted[a - 1], sorted[a]));
        crate::order::lemma_key_less_total(keys[i], keys[i]);
        assert(sorted[a - 1] < i);
        assert(!is_first(keys, i));
    } else {
        assert forall|j: int| 0 <= j < i implies #[trigger] keys[j] != keys[i] by {
            if keys[j] == keys[i] {
                assert(sorted.contains(j));
                let b = choose|b: int| 0 <= b < sorted.len() && sorted[b] == j;
                crate::order::lemma_key_less_total(keys[i], keys[i]);
                if b > a {
                    assert(crate::order::precedes(keys, sorted[a], sorted[b]));
                } else if b < a {
                    if b < a - 1 {
                        assert(crate::order::precedes(keys, sorted[b], sorted[a - 1]));
                    }
                    assert(crate::order::precedes(keys, sorted[a - 1], sorted[a]));
                    crate::order::lemma_key_less_total(keys[i], keys[sorted[a - 1]]);
                    crate::order::lemma_key_less_total(keys[sorted[a - 1]], keys[i]);
                }
            }
        }
    }
}

/// The places where a key occurs for the first time.
pub fn find_first_places<K: Keyed>(items: &Vec<K>) -> (found: Vec<usize>)
    ensures
        places(found@) == first_places(keys_of(items@)),
        forall|a: int| 0 <= a < found@.len() ==> #[trigger] found@[a] < items@.len(),
{
    let marks = first_marks(items);
    let mut found: Vec<usize> = Vec::new();
    let mut i: usize = 0;
    assert(places(found@) =~= seq![]);
    while i < marks.len()
        invariant
            i <= marks@.len(),
            marks@.len() == items@.len(),
            forall|i: int| 0 <= i < marks@.len() ==> marks@[i] == is_first(keys_of(items@), i),
            places(found@) == first_below(keys_of(items@), i as int),
            forall|a: int| 0 <= a < found@.len() ==> #[trigger] found@[a] < items@.len(),
        decreases marks@.len() - i,
    {
        let ghost before = places(found@);
        if marks[i] {
            found.push(i);
            assert(places(found@) =~= before.push(i as int));
        }
        i = i + 1;
    }
    found
}

/// What stands at the places of `order`, each of which occurs once.
pub fn pick<T>(list: Vec<T>, order: &Vec<usize>) -> (chosen: Vec<T>)
    requires
        places(order@).no_duplicates(),
        forall|a: int| 0 <= a < order@.len() ==> #[trigger] order@[a] < list@.len(),
    ensures
        chosen@ == picked(list@, places(order@)),
{
    let ghost all = list@;
    let mut rest = list;
    let mut backwards: Vec<Option<T>> = Vec::new();
    while rest.len() > 0
        invariant
            rest@.len() + backwards@.len() == all.len(),
            rest@ == all.take(rest@.len() as int),
            forall|k: int|
                0 <= k < backwards@.len() ==> #[trigger] backwards@[k] == Some(
                    all[all.len() - 1 - k],
                ),
        decreases rest@.len(),
    {
        let ghost before = rest@;
        match rest.pop() {
            Some(item) => {
                assert(item == all[before.len() - 1]);
                backwards.push(Some(item));
            },
            None => {},
        }
    }
    let count: usize = backwards.len();
    let mut chosen: Vec<T> = Vec::new();
    let mut a: usize = 0;
    while a < order.len()
        invariant
            a <= order@.len(),
            count == all.len(),
            backwards@.len() == count,
            places(order@).no_duplicates(),
            forall|b: int| 0 <= b < order@.len() ==> #[trigger] order@[b] < count,
            forall|b: int|
                a <= b < order@.len() ==> backwards@[count - 1 - #[trigger] order@[b]] == Some(
                    all[order@[b] as int],
                ),
            chosen@.len() == a,
            forall|b: int| 0 <= b < a ==> #[trigger] chosen@[b] == all[order@[b] as int],
        decreases order@.len() - a,
    {
        let i: usize = order[a];
        let slot: usize = count - 1 - i;
        let ghost before = backwards@;
        assert(backwards@[slot as int] == Some(all[i as int]));
        let item = backwards[slot].take();
        proof {
            assert forall|b: int| a + 1 <= b < order@.len() implies backwards@[count - 1
                - #[trigger] order@[b]] == Some(all[order@[b] as int]) by {
                assert(places(order@)[a as int] == order@[a as int] as int);
                assert(places(order@)[b] == order@[b] as int);
                assert(order@[b] != i);
                assert(before[count - 1 - order@[b]] == Some(all[order@[b] as int]));
            }
        }
        match item {
            Some(item) => {
                chosen.push(item);
            },
            None => {
                assert(false);
            },
        }
        a = a + 1;
    }
    assert(chosen@ =~= picked(all, places(order@)));
    chosen
}

/// Texts without those that occurred before.
pub fn distinct_texts(list: &Vec<String>) -> (kept: Vec<String>)
    ensures
        texts(kept@) == distinct(texts(list@)),
{
    let ghost all = texts(list@);
    let ghost expected = distinct(all);
    let mut keys: Vec<TextKey> = Vec::new();
    let mut i: usize = 0;
    while i < list.len()
        invariant
            i <= list@.len(),
            all == texts(list@),
            keys@.len() == i,
            forall|k: int| 0 <= k < i ==> (#[trigger] keys@[k]).text@ == all[k],
        decreases list@.len() - i,
    {
        keys.push(TextKey { text: list[i].as_str() });
        i = i + 1;
    }
    let found = find_first_places(&keys);
    assert(keys_of(keys@) =~= all.map_values(|text: Seq<char>| text_key(text)));
    let mut kept: Vec<String> = Vec::new();
    let mut a: usize = 0;
    while a < found.len()
        invariant
            a <= found@.len(),
            all == texts(list@),
            expected == distinct(all),
            places(found@) == first_places(all.map_values(|text: Seq<char>| text_key(text))),
            forall|k: int| 0 <= k < found@.len() ==> #[trigger] found@[k] < list@.len(),
            texts(kept@) == expected.take(a as int),
        decreases found@.len() - a,
    {
        let ghost before = texts(kept@);
        kept.push(list[found[a]].clone());
        assert(places(found@)[a as int] == found@[a as int] as int);
        assert(texts(kept@) =~= before.push(expected[a as int]));
        assert(expected.take(a + 1) =~= before.push(expected[a as int]));
        a = a + 1;
    }
    assert(places(found@).len() == found@.len());
    assert(expected.take(a as int) =~= expected);
    kept
}

/// Which places those of first occurrence are.
pub proof fn lemma_first_below(keys: Seq<Seq<Seq<int>>>, n: int)
    requires
        0 <= n <= keys.len(),
    ensures
        forall|i: int| #[trigger]
            first_below(keys, n).contains(i) <==> 0 <= i < n && is_first(keys, i),
        forall|a: int, b: int|
            0 <= a < b < first_below(keys, n).len() ==> #[trigger] first_below(keys, n)[a]
                < #[trigger] first_below(keys, n)[b],
    decreases n,
{
    if n > 0 {
        lemma_first_below(keys, n - 1);
        let before = first_below(keys, n - 1);
        let after = first_below(keys, n);
        assert forall|a: int| 0 <= a < before.len() implies 0 <= #[trigger] before[a] < n - 1 by {
            assert(before.contains(before[a]));
        }
        assert forall|i: int| #[trigger] after.contains(i) <==> 0 <= i < n && is_first(
            keys,
            i,
        ) by {
            if before.contains(i) {
                let p = choose|p: int| 0 <= p < before.len() && before[p] == i;
                assert(after[p] == i);
            }
            if i == n - 1 && is_first(keys, i) {
                assert(after.last() == i);
            }
            if after.contains(i) {
                let p = choose|p: int| 0 <= p < after.len() && after[p] == i;
                if p < before.len() {
                    assert(before[p] == i);
                    assert(before.contains(i));
                }
            }
        }
    }
}

/// Of each key that occurs, the first place is kept, and no key is kept twice.
pub proof fn law_first_places(keys: Seq<Seq<Seq<int>>>)
    ensures
        forall|i: int| 0 <= i < keys.len() ==> exists|a: int|
            0 <= a < first_places(keys).len() && keys[#[trigger] first_places(keys)[a]]
                == #[trigger] keys[i],
        forall|a: int, b: int|
            0 <= a < b < first_places(keys).len() ==> keys[#[trigger] first_places(keys)[a]]
                != keys[#[trigger] first_places(keys)[b]],
{
    let kept = first_places(keys);
    lemma_first_below(keys, keys.len() as int);
    assert forall|i: int| 0 <= i < keys.len() implies exists|a: int|
        0 <= a < kept.len() && keys[#[trigger] kept[a]] == #[trigger] keys[i] by {
        let first = lemma_first_of_key(keys, i);
        assert(kept.contains(first));
        let a = choose|a: int| 0 <= a < kept.len() && kept[a] == first;
        assert(keys[kept[a]] == keys[i]);
    }
    assert forall|a: int, b: int| 0 <= a < b < kept.len() implies keys[#[trigger] kept[a]]
        != keys[#[trigger] kept[b]] by {
        assert(kept.contains(kept[b]));
        assert(kept.contains(kept[a]));
    }
}

/// Each text is kept once, and none is lost.
pub proof fn law_distinct(list: Seq<Seq<char>>)
    ensures
        distinct(list).no_duplicates(),
        forall|text: Seq<char>| #[trigger] distinct(list).contains(text) <==> list.contains(text),
{
    let keys = list.map_values(|text: Seq<char>| text_key(text));
    let kept = first_places(keys);
    let out = distinct(list);
    law_first_places(keys);
    lemma_first_below(keys, keys.len() as int);
    assert forall|a: int| 0 <= a < kept.len() implies 0 <= #[trigger] kept[a] < list.len() && out[a]
        == list[kept[a]] by {
        assert(kept.contains(kept[a]));
    }
    assert forall|a: int, b: int| 0 <= a < b < out.len() implies out[a] != out[b] by {
        assert(keys[kept[a]] != keys[kept[b]]);
    }
    assert forall|text: Seq<char>| #[trigger] out.contains(text) <==> list.contains(text) by {
        if list.contains(text) {
            let i = choose|i: int| 0 <= i < list.len() && list[i] == text;
            let a = choose|a: int| 0 <= a < kept.len() && keys[#[trigger] kept[a]] == keys[i];
            crate::order::lemma_text_key(list[kept[a]], list[i]);
            assert(out[a] == text);
        }
        if out.contains(text) {
            let a = choose|a: int| 0 <= a < out.len() && out[a] == text;
            assert(list[kept[a]] == text);
        }
    }
}

/// Whether `firsts` are the places of a list, from its start to its end, where a text stands
/// that does not stand before.
pub open spec fn are_firsts(firsts: Seq<int>, list: Seq<Seq<char>>) -> bool {
    &&& forall|a: int| 0 <= a < firsts.len() ==> 0 <= #[trigger] firsts[a] < list.len()
    &&& forall|a: int, b: int|
        0 <= a < b < firsts.len() ==> #[trigger] firsts[a] < #[trigger] firsts[b]
    &&& forall|a: int, j: int|
        0 <= a < firsts.len() && 0 <= j < firsts[a] ==> #[trigger] list[j] != list[
        #[trigger] firsts[a]]
}

/// The texts that are kept stand in the order in which they first occurred.
pub proof fn law_distinct_in_order(list: Seq<Seq<char>>)
    ensures
        exists|firsts: Seq<int>| #[trigger]
            are_firsts(firsts, list) && distinct(list) == Seq::new(
                firsts.len(),
                |a: int| list[firsts[a]],
            ),
{
    let keys = list.map_values(|text: Seq<char>| text_key(text));
    let kept = first_places(keys);
    lemma_first_below(keys, keys.len() as int);
    assert forall|a: int| 0 <= a < kept.len() implies 0 <= #[trigger] kept[a] < list.len()
        && is_first(keys, kept[a]) by {
        assert(kept.contains(kept[a]));
    }
    assert forall|a: int, j: int| 0 <= a < kept.len() && 0 <= j < kept[a] implies #[trigger] list[j]
        != list[#[trigger] kept[a]] by {
        assert(keys[j] != keys[kept[a]]);
    }
    assert(are_firsts(kept, list));
    assert(distinct(list) =~= Seq::new(kept.len(), |a: int| list[kept[a]]));
}

proof fn lemma_first_of_key(keys: Seq<Seq<Seq<int>>>, i: int) -> (first: int)
    requires
        0 <= i < keys.len(),
    ensures
        0 <= first <= i,
        keys[first] == keys[i],
        is_first(keys, first),
    decreases i,
{
    if is_first(keys, i) {
        i
    } else {
        let j = choose|j: int| 0 <= j < i && #[trigger] keys[j] == keys[i];
        lemma_first_of_key(keys, j)
    }
}

} // verus!
