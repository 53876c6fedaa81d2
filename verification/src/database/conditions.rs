//! SQL conditions on one column.

use vstd::prelude::*;
use vstd::string::*;

use crate::lists::{cut, lists, pieces};
use crate::text::{escape, escaped, join, joined, texts};

verus! {

/// A value as it stands in a condition: with its quotes doubled, or as it is where
/// it is known to have none.
pub open spec fn literal(value: Seq<char>, doubled: bool) -> Seq<char> {
    if doubled {
        escaped(value)
    } else {
        value
    }
}

/// The condition that a column has a value.
pub open spec fn equals(column: Seq<char>, value: Seq<char>, doubled: bool) -> Seq<char> {
    column + " = '"@ + literal(value, doubled) + "'"@
}

/// The condition that a column has one of `values`.
pub open spec fn any_of(column: Seq<char>, values: Seq<Seq<char>>, doubled: bool) -> Seq<char> {
    joined(values.map_values(|value: Seq<char>| equals(column, value, doubled)), " OR "@)
}

/// The conditions that a column has one of `values`, of which each names no more
/// than `size`.
pub open spec fn any_of_pieces(
    column: Seq<char>,
    values: Seq<Seq<char>>,
    doubled: bool,
    size: nat,
) -> Seq<Seq<char>> {
    pieces(values, size).map_values(|piece: Seq<Seq<char>>| any_of(column, piece, doubled))
}

/// The pieces of a list of texts, seen by their contents.
pub proof fn lemma_text_pieces(list: Seq<String>, size: nat)
    ensures
        pieces(texts(list), size) == pieces(list, size).map_values(
            |piece: Seq<String>| texts(piece),
        ),
    decreases list.len(),
{
    let all = texts(list);
    let seen = pieces(list, size).map_values(|piece: Seq<String>| texts(piece));
    if list.len() == 0 || size == 0 {
        assert(pieces(all, size) =~= seen);
    } else if list.len() <= size {
        assert(pieces(all, size) =~= seen);
    } else {
        let rest = list.skip(size as int);
        lemma_text_pieces(rest, size);
        assert(texts(rest) =~= all.skip(size as int));
        assert(texts(list.take(size as int)) =~= all.take(size as int));
        assert(pieces(all, size) =~= seen);
    }
}

/// The condition that a column has one of `values`.
pub fn write_any_of(column: &str, values: &Vec<String>, doubled: bool) -> (condition: String)
    ensures
        condition@ == any_of(column@, texts(values@), doubled),
{
    let mut conditions: Vec<String> = Vec::new();
    let ghost all = texts(values@).map_values(
        |value: Seq<char>| equals(column@, value, doubled),
    );
    let mut i: usize = 0;
    while i < values.len()
        invariant
            i <= values@.len(),
            all == texts(values@).map_values(
                |value: Seq<char>| equals(column@, value, doubled),
            ),
            texts(conditions@) == all.take(i as int),
        decreases values@.len() - i,
    {
        let ghost before = texts(conditions@);
        let value = if doubled {
            escape(values[i].as_str())
        } else {
            values[i].clone()
        };
        let condition = String::from_str(column).concat(" = '").concat(value.as_str()).concat("'");
        assert(condition@ == all[i as int]);
        conditions.push(condition);
        assert(texts(conditions@) =~= before.push(all[i as int]));
        assert(all.take(i + 1) =~= before.push(all[i as int]));
        i = i + 1;
    }
    assert(all.take(i as int) =~= all);
    join(&conditions, " OR ")
}

/// The conditions that a column has one of `values`, of which each names no more
/// than `size`.
pub fn write_any_of_pieces(column: &str, values: Vec<String>, doubled: bool, size: usize) -> (list:
    Vec<String>)
    requires
        size > 0,
    ensures
        texts(list@) == any_of_pieces(column@, texts(values@), doubled, size as nat),
{
    let ghost names = values@;
    let ghost all = texts(values@);
    let ghost expected = any_of_pieces(column@, all, doubled, size as nat);
    let parts = cut(values, size);
    let mut list: Vec<String> = Vec::new();
    proof {
        lemma_text_pieces(names, size as nat);
    }
    let mut i: usize = 0;
    while i < parts.len()
        invariant
            i <= parts@.len(),
            all == texts(names),
            lists(parts@) == pieces(names, size as nat),
            pieces(all, size as nat) == pieces(names, size as nat).map_values(
                |piece: Seq<String>| texts(piece),
            ),
            expected == any_of_pieces(column@, all, doubled, size as nat),
            texts(list@) == expected.take(i as int),
        decreases parts@.len() - i,
    {
        let ghost before = texts(list@);
        let condition = write_any_of(column, &parts[i], doubled);
        proof {
            assert(lists(parts@)[i as int] == parts@[i as int]@);
            assert(expected[i as int] == condition@);
        }
        list.push(condition);
        assert(texts(list@) =~= before.push(expected[i as int]));
        assert(expected.take(i + 1) =~= before.push(expected[i as int]));
        i = i + 1;
    }
    proof {
        assert(lists(parts@).len() == parts@.len());
        assert(expected.take(i as int) =~= expected);
    }
    list
}

} // verus!
